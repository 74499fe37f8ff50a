use rclrs_msg_parser::error::{ParseError, Production};
use rclrs_msg_parser::parser::types::{member_def, member_type, nestable_type};
use rclrs_msg_parser::types::{
    Array, BasicType, BoundedSequence, ConstantType, GenericString, GenericUnboundedString,
    MemberType, NamedType, NamespacedType, NestableType, PrimitiveType, Sequence,
};

fn integer_kinds() -> Vec<(BasicType, i128, i128)> {
    vec![
        (BasicType::U8, 0, u8::MAX as i128),
        (BasicType::U16, 0, u16::MAX as i128),
        (BasicType::U32, 0, u32::MAX as i128),
        (BasicType::U64, 0, u64::MAX as i128),
        (BasicType::I8, i8::MIN as i128, i8::MAX as i128),
        (BasicType::I16, i16::MIN as i128, i16::MAX as i128),
        (BasicType::I32, i32::MIN as i128, i32::MAX as i128),
        (BasicType::I64, i64::MIN as i128, i64::MAX as i128),
        (BasicType::Char, 0, u8::MAX as i128),
        (BasicType::Byte, 0, u8::MAX as i128),
    ]
}

#[test]
fn check_integer_range_accepts_the_ends_and_rejects_their_neighbours() {
    for (kind, min, max) in integer_kinds() {
        assert_eq!(kind.check_integer_range(min), Ok(()));
        assert_eq!(kind.check_integer_range(max), Ok(()));
        assert_eq!(kind.check_integer_range(0), Ok(()));
        assert_eq!(
            kind.check_integer_range(min - 1),
            Err(ParseError::Range { value: min - 1, target: kind })
        );
        assert_eq!(
            kind.check_integer_range(max + 1),
            Err(ParseError::Range { value: max + 1, target: kind })
        );
        assert!(kind.check_integer_range(i128::MAX).is_err());
        assert!(kind.check_integer_range(i128::MIN).is_err());
    }
}

#[test]
fn check_integer_range_passes_what_is_no_integer() {
    for kind in [BasicType::F32, BasicType::F64, BasicType::Bool] {
        assert_eq!(kind.check_integer_range(i128::MAX), Ok(()));
        assert_eq!(kind.check_integer_range(i128::MIN), Ok(()));
        assert_eq!(kind.check_integer_range(0), Ok(()));
    }
}

#[test]
fn basic_type_from_keyword() {
    for (word, kind) in [
        ("uint8", BasicType::U8),
        ("uint16", BasicType::U16),
        ("uint32", BasicType::U32),
        ("uint64", BasicType::U64),
        ("int8", BasicType::I8),
        ("int16", BasicType::I16),
        ("int32", BasicType::I32),
        ("int64", BasicType::I64),
        ("float32", BasicType::F32),
        ("float64", BasicType::F64),
        ("bool", BasicType::Bool),
        ("char", BasicType::Char),
        ("byte", BasicType::Byte),
    ] {
        assert_eq!(BasicType::from_str(word), Some(kind));
        assert_eq!(kind.keyword_str(), word);
    }
    for word in ["", "uint", "uint8 ", "Uint8", "string", "int128", " bool"] {
        assert_eq!(BasicType::from_str(word), None);
    }
}

#[test]
fn names_are_written_out() {
    assert_eq!(NamedType("Pose".to_string()).to_string(), "Pose");
    let t = NamespacedType { package_name: "std_msgs".to_string(), name: "Bool".to_string() };
    assert_eq!(t.to_string(), "std_msgs/msg/Bool");
}

#[test]
fn widening_keeps_the_type() {
    assert_eq!(
        GenericString::from(GenericUnboundedString::String),
        GenericString::String
    );
    assert_eq!(
        GenericString::from(GenericUnboundedString::WString),
        GenericString::WString
    );
    assert_eq!(
        MemberType::from(NestableType::BasicType(BasicType::I8)),
        MemberType::BasicType(BasicType::I8)
    );
    assert_eq!(
        MemberType::from(NestableType::NamedType(NamedType("A".to_string()))),
        MemberType::NamedType(NamedType("A".to_string()))
    );
    assert_eq!(
        MemberType::from(NestableType::GenericString(GenericString::BoundedString(3))),
        MemberType::GenericString(GenericString::BoundedString(3))
    );
    let t = NamespacedType { package_name: "p".to_string(), name: "N".to_string() };
    assert_eq!(
        MemberType::from(NestableType::NamespacedType(t.clone())),
        MemberType::NamespacedType(t)
    );
    assert_eq!(
        ConstantType::from(PrimitiveType::BasicType(BasicType::Bool)),
        ConstantType::BasicType(BasicType::Bool)
    );
    assert_eq!(
        ConstantType::from(PrimitiveType::GenericUnboundedString(GenericUnboundedString::WString)),
        ConstantType::GenericUnboundedString(GenericUnboundedString::WString)
    );
}

#[test]
fn narrowing_to_a_constant_type_is_partial() {
    assert_eq!(
        MemberType::BasicType(BasicType::U16).to_constant_type(),
        Some(ConstantType::BasicType(BasicType::U16))
    );
    assert_eq!(
        MemberType::GenericString(GenericString::String).to_constant_type(),
        Some(ConstantType::GenericUnboundedString(GenericUnboundedString::String))
    );
    assert_eq!(
        MemberType::GenericString(GenericString::WString).to_constant_type(),
        Some(ConstantType::GenericUnboundedString(GenericUnboundedString::WString))
    );
    let byte = NestableType::BasicType(BasicType::Byte);
    for t in [
        MemberType::GenericString(GenericString::BoundedString(4)),
        MemberType::GenericString(GenericString::BoundedWString(4)),
        MemberType::NamedType(NamedType("A".to_string())),
        MemberType::NamespacedType(NamespacedType {
            package_name: "p".to_string(),
            name: "N".to_string(),
        }),
        MemberType::Array(Array { value_type: byte.clone(), size: 2 }),
        MemberType::Sequence(Sequence { value_type: byte.clone() }),
        MemberType::BoundedSequence(BoundedSequence { value_type: byte.clone(), max_size: 2 }),
    ] {
        assert_eq!(t.to_constant_type(), None);
    }
}

#[test]
fn parse_base_types() {
    assert_eq!(
        nestable_type("uint8 x"),
        Ok((" x", NestableType::BasicType(BasicType::U8)))
    );
    assert_eq!(
        nestable_type("float64"),
        Ok(("", NestableType::BasicType(BasicType::F64)))
    );
    assert_eq!(
        nestable_type("string"),
        Ok(("", NestableType::GenericString(GenericString::String)))
    );
    assert_eq!(
        nestable_type("wstring[]"),
        Ok(("[]", NestableType::GenericString(GenericString::WString)))
    );
    assert_eq!(
        nestable_type("string<=10 s"),
        Ok((" s", NestableType::GenericString(GenericString::BoundedString(10))))
    );
    assert_eq!(
        nestable_type("wstring<=007"),
        Ok(("", NestableType::GenericString(GenericString::BoundedWString(7))))
    );
    assert_eq!(
        nestable_type("Pose2D pose"),
        Ok((" pose", NestableType::NamedType(NamedType("Pose2D".to_string()))))
    );
    assert_eq!(
        nestable_type("Uint8"),
        Ok(("", NestableType::NamedType(NamedType("Uint8".to_string()))))
    );
}

#[test]
fn base_type_failures_say_where() {
    assert_eq!(
        nestable_type("pose"),
        Err(ParseError::Syntax { offset: 0, expected: Production::TypeName })
    );
    assert_eq!(
        nestable_type(""),
        Err(ParseError::Syntax { offset: 0, expected: Production::TypeName })
    );
    assert_eq!(
        nestable_type("string<=0"),
        Err(ParseError::Syntax { offset: 8, expected: Production::Size })
    );
    assert_eq!(
        nestable_type("string<=x"),
        Err(ParseError::Syntax { offset: 8, expected: Production::Size })
    );
    assert_eq!(
        nestable_type("wstring<=99999999999999999999999999"),
        Err(ParseError::Syntax { offset: 9, expected: Production::Size })
    );
}

#[test]
fn parse_collections() {
    let int32 = NestableType::BasicType(BasicType::I32);
    assert_eq!(
        member_type("int32[] xs"),
        Ok((" xs", MemberType::Sequence(Sequence { value_type: int32.clone() })))
    );
    assert_eq!(
        member_type("int32[3]"),
        Ok(("", MemberType::Array(Array { value_type: int32.clone(), size: 3 })))
    );
    assert_eq!(
        member_type("int32[<=12] xs"),
        Ok((
            " xs",
            MemberType::BoundedSequence(BoundedSequence {
                value_type: int32.clone(),
                max_size: 12
            })
        ))
    );
    assert_eq!(member_type("int32"), Ok(("", MemberType::BasicType(BasicType::I32))));
    assert_eq!(
        member_type("string<=5[<=2]"),
        Ok((
            "",
            MemberType::BoundedSequence(BoundedSequence {
                value_type: NestableType::GenericString(GenericString::BoundedString(5)),
                max_size: 2
            })
        ))
    );
    assert_eq!(
        member_type("Point[4] corners"),
        Ok((
            " corners",
            MemberType::Array(Array {
                value_type: NestableType::NamedType(NamedType("Point".to_string())),
                size: 4
            })
        ))
    );
    assert_eq!(
        member_type("Point[][]"),
        Ok((
            "[]",
            MemberType::Sequence(Sequence {
                value_type: NestableType::NamedType(NamedType("Point".to_string()))
            })
        ))
    );
}

#[test]
fn collection_failures_say_where() {
    assert_eq!(
        member_type("int32[0]"),
        Err(ParseError::Syntax { offset: 6, expected: Production::Size })
    );
    assert_eq!(
        member_type("int32["),
        Err(ParseError::Syntax { offset: 6, expected: Production::Size })
    );
    assert_eq!(
        member_type("int32[<=]"),
        Err(ParseError::Syntax { offset: 8, expected: Production::Size })
    );
    assert_eq!(
        member_type("int32[<=0]"),
        Err(ParseError::Syntax { offset: 8, expected: Production::Size })
    );
    assert_eq!(
        member_type("int32[3"),
        Err(ParseError::Syntax { offset: 7, expected: Production::CloseBracket })
    );
    assert_eq!(
        member_type("int32[<=3 ]"),
        Err(ParseError::Syntax { offset: 9, expected: Production::CloseBracket })
    );
    assert_eq!(
        member_type("int32[ 3]"),
        Err(ParseError::Syntax { offset: 6, expected: Production::Size })
    );
    assert_eq!(
        member_type("lower"),
        Err(ParseError::Syntax { offset: 0, expected: Production::TypeName })
    );
}

#[test]
fn parse_member_def() {
    let (rest, field) = member_def("string<=8[] names # all of them").unwrap();
    assert_eq!(rest, " # all of them");
    assert_eq!(field.name, "names");
    assert_eq!(
        field.ty,
        MemberType::Sequence(Sequence {
            value_type: NestableType::GenericString(GenericString::BoundedString(8))
        })
    );
    assert_eq!(field.default, None);
    let (rest, field) = member_def("uint8 count 3").unwrap();
    assert_eq!(rest, " 3");
    assert_eq!(field.ty, MemberType::BasicType(BasicType::U8));
    assert_eq!(field.default, None);
}

#[test]
fn member_def_failures_say_where() {
    assert_eq!(
        member_def("Pose"),
        Err(ParseError::Syntax { offset: 4, expected: Production::Space })
    );
    assert_eq!(
        member_def("Pose[2]  Pose"),
        Err(ParseError::Syntax { offset: 9, expected: Production::FieldName })
    );
    assert_eq!(
        member_def("Pose[2 ] pose"),
        Err(ParseError::Syntax { offset: 6, expected: Production::CloseBracket })
    );
}
