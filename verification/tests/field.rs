use rclrs_msg_parser::error::{ParseError, Production};
use rclrs_msg_parser::message::Field;
use rclrs_msg_parser::parser::field::{bool_field_def, float_field_def, integer_field_def};
use rclrs_msg_parser::types::{BasicType, FieldType};

fn integer_kinds() -> Vec<(&'static str, BasicType, i128, i128)> {
    vec![
        ("uint8", BasicType::U8, 0, u8::MAX as i128),
        ("uint16", BasicType::U16, 0, u16::MAX as i128),
        ("uint32", BasicType::U32, 0, u32::MAX as i128),
        ("uint64", BasicType::U64, 0, u64::MAX as i128),
        ("int8", BasicType::I8, i8::MIN as i128, i8::MAX as i128),
        ("int16", BasicType::I16, i16::MIN as i128, i16::MAX as i128),
        ("int32", BasicType::I32, i32::MIN as i128, i32::MAX as i128),
        ("int64", BasicType::I64, i64::MIN as i128, i64::MAX as i128),
        ("char", BasicType::Char, 0, u8::MAX as i128),
        ("byte", BasicType::Byte, 0, u8::MAX as i128),
    ]
}

#[test]
fn parse_integer_field_def() {
    for (keyword, kind, _, _) in integer_kinds() {
        let input = format!("{} aaa", keyword);
        let result = integer_field_def(&input).unwrap().1.unwrap();
        assert_eq!(result.name, "aaa");
        assert_eq!(result.ty, FieldType::BasicType(kind));
        assert_eq!(result.default, None);
    }
}

#[test]
fn parse_integer_field_def_with_default() {
    for (keyword, kind, _, _) in integer_kinds() {
        let input = format!("{} aaa 10", keyword);
        let result = integer_field_def(&input).unwrap().1.unwrap();
        assert_eq!(result.name, "aaa");
        assert_eq!(result.ty, FieldType::BasicType(kind));
        assert_eq!(result.default, Some("10".to_string()));
    }
}

#[test]
fn parse_integer_field_def_with_default_out_range() {
    for (keyword, _, _, max) in integer_kinds() {
        let input = format!("{} aaa {}", keyword, max + 1);
        let result = integer_field_def(&input).unwrap();
        assert!(result.1.is_err());
    }
}

#[test]
fn integer_field_default_at_the_ends_of_the_range() {
    for (keyword, kind, min, max) in integer_kinds() {
        for v in [min, max] {
            let input = format!("{} aaa {}", keyword, v);
            let (rest, field) = integer_field_def(&input).unwrap();
            assert_eq!(rest, "");
            assert_eq!(field.unwrap().default, Some(v.to_string()));
        }
        for v in [min - 1, max + 1] {
            let input = format!("{} aaa {}", keyword, v);
            let (rest, field) = integer_field_def(&input).unwrap();
            assert_eq!(rest, "");
            assert_eq!(field, Err(ParseError::Range { value: v, target: kind }));
        }
    }
}

#[test]
fn integer_field_with_uint8_default() {
    let (rest, field) = integer_field_def("uint8 aaa 10").unwrap();
    assert_eq!(rest, "");
    assert_eq!(
        field,
        Ok(Field {
            name: "aaa".to_string(),
            ty: FieldType::BasicType(BasicType::U8),
            default: Some("10".to_string()),
        })
    );
    let (rest, field) = integer_field_def("uint8 aaa 256").unwrap();
    assert_eq!(rest, "");
    assert_eq!(field, Err(ParseError::Range { value: 256, target: BasicType::U8 }));
}

#[test]
fn integer_field_default_keeps_the_text_of_the_literal() {
    let (rest, field) = integer_field_def("int32 abc \t-0x1F_f tail").unwrap();
    assert_eq!(rest, " tail");
    assert_eq!(field.unwrap().default, Some("-0x1F_f".to_string()));
    let (_, field) = integer_field_def("uint16 abc +1_000").unwrap();
    assert_eq!(field.unwrap().default, Some("+1_000".to_string()));
}

#[test]
fn integer_field_without_a_readable_default_ends_behind_the_name() {
    let (rest, field) = integer_field_def("uint8 aaa xyz").unwrap();
    assert_eq!(rest, " xyz");
    assert_eq!(field.unwrap().default, None);
    let (rest, field) = integer_field_def("uint8 aaa  ").unwrap();
    assert_eq!(rest, "  ");
    assert_eq!(field.unwrap().default, None);
    let (rest, field) = integer_field_def("uint8 aaa10").unwrap();
    assert_eq!(rest, "");
    assert_eq!(field.unwrap().name, "aaa10");
}

#[test]
fn integer_field_default_without_a_value() {
    let (rest, field) = integer_field_def("uint8 aaa 0b").unwrap();
    assert_eq!(rest, "");
    assert_eq!(field, Err(ParseError::EmptyLiteral));
    let (rest, field) =
        integer_field_def("int64 aaa 340282366920938463463374607431768211456").unwrap();
    assert_eq!(rest, "");
    assert_eq!(field, Err(ParseError::LiteralOverflow));
}

#[test]
fn integer_field_failures_say_where() {
    assert_eq!(
        integer_field_def("float32 aaa"),
        Err(ParseError::Syntax { offset: 0, expected: Production::IntegerType })
    );
    assert_eq!(
        integer_field_def("uint8"),
        Err(ParseError::Syntax { offset: 5, expected: Production::Space })
    );
    assert_eq!(
        integer_field_def("uint8[] aaa"),
        Err(ParseError::Syntax { offset: 5, expected: Production::Space })
    );
    assert_eq!(
        integer_field_def("uint16  _aaa"),
        Err(ParseError::Syntax { offset: 8, expected: Production::FieldName })
    );
    assert_eq!(
        integer_field_def("int8 \tAAA"),
        Err(ParseError::Syntax { offset: 6, expected: Production::FieldName })
    );
}

#[test]
fn parse_f32_field_def() {
    let result = float_field_def("float32 aaa").unwrap().1;
    assert_eq!(result.name, "aaa");
    assert_eq!(result.ty, FieldType::BasicType(BasicType::F32));
    assert_eq!(result.default, None);
}

#[test]
fn parse_f32_field_def_with_default() {
    let result = float_field_def("float32 aaa 2.0").unwrap().1;
    assert_eq!(result.name, "aaa");
    assert_eq!(result.ty, FieldType::BasicType(BasicType::F32));
    assert_eq!(result.default, Some("2.0".to_string()));
}

#[test]
fn parse_f64_field_def() {
    let result = float_field_def("float64 aaa").unwrap().1;
    assert_eq!(result.name, "aaa");
    assert_eq!(result.ty, FieldType::BasicType(BasicType::F64));
    assert_eq!(result.default, None);
}

#[test]
fn parse_f64_field_def_with_default() {
    let result = float_field_def("float64 aaa 2.0").unwrap().1;
    assert_eq!(result.name, "aaa");
    assert_eq!(result.ty, FieldType::BasicType(BasicType::F64));
    assert_eq!(result.default, Some("2.0".to_string()));
}

#[test]
fn float_field_default_is_what_the_literal_reads() {
    let (rest, field) = float_field_def("float64 aaa   -1.5e-3xyz").unwrap();
    assert_eq!(rest, "xyz");
    assert_eq!(field.default, Some("-1.5e-3".to_string()));
    let (rest, field) = float_field_def("float32 aaa xyz").unwrap();
    assert_eq!(rest, " xyz");
    assert_eq!(field.default, None);
    let (rest, field) = float_field_def("float32 aaa ").unwrap();
    assert_eq!(rest, " ");
    assert_eq!(field.default, None);
}

#[test]
fn float_field_with_a_broken_exponent_fails() {
    assert_eq!(
        float_field_def("float32 aaa 1e"),
        Err(ParseError::Syntax { offset: 12, expected: Production::FloatExponent })
    );
    assert_eq!(
        float_field_def("float64 aaa  2.5E+ x"),
        Err(ParseError::Syntax { offset: 13, expected: Production::FloatExponent })
    );
}

#[test]
fn float_field_failures_say_where() {
    assert_eq!(
        float_field_def("uint8 aaa"),
        Err(ParseError::Syntax { offset: 0, expected: Production::FloatType })
    );
    assert_eq!(
        float_field_def("float32aaa"),
        Err(ParseError::Syntax { offset: 7, expected: Production::Space })
    );
    assert_eq!(
        float_field_def("float32 1"),
        Err(ParseError::Syntax { offset: 8, expected: Production::FieldName })
    );
}

#[test]
fn parse_bool_field_def() {
    let result = bool_field_def("bool aaa").unwrap().1;
    assert_eq!(result.name, "aaa");
    assert_eq!(result.ty, FieldType::BasicType(BasicType::Bool));
    assert_eq!(result.default, None);
}

#[test]
fn parse_bool_field_def_with_default() {
    let result = bool_field_def("bool aaa false").unwrap().1;
    assert_eq!(result.name, "aaa");
    assert_eq!(result.ty, FieldType::BasicType(BasicType::Bool));
    assert_eq!(result.default, Some("false".to_string()));
}

#[test]
fn bool_field_default_is_true_or_false() {
    let (rest, field) = bool_field_def("bool aaa true!").unwrap();
    assert_eq!(rest, "!");
    assert_eq!(field.default, Some("true".to_string()));
    let (rest, field) = bool_field_def("bool aaa 1").unwrap();
    assert_eq!(rest, " 1");
    assert_eq!(field.default, None);
    let (rest, field) = bool_field_def("bool aaa True").unwrap();
    assert_eq!(rest, " True");
    assert_eq!(field.default, None);
}

#[test]
fn bool_field_failures_say_where() {
    assert_eq!(
        bool_field_def("boolean aaa"),
        Err(ParseError::Syntax { offset: 4, expected: Production::Space })
    );
    assert_eq!(
        bool_field_def("Bool aaa"),
        Err(ParseError::Syntax { offset: 0, expected: Production::BoolType })
    );
    assert_eq!(
        bool_field_def("bool "),
        Err(ParseError::Syntax { offset: 5, expected: Production::FieldName })
    );
}
