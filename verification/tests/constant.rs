use rclrs_msg_parser::error::{ParseError, Production};
use rclrs_msg_parser::message::Constant;
use rclrs_msg_parser::parser::constant::{bool_const_def, float_const_def, integer_const_def};
use rclrs_msg_parser::types::{BasicType, ConstantType};

fn integer_kinds() -> Vec<(&'static str, BasicType, i128, i128)> {
    vec![
        ("uint8", BasicType::U8, 0, u8::MAX as i128),
        ("uint16", BasicType::U16, 0, u16::MAX as i128),
        ("uint32", BasicType::U32, 0, u32::MAX as i128),
        ("uint64", BasicType::U64, 0, u64::MAX as i128),
        ("int8", BasicType::I8, i8::MIN as i128, i8::MAX as i128),
        ("int16", BasicType::I16, i16::MIN as i128, i16::MAX as i128),
        ("int32", BasicType::I32, i32::MIN as i128, i32::MAX as i128),
        ("int64", BasicType::I64, i64::MIN as i128, i64::MAX as i128),
        ("char", BasicType::Char, 0, u8::MAX as i128),
        ("byte", BasicType::Byte, 0, u8::MAX as i128),
    ]
}

#[test]
fn parse_integer_const_def() {
    for (keyword, kind, _, _) in integer_kinds() {
        let input = format!("{} AAA=10", keyword);
        let result = integer_const_def(&input).unwrap().1.unwrap();
        assert_eq!(result.name, "AAA");
        assert_eq!(result.ty, ConstantType::BasicType(kind));
        assert_eq!(result.value, "10".to_string());
    }
}

#[test]
fn parse_integer_const_def_without_value() {
    for (keyword, _, _, _) in integer_kinds() {
        let input = format!("{} AAA", keyword);
        let result = integer_const_def(&input);
        assert!(result.is_err());
    }
}

#[test]
fn parse_integer_const_def_out_range() {
    for (keyword, _, _, max) in integer_kinds() {
        let input = format!("{} AAA={}", keyword, max + 1);
        let result = integer_const_def(&input).unwrap();
        assert!(result.1.is_err());
    }
}

#[test]
fn integer_constant_at_the_ends_of_the_range() {
    for (keyword, kind, min, max) in integer_kinds() {
        for v in [min, max] {
            let input = format!("{} AAA = {}", keyword, v);
            let (rest, constant) = integer_const_def(&input).unwrap();
            assert_eq!(rest, "");
            assert_eq!(
                constant,
                Ok(Constant {
                    name: "AAA".to_string(),
                    ty: ConstantType::BasicType(kind),
                    value: v.to_string(),
                })
            );
        }
        for v in [min - 1, max + 1] {
            let input = format!("{} AAA = {}", keyword, v);
            let (rest, constant) = integer_const_def(&input).unwrap();
            assert_eq!(rest, "");
            assert_eq!(constant, Err(ParseError::Range { value: v, target: kind }));
        }
    }
}

#[test]
fn integer_constant_keeps_the_text_of_the_literal() {
    let (rest, constant) = integer_const_def("uint8 MAX_SIZE \t=\t 0xF_f # top").unwrap();
    assert_eq!(rest, " # top");
    let constant = constant.unwrap();
    assert_eq!(constant.name, "MAX_SIZE");
    assert_eq!(constant.value, "0xF_f");
}

#[test]
fn integer_constant_without_a_value() {
    let (rest, constant) = integer_const_def("uint8 AAA=0B_").unwrap();
    assert_eq!(rest, "");
    assert_eq!(constant, Err(ParseError::EmptyLiteral));
    let (rest, constant) =
        integer_const_def("uint64 AAA=0xffff_ffff_ffff_ffff_ffff_ffff_ffff_ffff").unwrap();
    assert_eq!(rest, "");
    assert_eq!(constant, Err(ParseError::LiteralOverflow));
}

#[test]
fn integer_constant_failures_say_where() {
    assert_eq!(
        integer_const_def("bool AAA=1"),
        Err(ParseError::Syntax { offset: 0, expected: Production::IntegerType })
    );
    assert_eq!(
        integer_const_def("uint8AAA=1"),
        Err(ParseError::Syntax { offset: 5, expected: Production::Space })
    );
    assert_eq!(
        integer_const_def("uint8 aaa=1"),
        Err(ParseError::Syntax { offset: 6, expected: Production::ConstantName })
    );
    assert_eq!(
        integer_const_def("uint8 AAA"),
        Err(ParseError::Syntax { offset: 9, expected: Production::Equals })
    );
    assert_eq!(
        integer_const_def("uint8 AAA  1"),
        Err(ParseError::Syntax { offset: 11, expected: Production::Equals })
    );
    assert_eq!(
        integer_const_def("uint8 AAA = x"),
        Err(ParseError::Syntax { offset: 12, expected: Production::IntegerLiteral })
    );
    assert_eq!(
        integer_const_def("uint8 AAA2=1"),
        Err(ParseError::Syntax { offset: 9, expected: Production::Equals })
    );
}

#[test]
fn parse_f32_const_def() {
    let result = float_const_def("float32 AAA=2.0").unwrap().1;
    assert_eq!(result.name, "AAA");
    assert_eq!(result.ty, ConstantType::BasicType(BasicType::F32));
    assert_eq!(result.value, "2.0".to_string());
}

#[test]
fn parse_f32_const_def_without_value() {
    let result = float_const_def("float32 AAA");
    assert!(result.is_err());
}

#[test]
fn parse_f64_const_def() {
    let result = float_const_def("float64 AAA=2.0").unwrap().1;
    assert_eq!(result.name, "AAA");
    assert_eq!(result.ty, ConstantType::BasicType(BasicType::F64));
    assert_eq!(result.value, "2.0".to_string());
}

#[test]
fn parse_f64_const_def_with_default() {
    let result = float_const_def("float64 AAA");
    assert!(result.is_err());
}

#[test]
fn float_constant_failures_say_where() {
    assert_eq!(
        float_const_def("float32 AAA"),
        Err(ParseError::Syntax { offset: 11, expected: Production::Equals })
    );
    assert_eq!(
        float_const_def("float32 AAA = x"),
        Err(ParseError::Syntax { offset: 14, expected: Production::FloatLiteral })
    );
    assert_eq!(
        float_const_def("float32 AAA=1e"),
        Err(ParseError::Syntax { offset: 12, expected: Production::FloatExponent })
    );
    assert_eq!(
        float_const_def("int8 AAA=1"),
        Err(ParseError::Syntax { offset: 0, expected: Production::FloatType })
    );
}

#[test]
fn float_constant_reads_the_whole_literal() {
    let (rest, constant) = float_const_def("float64 PI = 3.14159e0;").unwrap();
    assert_eq!(rest, ";");
    assert_eq!(constant.name, "PI");
    assert_eq!(constant.value, "3.14159e0");
}

#[test]
fn parse_bool_const_def() {
    let result = bool_const_def("bool AAA=true").unwrap().1;
    assert_eq!(result.name, "AAA");
    assert_eq!(result.ty, ConstantType::BasicType(BasicType::Bool));
    assert_eq!(result.value, "true".to_string());
}

#[test]
fn parse_bool_const_def_with_default() {
    let result = bool_const_def("bool AAA");
    assert!(result.is_err());
}

#[test]
fn bool_constant_failures_say_where() {
    assert_eq!(
        bool_const_def("bool AAA"),
        Err(ParseError::Syntax { offset: 8, expected: Production::Equals })
    );
    assert_eq!(
        bool_const_def("bool AAA=1"),
        Err(ParseError::Syntax { offset: 9, expected: Production::BoolLiteral })
    );
    assert_eq!(
        bool_const_def("bool AAA = yes"),
        Err(ParseError::Syntax { offset: 11, expected: Production::BoolLiteral })
    );
    let (rest, constant) = bool_const_def("bool ON_OFF = false ").unwrap();
    assert_eq!(rest, " ");
    assert_eq!(constant.value, "false");
    assert_eq!(constant.name, "ON_OFF");
}
