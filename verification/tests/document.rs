use rclrs_msg_parser::error::{ParseError, Production};
use rclrs_msg_parser::message::{Constant, Field};
use rclrs_msg_parser::parser::action::{action_from_blocks, parse_action_string};
use rclrs_msg_parser::parser::msg::{parse_line, parse_message_string, Declaration};
use rclrs_msg_parser::parser::srv::{parse_service_string, service_from_blocks};
use rclrs_msg_parser::types::{
    Array, BasicType, ConstantType, GenericString, MemberType, NamedType, NestableType, Sequence,
};

fn field(name: &str, ty: MemberType, default: Option<&str>) -> Field {
    Field { name: name.to_string(), ty, default: default.map(|d| d.to_string()) }
}

fn constant(name: &str, kind: BasicType, value: &str) -> Constant {
    Constant {
        name: name.to_string(),
        ty: ConstantType::BasicType(kind),
        value: value.to_string(),
    }
}

#[test]
fn parse_empty_message() {
    for text in ["", "\n", "  \n\t\r\n", "// nothing\n/* at\nall */"] {
        let msg = parse_message_string("pkg", "Empty", text).unwrap();
        assert_eq!(msg.package, "pkg");
        assert_eq!(msg.name, "Empty");
        assert!(msg.fields.is_empty());
        assert!(msg.constants.is_empty());
    }
}

#[test]
fn parse_message_in_file_order() {
    let text = "// A pose with a tag.\n\
                uint8 KIND_NONE = 0\n\
                uint8 KIND_MAX=0xff   // top\n\
                \n\
                float64 xx 1.5\r\n\
                  float64[3] offset\n\
                /* kept for\n   later */ bool valid true\n\
                string<=16 label\n\
                Po/* inline */se[] poses\n\
                float32 SCALE = -2.5e-1\n\
                bool DEBUG = false";
    let msg = parse_message_string("geo", "Tagged", text).unwrap();
    assert_eq!(msg.package, "geo");
    assert_eq!(msg.name, "Tagged");
    assert_eq!(
        msg.constants,
        vec![
            constant("KIND_NONE", BasicType::U8, "0"),
            constant("KIND_MAX", BasicType::U8, "0xff"),
            constant("SCALE", BasicType::F32, "-2.5e-1"),
            constant("DEBUG", BasicType::Bool, "false"),
        ]
    );
    assert_eq!(
        msg.fields,
        vec![
            field("xx", MemberType::BasicType(BasicType::F64), Some("1.5")),
            field(
                "offset",
                MemberType::Array(Array {
                    value_type: NestableType::BasicType(BasicType::F64),
                    size: 3
                }),
                None
            ),
            field("valid", MemberType::BasicType(BasicType::Bool), Some("true")),
            field("label", MemberType::GenericString(GenericString::BoundedString(16)), None),
            field(
                "poses",
                MemberType::Sequence(Sequence {
                    value_type: NestableType::NamedType(NamedType("Pose".to_string()))
                }),
                None
            ),
        ]
    );
}

#[test]
fn parse_message_names_the_line_that_fails() {
    assert_eq!(
        parse_message_string("p", "M", "uint8 ok\n\nuint8 Bad\nuint8 _worse").unwrap_err(),
        ParseError::InvalidLine { line: 2 }
    );
    assert_eq!(
        parse_message_string("p", "M", "uint8 aa 1 2").unwrap_err(),
        ParseError::InvalidLine { line: 0 }
    );
    assert_eq!(
        parse_message_string("p", "M", "\n\nstring NAME = 3").unwrap_err(),
        ParseError::InvalidLine { line: 2 }
    );
    assert_eq!(
        parse_message_string("p", "M", "float32 xx 1e").unwrap_err(),
        ParseError::InvalidLine { line: 0 }
    );
    assert_eq!(
        parse_message_string("p", "M", "uint8 aa\n---\nuint8 bb").unwrap_err(),
        ParseError::InvalidLine { line: 1 }
    );
}

#[test]
fn parse_message_reports_a_value_out_of_range() {
    assert_eq!(
        parse_message_string("p", "M", "uint8 aaa 256").unwrap_err(),
        ParseError::Range { value: 256, target: BasicType::U8 }
    );
    assert_eq!(
        parse_message_string("p", "M", "bool bb\nint8 LOW = -129\nuint8 cc 999").unwrap_err(),
        ParseError::Range { value: -129, target: BasicType::I8 }
    );
    assert_eq!(
        parse_message_string("p", "M", "uint8 aaa 0b").unwrap_err(),
        ParseError::EmptyLiteral
    );
    assert_eq!(
        parse_message_string("p", "M", "int64 AAA = 0xfffffffffffffffffffffffffffffffff")
            .unwrap_err(),
        ParseError::LiteralOverflow
    );
    assert_eq!(
        parse_message_string("p", "M", "uint8 aaa 256 x").unwrap_err(),
        ParseError::InvalidLine { line: 0 }
    );
}

#[test]
fn parse_message_fails_on_an_open_comment() {
    assert_eq!(
        parse_message_string("p", "M", "uint8 aa\n/* uint8 bb").unwrap_err(),
        ParseError::Syntax { offset: 9, expected: Production::BlockCommentEnd }
    );
}

#[test]
fn a_bare_equals_makes_a_constant_line() {
    assert_eq!(
        parse_line("uint8 AAA=1", 4),
        Ok(Declaration::Constant(constant("AAA", BasicType::U8, "1")))
    );
    assert_eq!(parse_line("uint8 aaa = 1", 4), Err(ParseError::InvalidLine { line: 4 }));
    assert_eq!(parse_line("uint8 AAA 1", 7), Err(ParseError::InvalidLine { line: 7 }));
    assert_eq!(
        parse_line("string<=4 name", 0),
        Ok(Declaration::Field(field(
            "name",
            MemberType::GenericString(GenericString::BoundedString(4)),
            None
        )))
    );
    assert_eq!(
        parse_line("uint8[<=4] data", 0).map(|d| matches!(d, Declaration::Field(_))),
        Ok(true)
    );
    assert_eq!(parse_line("uint8[=4] data", 3), Err(ParseError::InvalidLine { line: 3 }));
    assert_eq!(parse_line("uint8[4] DATA = 4", 3), Err(ParseError::InvalidLine { line: 3 }));
}

#[test]
fn parse_action_with_two_separators() {
    let text = "uint32 order\n---\nuint32[] sequence\n---\nuint32[] partial // so far\n";
    let action = parse_action_string("demo", "Fibonacci", text).unwrap();
    assert_eq!(action.package, "demo");
    assert_eq!(action.name, "Fibonacci");
    assert_eq!(action.goal.package, "demo");
    assert_eq!(action.goal.name, "Fibonacci_Goal");
    assert_eq!(action.result.name, "Fibonacci_Result");
    assert_eq!(action.feedback.name, "Fibonacci_Feedback");
    assert_eq!(
        action.goal.fields,
        vec![field("order", MemberType::BasicType(BasicType::U32), None)]
    );
    let sequence = MemberType::Sequence(Sequence {
        value_type: NestableType::BasicType(BasicType::U32),
    });
    assert_eq!(action.result.fields, vec![field("sequence", sequence.clone(), None)]);
    assert_eq!(action.feedback.fields, vec![field("partial", sequence, None)]);
    assert!(action.goal.constants.is_empty());
}

#[test]
fn parse_action_with_empty_blocks() {
    let action = parse_action_string("demo", "Nop", "---\n---").unwrap();
    assert!(action.goal.fields.is_empty());
    assert!(action.result.fields.is_empty());
    assert!(action.feedback.fields.is_empty());
    assert_eq!(action.feedback.name, "Nop_Feedback");
}

#[test]
fn parse_action_with_a_wrong_number_of_separators() {
    for (text, found) in [
        ("uint8 a", 1),
        ("", 1),
        ("uint8 a\n---\nuint8 b", 2),
        ("uint8 a\n---\nuint8 b\n---\nuint8 c\n---\nuint8 d", 4),
        ("---\n---\n---", 4),
        ("uint8 a\n--- \nuint8 b\n ---\nuint8 c", 1),
        ("uint8 a\n----\nuint8 b\n---\r\nuint8 c", 1),
    ] {
        assert_eq!(
            parse_action_string("demo", "Act", text).unwrap_err(),
            ParseError::InvalidActionSpecification { wanted: 3, found }
        );
    }
}

#[test]
fn parse_action_reports_the_first_block_that_fails() {
    assert_eq!(
        parse_action_string("demo", "Act", "uint8 aa\n---\n\nuint8 B\n---\nuint8 C")
            .unwrap_err(),
        ParseError::InvalidLine { line: 2 }
    );
    assert_eq!(
        parse_action_string("demo", "Act", "uint8 A\n---\nuint8 bb 300\n---\nuint8 cc")
            .unwrap_err(),
        ParseError::InvalidLine { line: 0 }
    );
    assert_eq!(
        parse_action_string("demo", "Act", "uint8 aa\n---\nuint8 bb 300\n---\nuint8 C")
            .unwrap_err(),
        ParseError::Range { value: 300, target: BasicType::U8 }
    );
}

#[test]
fn action_from_blocks_counts_the_blocks() {
    assert_eq!(
        action_from_blocks("p", "A", &vec![]).unwrap_err(),
        ParseError::InvalidActionSpecification { wanted: 3, found: 0 }
    );
    assert_eq!(
        action_from_blocks("p", "A", &vec!["", ""]).unwrap_err(),
        ParseError::InvalidActionSpecification { wanted: 3, found: 2 }
    );
    assert_eq!(
        action_from_blocks("p", "A", &vec!["", "", "", ""]).unwrap_err(),
        ParseError::InvalidActionSpecification { wanted: 3, found: 4 }
    );
    let action = action_from_blocks("p", "A", &vec!["bool gg", "bool rr", "bool ff"]).unwrap();
    assert_eq!(action.goal.name, "A_Goal");
    assert_eq!(action.goal.fields[0].name, "gg");
    assert_eq!(action.result.name, "A_Result");
    assert_eq!(action.result.fields[0].name, "rr");
    assert_eq!(action.feedback.name, "A_Feedback");
    assert_eq!(action.feedback.fields[0].name, "ff");
}

#[test]
fn parse_service_with_one_separator() {
    let text = "int64 aa\nint64 bb\n---\nint64 sum\n";
    let service = parse_service_string("demo", "AddTwoInts", text).unwrap();
    assert_eq!(service.package, "demo");
    assert_eq!(service.name, "AddTwoInts");
    assert_eq!(service.request.name, "AddTwoInts_Request");
    assert_eq!(service.request.package, "demo");
    assert_eq!(service.response.name, "AddTwoInts_Response");
    assert_eq!(
        service.request.fields,
        vec![
            field("aa", MemberType::BasicType(BasicType::I64), None),
            field("bb", MemberType::BasicType(BasicType::I64), None),
        ]
    );
    assert_eq!(
        service.response.fields,
        vec![field("sum", MemberType::BasicType(BasicType::I64), None)]
    );
}

#[test]
fn parse_service_with_a_wrong_number_of_separators() {
    for (text, found) in [("int64 aa", 1), ("", 1), ("---\n---", 3), ("a\n---\nb\n---\nc", 3)] {
        assert_eq!(
            parse_service_string("demo", "Srv", text).unwrap_err(),
            ParseError::InvalidServiceSpecification { wanted: 2, found }
        );
    }
    assert_eq!(
        service_from_blocks("demo", "Srv", &vec![]).unwrap_err(),
        ParseError::InvalidServiceSpecification { wanted: 2, found: 0 }
    );
}

#[test]
fn parse_service_reports_the_first_block_that_fails() {
    assert_eq!(
        parse_service_string("demo", "Srv", "int8 aa 128\n---\nint8 B").unwrap_err(),
        ParseError::Range { value: 128, target: BasicType::I8 }
    );
    assert_eq!(
        parse_service_string("demo", "Srv", "int8 aa 127\n---\nint8 B").unwrap_err(),
        ParseError::InvalidLine { line: 1 }
    );
    let service = service_from_blocks("demo", "Srv", &vec!["bool qq", "bool rr"]).unwrap();
    assert_eq!(service.request.fields[0].name, "qq");
    assert_eq!(service.response.fields[0].name, "rr");
}

#[test]
fn blocks_stand_between_the_lines_that_read_three_dashes() {
    let kinds = ["---", "--- ", " ---", "", "uint8 aa", "----", "--", "---\r"];
    let mut checked = 0;
    for len in 1..=4usize {
        let mut index = vec![0usize; len];
        loop {
            let lines: Vec<&str> = index.iter().map(|&i| kinds[i]).collect();
            let text = lines.join("\n");
            let blocks = 1 + lines.iter().filter(|line| **line == "---").count();
            let action = parse_action_string("pkg", "Act", &text);
            let service = parse_service_string("pkg", "Srv", &text);
            if blocks == 3 {
                assert!(
                    !matches!(action, Err(ParseError::InvalidActionSpecification { .. })),
                    "on {:?}",
                    text
                );
            } else {
                assert_eq!(
                    action.unwrap_err(),
                    ParseError::InvalidActionSpecification { wanted: 3, found: blocks },
                    "on {:?}",
                    text
                );
            }
            if blocks == 2 {
                assert!(
                    !matches!(service, Err(ParseError::InvalidServiceSpecification { .. })),
                    "on {:?}",
                    text
                );
            } else {
                assert_eq!(
                    service.unwrap_err(),
                    ParseError::InvalidServiceSpecification { wanted: 2, found: blocks },
                    "on {:?}",
                    text
                );
            }
            checked += 1;
            let mut k = 0;
            while k < len {
                index[k] += 1;
                if index[k] < kinds.len() {
                    break;
                }
                index[k] = 0;
                k += 1;
            }
            if k == len {
                break;
            }
        }
    }
    assert_eq!(checked, 8 + 64 + 512 + 4096);
}
