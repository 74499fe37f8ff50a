use rclrs_msg_parser::error::{ParseError, Production};
use rclrs_msg_parser::parser::comment::{multi_line_comment, single_line_comment, strip_comments};

#[test]
fn test_single_line_comment() {
    let (remain, _) = single_line_comment("// abc\ndef").unwrap();
    assert_eq!(remain, "\ndef");
}

#[test]
fn test_single_line_comment_fail() {
    assert!(single_line_comment("/ abc\ndef").is_err());
}

#[test]
fn test_multi_line_comment() {
    let (remain, _) = multi_line_comment("/* abc\n\nbcd\r */def").unwrap();
    assert_eq!(remain, "def");
}

#[test]
fn test_multi_line_comment_start_only() {
    assert!(multi_line_comment("/* abc").is_err());
}

#[test]
fn single_line_comment_ends_at_the_end_of_the_line() {
    assert_eq!(single_line_comment("//a\r\nb"), Ok(("\r\nb", ())));
    assert_eq!(single_line_comment("// é ü"), Ok(("", ())));
    assert_eq!(single_line_comment("///"), Ok(("", ())));
}

#[test]
fn single_line_comment_needs_a_character() {
    assert_eq!(
        single_line_comment("//"),
        Err(ParseError::Syntax { offset: 0, expected: Production::LineComment })
    );
    assert_eq!(
        single_line_comment("//\nabc"),
        Err(ParseError::Syntax { offset: 0, expected: Production::LineComment })
    );
    assert_eq!(
        single_line_comment(""),
        Err(ParseError::Syntax { offset: 0, expected: Production::LineComment })
    );
}

#[test]
fn multi_line_comment_ends_at_the_nearest_end() {
    assert_eq!(multi_line_comment("/**/"), Ok(("", ())));
    assert_eq!(multi_line_comment("/* a */ b */"), Ok((" b */", ())));
    assert_eq!(multi_line_comment("/*/ x */y"), Ok(("y", ())));
    assert_eq!(
        multi_line_comment("/*/"),
        Err(ParseError::Syntax { offset: 0, expected: Production::BlockCommentEnd })
    );
    assert_eq!(
        multi_line_comment("x/* */"),
        Err(ParseError::Syntax { offset: 0, expected: Production::BlockComment })
    );
}

#[test]
fn strip_comments_removes_both_kinds() {
    assert_eq!(strip_comments("abc"), Ok("abc".to_string()));
    assert_eq!(strip_comments(""), Ok("".to_string()));
    assert_eq!(
        strip_comments("uint8 a // first\nuint8 b"),
        Ok("uint8 a \nuint8 b".to_string())
    );
    assert_eq!(
        strip_comments("uint8 a /* one\n two */ 3\n//\n// x"),
        Ok("uint8 a  3\n\n".to_string())
    );
    assert_eq!(strip_comments("a//b\r\nc"), Ok("a\r\nc".to_string()));
    assert_eq!(strip_comments("a/*//*/b"), Ok("ab".to_string()));
    assert_eq!(strip_comments("a// /* b\nc */"), Ok("a\nc */".to_string()));
    assert_eq!(strip_comments("é/* ü */ö"), Ok("éö".to_string()));
}

#[test]
fn strip_comments_fails_on_an_open_block_comment() {
    assert_eq!(
        strip_comments("uint8 a\n/* open"),
        Err(ParseError::Syntax { offset: 8, expected: Production::BlockCommentEnd })
    );
    assert_eq!(
        strip_comments("/* a */ b /*/"),
        Err(ParseError::Syntax { offset: 10, expected: Production::BlockCommentEnd })
    );
}

#[test]
fn an_open_block_comment_is_found_by_its_byte_offset() {
    assert_eq!(
        strip_comments("é /* open"),
        Err(ParseError::Syntax { offset: 3, expected: Production::BlockCommentEnd })
    );
    assert_eq!(
        strip_comments("// €\n/* ü */ö/*"),
        Err(ParseError::Syntax { offset: 17, expected: Production::BlockCommentEnd })
    );
    assert_eq!("// €\n/* ü */ö".len(), 17);
}
