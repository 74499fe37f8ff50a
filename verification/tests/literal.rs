use rclrs_msg_parser::error::{ParseError, Production};
use rclrs_msg_parser::parser::literal::{
    bin_literal, bool_literal, dec_literal, flag_if_exist, float_literal, hex_literal,
    integer_literal, oct_literal,
};

#[test]
fn parse_flag() {
    assert_eq!(flag_if_exist("+").1, "+".to_string());
    assert_eq!(flag_if_exist("-").1, "-".to_string());
    assert_eq!(flag_if_exist("x").1, "".to_string());
}

#[test]
fn parse_flag_leaves_the_rest() {
    assert_eq!(flag_if_exist("+12"), ("12", "+"));
    assert_eq!(flag_if_exist("12"), ("12", ""));
    assert_eq!(flag_if_exist(""), ("", ""));
    assert_eq!(flag_if_exist("--1"), ("-1", "-"));
}

#[test]
fn parse_integer_literal() {
    assert_eq!(integer_literal("101_010").unwrap().1.unwrap(), 101010);
}

#[test]
fn parse_bin_literal() {
    assert_eq!(bin_literal("0b101_010").unwrap().1.unwrap(), 0b101010);
    assert_eq!(bin_literal("+0b101_010").unwrap().1.unwrap(), 0b101010);
    assert_eq!(bin_literal("-0b101_010").unwrap().1.unwrap(), -0b101010);
}

#[test]
fn parse_oct_literal() {
    assert_eq!(oct_literal("0o12_345_670").unwrap().1.unwrap(), 0o12345670);
    assert_eq!(oct_literal("+0o12_345_670").unwrap().1.unwrap(), 0o12345670);
    assert_eq!(
        oct_literal("-0o12_345_670").unwrap().1.unwrap(),
        -0o12345670
    );
}

#[test]
fn parse_dec_literal() {
    assert_eq!(dec_literal("123_456_789").unwrap().1.unwrap(), 123456789);
    assert_eq!(dec_literal("+123_456_789").unwrap().1.unwrap(), 123456789);
    assert_eq!(dec_literal("-123_456_789").unwrap().1.unwrap(), -123456789);
}

#[test]
fn parse_hex_literal() {
    assert_eq!(hex_literal("0x789_aBc").unwrap().1.unwrap(), 0x789abc);
    assert_eq!(hex_literal("+0x789_aBc").unwrap().1.unwrap(), 0x789abc);
    assert_eq!(hex_literal("-0x789_aBc").unwrap().1.unwrap(), -0x789abc);
}

#[test]
fn integer_literal_prefers_a_prefixed_notation() {
    assert_eq!(integer_literal("0b11"), Ok(("", Ok(3))));
    assert_eq!(integer_literal("0o17"), Ok(("", Ok(15))));
    assert_eq!(integer_literal("0x1f"), Ok(("", Ok(31))));
    assert_eq!(integer_literal("0B11"), Ok(("", Ok(3))));
    assert_eq!(integer_literal("0O17"), Ok(("", Ok(15))));
    assert_eq!(integer_literal("0X1F"), Ok(("", Ok(31))));
    assert_eq!(integer_literal("011"), Ok(("", Ok(11))));
}

#[test]
fn integer_literal_falls_back_to_decimal() {
    assert_eq!(integer_literal("0o9"), Ok(("o9", Ok(0))));
    assert_eq!(integer_literal("0xg"), Ok(("xg", Ok(0))));
    assert_eq!(integer_literal("12ab"), Ok(("ab", Ok(12))));
}

#[test]
fn integer_literal_without_digits_fails() {
    assert_eq!(
        integer_literal("abc"),
        Err(ParseError::Syntax { offset: 0, expected: Production::IntegerLiteral })
    );
    assert_eq!(
        integer_literal("+"),
        Err(ParseError::Syntax { offset: 0, expected: Production::IntegerLiteral })
    );
    assert_eq!(
        integer_literal("_1"),
        Err(ParseError::Syntax { offset: 0, expected: Production::IntegerLiteral })
    );
    assert_eq!(
        dec_literal(""),
        Err(ParseError::Syntax { offset: 0, expected: Production::DecLiteral })
    );
    assert_eq!(
        oct_literal("0o"),
        Err(ParseError::Syntax { offset: 0, expected: Production::OctLiteral })
    );
    assert_eq!(
        hex_literal("0x_1"),
        Err(ParseError::Syntax { offset: 0, expected: Production::HexLiteral })
    );
    assert_eq!(
        bin_literal("101"),
        Err(ParseError::Syntax { offset: 0, expected: Production::BinLiteral })
    );
}

#[test]
fn separators_stand_between_groups() {
    assert_eq!(dec_literal("1_2_3"), Ok(("", Ok(123))));
    assert_eq!(dec_literal("1__2"), Ok(("__2", Ok(1))));
    assert_eq!(dec_literal("12_"), Ok(("_", Ok(12))));
    assert_eq!(hex_literal("0xff_"), Ok(("_", Ok(255))));
}

#[test]
fn binary_digits_and_separators_mix_freely() {
    assert_eq!(bin_literal("0b1__0"), Ok(("", Ok(2))));
    assert_eq!(bin_literal("0b_1_"), Ok(("", Ok(1))));
    assert_eq!(bin_literal("0b102"), Ok(("2", Ok(2))));
}

#[test]
fn binary_literal_without_digits_has_no_value() {
    assert_eq!(bin_literal("0b"), Ok(("", Err(ParseError::EmptyLiteral))));
    assert_eq!(bin_literal("-0b_"), Ok(("", Err(ParseError::EmptyLiteral))));
    assert_eq!(bin_literal("0b2"), Ok(("2", Err(ParseError::EmptyLiteral))));
    assert_eq!(integer_literal("0b"), Ok(("", Err(ParseError::EmptyLiteral))));
}

#[test]
fn literal_holds_the_ends_of_128_bits() {
    assert_eq!(
        dec_literal("170141183460469231731687303715884105727"),
        Ok(("", Ok(i128::MAX)))
    );
    assert_eq!(
        dec_literal("-170141183460469231731687303715884105728"),
        Ok(("", Ok(i128::MIN)))
    );
    assert_eq!(
        hex_literal("-0x8000_0000_0000_0000_0000_0000_0000_0000"),
        Ok(("", Ok(i128::MIN)))
    );
    assert_eq!(
        hex_literal("0x7fff_ffff_ffff_ffff_ffff_ffff_ffff_ffff"),
        Ok(("", Ok(i128::MAX)))
    );
}

#[test]
fn literal_beyond_128_bits_overflows() {
    assert_eq!(
        dec_literal("170141183460469231731687303715884105728"),
        Ok(("", Err(ParseError::LiteralOverflow)))
    );
    assert_eq!(
        dec_literal("-170141183460469231731687303715884105729"),
        Ok(("", Err(ParseError::LiteralOverflow)))
    );
    assert_eq!(
        hex_literal("0x8000_0000_0000_0000_0000_0000_0000_0000 x"),
        Ok((" x", Err(ParseError::LiteralOverflow)))
    );
    assert_eq!(
        dec_literal("999999999999999999999999999999999999999999999999"),
        Ok(("", Err(ParseError::LiteralOverflow)))
    );
}

#[test]
fn leading_zeros_do_not_count() {
    assert_eq!(
        dec_literal("000_000_000_000_000_000_000_000_000_000_000_000_000_000_007"),
        Ok(("", Ok(7)))
    );
    assert_eq!(dec_literal("-0"), Ok(("", Ok(0))));
}

#[test]
fn stripping_separators_keeps_the_value() {
    for (with, without) in [
        ("1_000_000", "1000000"),
        ("-12_34", "-1234"),
        ("+0xdead_beef", "+0xdeadbeef"),
        ("0b1111_0000", "0b11110000"),
        ("0o7_7_7", "0o777"),
    ] {
        assert_eq!(
            integer_literal(with).unwrap().1,
            integer_literal(without).unwrap().1
        );
    }
    assert_eq!(integer_literal("0b1111_0000"), Ok(("", Ok(0xf0))));
    assert_eq!(integer_literal("0o7_7_7"), Ok(("", Ok(0o777))));
    assert_eq!(integer_literal("0xdead_beef"), Ok(("", Ok(0xdead_beef))));
    assert_eq!(integer_literal("-1_000_000"), Ok(("", Ok(-1_000_000))));
}

#[test]
fn parse_bool_literal() {
    assert_eq!(bool_literal("true"), Ok(("", "true")));
    assert_eq!(bool_literal("false"), Ok(("", "false")));
    assert_eq!(bool_literal("truex"), Ok(("x", "true")));
    assert_eq!(
        bool_literal("True"),
        Err(ParseError::Syntax { offset: 0, expected: Production::BoolLiteral })
    );
    assert_eq!(
        bool_literal("1"),
        Err(ParseError::Syntax { offset: 0, expected: Production::BoolLiteral })
    );
    assert_eq!(
        bool_literal("tru"),
        Err(ParseError::Syntax { offset: 0, expected: Production::BoolLiteral })
    );
}

#[test]
fn parse_float_literal() {
    assert_eq!(float_literal("11e-1"), Ok(("", "11e-1")));
    assert_eq!(float_literal("123E-02"), Ok(("", "123E-02")));
    assert_eq!(float_literal("123K-01"), Ok(("K-01", "123")));
    assert_eq!(float_literal("2.0"), Ok(("", "2.0")));
    assert_eq!(float_literal("-.5x"), Ok(("x", "-.5")));
    assert_eq!(float_literal("2. "), Ok((" ", "2.")));
    assert_eq!(float_literal("+1.5e+3"), Ok(("", "+1.5e+3")));
    assert_eq!(float_literal("1.e5"), Ok(("", "1.e5")));
    assert_eq!(float_literal("1..2"), Ok((".2", "1.")));
}

#[test]
fn float_literal_needs_a_mantissa() {
    for text in ["abc", "", ".", "-", "+.", "e5", ".e5"] {
        assert_eq!(
            float_literal(text),
            Err(ParseError::Syntax { offset: 0, expected: Production::FloatLiteral })
        );
    }
}

#[test]
fn float_literal_owes_digits_to_a_begun_exponent() {
    for text in ["1e", "1e+", "1.5Ex", "-.5e-", "2.e "] {
        assert_eq!(
            float_literal(text),
            Err(ParseError::Syntax { offset: 0, expected: Production::FloatExponent })
        );
    }
}

/// What the grammar of floating-point literals says of `s`: the length of
/// the literal, `Err(false)` where there is none, `Err(true)` where an
/// exponent is begun and has no digits.
fn float_grammar(s: &[char]) -> Result<usize, bool> {
    fn digits(s: &[char]) -> usize {
        s.iter().take_while(|c| c.is_ascii_digit()).count()
    }
    fn sign(s: &[char]) -> usize {
        match s.first() {
            Some('+') | Some('-') => 1,
            _ => 0,
        }
    }
    let mut at = sign(s);
    let whole = digits(&s[at..]);
    if whole > 0 {
        at += whole;
        if s.get(at) == Some(&'.') {
            at += 1;
            at += digits(&s[at..]);
        }
    } else if s.get(at) == Some(&'.') && digits(&s[at + 1..]) > 0 {
        at += 1 + digits(&s[at + 1..]);
    } else {
        return Err(false);
    }
    if matches!(s.get(at), Some('e') | Some('E')) {
        let head = at + 1 + sign(&s[at + 1..]);
        let exponent = digits(&s[head..]);
        if exponent == 0 {
            return Err(true);
        }
        at = head + exponent;
    }
    Ok(at)
}

#[test]
fn float_literal_agrees_with_the_grammar() {
    let alphabet = ['+', '-', '.', 'e', 'E', '0', '7', 'x', ' ', 'é'];
    let mut checked = 0;
    for len in 0..=5usize {
        let mut index = vec![0usize; len];
        loop {
            let chars: Vec<char> = index.iter().map(|&i| alphabet[i]).collect();
            let text: String = chars.iter().collect();
            let expected = match float_grammar(&chars) {
                Ok(n) => {
                    let literal: String = chars[..n].iter().collect();
                    let rest: String = chars[n..].iter().collect();
                    Ok((rest, literal))
                }
                Err(false) => {
                    Err(ParseError::Syntax { offset: 0, expected: Production::FloatLiteral })
                }
                Err(true) => {
                    Err(ParseError::Syntax { offset: 0, expected: Production::FloatExponent })
                }
            };
            let found =
                float_literal(&text).map(|(rest, literal)| (rest.to_string(), literal.to_string()));
            assert_eq!(found, expected, "on {:?}", text);
            checked += 1;
            let mut k = 0;
            while k < len {
                index[k] += 1;
                if index[k] < alphabet.len() {
                    break;
                }
                index[k] = 0;
                k += 1;
            }
            if k == len {
                break;
            }
        }
    }
    assert_eq!(checked, 111_111);
}
