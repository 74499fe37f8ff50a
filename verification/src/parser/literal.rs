//! Literals: integers in four notations, booleans and floating-point
//! numbers.
//!
//! An integer literal is an optional sign, the marker of its notation
//! (`0b`, `0o`, `0x`; none for decimal) and digits, which `_` may separate
//! into groups.  The separators do not count towards the value.

use crate::error::{ParseError, Production};
use crate::names::is_segmented;
use crate::types::BasicType;
use crate::parser::identifier::{
    cut_token,
    lemma_segmented_is_read,
    lemma_segments_shape,
    scan_segments,
    segments_len,
    token_outcome,
};
use crate::text::{
    begins_with,
    lemma_run_len,
    lemma_run_len_bounds,
    lemma_run_len_take,
    run_len,
    scan_run,
    skip,
    starts_with,
    to_chars,
    CharClass,
};
use vstd::prelude::*;
use vstd::slice::slice_subrange;
use vstd::string::*;

verus! {

/// A notation for integers.
#[derive(Clone, Copy, Debug, PartialEq, Eq, Structural)]
pub enum Radix {
    Bin,
    Oct,
    Dec,
    Hex,
}

impl Radix {
    /// The base of the notation.
    pub open spec fn base(self) -> int {
        match self {
            Radix::Bin => 2,
            Radix::Oct => 8,
            Radix::Dec => 10,
            Radix::Hex => 16,
        }
    }

    /// The digits of the notation.
    pub open spec fn digit_class(self) -> CharClass {
        match self {
            Radix::Bin => CharClass::BinDigit,
            Radix::Oct => CharClass::OctDigit,
            Radix::Dec => CharClass::DecDigit,
            Radix::Hex => CharClass::HexDigit,
        }
    }

    /// The length of the marker of this notation at the front of `s`: `0`
    /// and the letter of the notation in either case; nothing for decimal.
    pub open spec fn marker_len(self, s: Seq<char>) -> Option<nat> {
        let (lower, upper) = match self {
            Radix::Bin => ('b', 'B'),
            Radix::Oct => ('o', 'O'),
            Radix::Dec => ('0', '0'),
            Radix::Hex => ('x', 'X'),
        };
        if self is Dec {
            Some(0)
        } else if s.len() >= 2 && s[0] == '0' && (s[1] == lower || s[1] == upper) {
            Some(2)
        } else {
            None
        }
    }

    /// The length of the digits at the front of `s`, separators included.
    /// Binary digits and separators may come in any number and order; in the
    /// other notations a group has at least one digit and a single `_`
    /// stands between two groups.
    pub open spec fn digits_len(self, s: Seq<char>) -> Option<nat> {
        match self {
            Radix::Bin => Some(run_len(s, CharClass::BinDigitOrSeparator)),
            _ => segments_len(s, self.digit_class()),
        }
    }

    fn base_value(self) -> (b: i128)
        ensures
            b == self.base(),
    {
        match self {
            Radix::Bin => 2,
            Radix::Oct => 8,
            Radix::Dec => 10,
            Radix::Hex => 16,
        }
    }

    fn scan_marker(self, s: &[char]) -> (r: Option<usize>)
        ensures
            r matches Some(n) ==> self.marker_len(s@) == Some(n as nat) && n <= s@.len(),
            r is None ==> self.marker_len(s@) is None,
    {
        let (lower, upper) = match self {
            Radix::Bin => ('b', 'B'),
            Radix::Oct => ('o', 'O'),
            Radix::Dec => {
                return Some(0);
            },
            Radix::Hex => ('x', 'X'),
        };
        if s.len() >= 2 && s[0] == '0' && (s[1] == lower || s[1] == upper) {
            Some(2)
        } else {
            None
        }
    }

    fn scan_digits(self, s: &[char]) -> (r: Option<usize>)
        ensures
            r matches Some(n) ==> self.digits_len(s@) == Some(n as nat) && n <= s@.len(),
            r is None ==> self.digits_len(s@) is None,
    {
        match self {
            Radix::Bin => Some(scan_run(s, CharClass::BinDigitOrSeparator)),
            Radix::Oct => scan_segments(s, CharClass::OctDigit),
            Radix::Dec => scan_segments(s, CharClass::DecDigit),
            Radix::Hex => scan_segments(s, CharClass::HexDigit),
        }
    }
}

/// The length of the sign at the front of `s`: 1 for `+` or `-`, else 0.
pub open spec fn sign_len(s: Seq<char>) -> nat {
    if s.len() > 0 && (s[0] == '+' || s[0] == '-') {
        1
    } else {
        0
    }
}

/// What a digit stands for; 0 for any other character.
pub open spec fn digit_value(c: char) -> int {
    if '0' <= c <= '9' {
        c as int - '0' as int
    } else if 'a' <= c <= 'f' {
        c as int - 'a' as int + 10
    } else if 'A' <= c <= 'F' {
        c as int - 'A' as int + 10
    } else {
        0
    }
}

/// The number that the digits `s` write in base `base`, the first digit
/// weighing most.  No character of `s` is passed over.
pub open spec fn radix_value(s: Seq<char>, base: int) -> int
    decreases s.len(),
{
    if s.len() == 0 {
        0
    } else {
        radix_value(s.drop_last(), base) * base + digit_value(s.last())
    }
}

/// The number that the digits `s` write in base `base` where `_` may stand
/// between them.
pub open spec fn digits_value(s: Seq<char>, base: int) -> int
    decreases s.len(),
{
    if s.len() == 0 {
        0
    } else if s.last() == '_' {
        digits_value(s.drop_last(), base)
    } else {
        digits_value(s.drop_last(), base) * base + digit_value(s.last())
    }
}

/// `s` without its separators.
pub open spec fn without_separators(s: Seq<char>) -> Seq<char> {
    s.filter(|c: char| c != '_')
}

/// Whether `s` holds anything but separators.
pub open spec fn has_digit(s: Seq<char>) -> bool {
    exists|i: int| 0 <= i < s.len() && #[trigger] s[i] != '_'
}

/// `v`, or its opposite where `negative`.
pub open spec fn signed(negative: bool, v: int) -> int {
    if negative {
        -v
    } else {
        v
    }
}

/// The value of an integer literal whose digits are `digits`, as far as 128
/// bits hold it.
pub open spec fn literal_number(digits: Seq<char>, negative: bool, base: int) -> Result<
    i128,
    ParseError,
> {
    let v = signed(negative, digits_value(digits, base));
    if !has_digit(digits) {
        Err(ParseError::EmptyLiteral)
    } else if i128::MIN <= v <= i128::MAX {
        Ok(v as i128)
    } else {
        Err(ParseError::LiteralOverflow)
    }
}

/// An integer literal at the front of an input: how long it is and what it
/// is worth.
pub struct IntegerMatch {
    /// The number of characters of the literal.
    pub len: nat,
    /// Its value, or why it has none.
    pub value: Result<i128, ParseError>,
}

/// The literal in notation `radix` at the front of `s`, if there is one.
pub open spec fn integer_match(s: Seq<char>, radix: Radix) -> Option<IntegerMatch> {
    let sign = sign_len(s);
    match radix.marker_len(s.skip(sign as int)) {
        None => None,
        Some(marker) => {
            let start = sign + marker;
            match radix.digits_len(s.skip(start as int)) {
                None => None,
                Some(n) => Some(
                    IntegerMatch {
                        len: start + n,
                        value: literal_number(
                            s.subrange(start as int, (start + n) as int),
                            sign == 1 && s[0] == '-',
                            radix.base(),
                        ),
                    },
                ),
            }
        },
    }
}

/// The integer literal at the front of `s`: the first notation among
/// binary, octal, hexadecimal and decimal in which one can be read.
pub open spec fn any_integer_match(s: Seq<char>) -> Option<IntegerMatch> {
    if integer_match(s, Radix::Bin) is Some {
        integer_match(s, Radix::Bin)
    } else if integer_match(s, Radix::Oct) is Some {
        integer_match(s, Radix::Oct)
    } else if integer_match(s, Radix::Hex) is Some {
        integer_match(s, Radix::Hex)
    } else {
        integer_match(s, Radix::Dec)
    }
}

/// What a production that reads an integer literal hands back: the rest of
/// the input behind the literal and the literal's value; a failure at the
/// front of the input where there is no literal.
pub open spec fn integer_outcome(
    r: Result<(&str, Result<i128, ParseError>), ParseError>,
    input: Seq<char>,
    found: Option<IntegerMatch>,
    expected: Production,
) -> bool {
    match r {
        Ok((rest, value)) => {
            &&& found matches Some(m)
            &&& m.len <= input.len()
            &&& rest@ == input.skip(m.len as int)
            &&& value == m.value
        },
        Err(e) => found is None && e == (ParseError::Syntax { offset: 0, expected }),
    }
}

/// A literal lies inside its input.
pub proof fn lemma_integer_bound(s: Seq<char>, radix: Radix)
    ensures
        integer_match(s, radix) matches Some(m) ==> m.len <= s.len(),
{
    let sign = sign_len(s) as int;
    if let Some(marker) = radix.marker_len(s.skip(sign)) {
        let body = s.skip(sign + marker);
        if radix is Bin {
            lemma_run_len_bounds(body, CharClass::BinDigitOrSeparator);
        } else {
            lemma_segments_shape(body, radix.digit_class());
        }
    }
}

/// A literal in any notation lies inside its input.
pub proof fn lemma_any_integer_bound(s: Seq<char>)
    ensures
        any_integer_match(s) matches Some(m) ==> m.len <= s.len(),
{
    lemma_integer_bound(s, Radix::Bin);
    lemma_integer_bound(s, Radix::Oct);
    lemma_integer_bound(s, Radix::Hex);
    lemma_integer_bound(s, Radix::Dec);
}

/// A literal is read alike in its input and alone.
pub proof fn lemma_integer_alone(s: Seq<char>, radix: Radix)
    ensures
        integer_match(s, radix) matches Some(m) ==> m.len <= s.len() && integer_match(
            s.take(m.len as int),
            radix,
        ) == Some(m),
{
    lemma_integer_bound(s, radix);
    if let Some(m) = integer_match(s, radix) {
        let sign = sign_len(s) as int;
        let marker = radix.marker_len(s.skip(sign))->Some_0 as int;
        let start = sign + marker;
        let body = s.skip(start);
        let n = radix.digits_len(body)->Some_0 as int;
        let t = s.take(m.len as int);
        if radix is Bin {
            lemma_run_len_bounds(body, CharClass::BinDigitOrSeparator);
            lemma_run_len_take(body, CharClass::BinDigitOrSeparator, n);
        } else {
            lemma_segments_shape(body, radix.digit_class());
            lemma_segmented_is_read(body.take(n), radix.digit_class());
        }
        assert(t.len() > 0);
        assert(t[0] == s[0]);
        assert(t.skip(sign) =~= s.skip(sign).take(m.len - sign));
        if marker == 2 {
            assert(t.skip(sign)[0] == s.skip(sign)[0]);
            assert(t.skip(sign)[1] == s.skip(sign)[1]);
        }
        assert(t.skip(start) =~= body.take(n));
        assert(t.subrange(start, start + n) =~= s.subrange(start, start + n));
    }
}

/// Where a literal is read in a prefix of an input, one is read in the
/// input.
pub proof fn lemma_integer_in_prefix(s: Seq<char>, radix: Radix, k: int)
    requires
        0 <= k <= s.len(),
    ensures
        integer_match(s.take(k), radix) is Some ==> integer_match(s, radix) is Some,
{
    let t = s.take(k);
    if integer_match(t, radix) is Some {
        let sign = sign_len(t) as int;
        let marker = radix.marker_len(t.skip(sign))->Some_0 as int;
        let start = sign + marker;
        lemma_integer_bound(t, radix);
        if radix is Bin {
        } else {
            lemma_run_len_bounds(t.skip(start), radix.digit_class());
            lemma_run_len_bounds(s.skip(start), radix.digit_class());
            assert(t.skip(start)[0] == s.skip(start)[0]);
        }
        assert(t[0] == s[0]);
        if marker == 2 {
            assert(t.skip(sign)[0] == s.skip(sign)[0]);
            assert(t.skip(sign)[1] == s.skip(sign)[1]);
        }
    }
}

/// A literal in any notation is read alike in its input and alone.
pub proof fn lemma_any_integer_alone(s: Seq<char>)
    ensures
        any_integer_match(s) matches Some(m) ==> m.len <= s.len() && any_integer_match(
            s.take(m.len as int),
        ) == Some(m),
{
    lemma_any_integer_bound(s);
    if let Some(m) = any_integer_match(s) {
        let k = m.len as int;
        lemma_integer_alone(s, Radix::Bin);
        lemma_integer_alone(s, Radix::Oct);
        lemma_integer_alone(s, Radix::Hex);
        lemma_integer_alone(s, Radix::Dec);
        lemma_integer_in_prefix(s, Radix::Bin, k);
        lemma_integer_in_prefix(s, Radix::Oct, k);
        lemma_integer_in_prefix(s, Radix::Hex, k);
    }
}

/// Separators do not count: digits with separators between them are worth
/// what the digits alone are worth.
pub proof fn lemma_separators_do_not_count(s: Seq<char>, base: int)
    ensures
        digits_value(s, base) == radix_value(without_separators(s), base),
    decreases s.len(),
{
    reveal(Seq::filter);
    if s.len() > 0 {
        lemma_separators_do_not_count(s.drop_last(), base);
        if s.last() != '_' {
            let kept = without_separators(s.drop_last());
            assert(kept.push(s.last()).drop_last() =~= kept);
        }
    }
}

/// The digits, separators among them, of the literal in notation `radix`
/// at the front of `s`.
pub open spec fn literal_digits(s: Seq<char>, radix: Radix) -> Seq<char>
    recommends
        integer_match(s, radix) is Some,
{
    let start = sign_len(s) + radix.marker_len(s.skip(sign_len(s) as int))->Some_0;
    s.subrange(start as int, integer_match(s, radix)->Some_0.len as int)
}

/// Reading a literal, then removing the separators from its digits and
/// taking what is left as a number in the base of its notation, gives the
/// value of the literal: it has a value exactly where a digit is left and
/// the number, with the sign of the literal, fits 128 bits, and the value
/// is then that number.  Nothing but digits of the notation is left.
pub proof fn lemma_literal_value(s: Seq<char>, radix: Radix)
    requires
        integer_match(s, radix) is Some,
    ensures
        ({
            let found = integer_match(s, radix)->Some_0;
            let digits = without_separators(literal_digits(s, radix));
            let number = signed(s.len() > 0 && s[0] == '-', radix_value(digits, radix.base()));
            &&& found.len <= s.len()
            &&& forall|i: int| 0 <= i < digits.len() ==> radix.digit_class().has(#[trigger] digits[i])
            &&& found.value is Ok <==> digits.len() > 0 && i128::MIN <= number <= i128::MAX
            &&& found.value matches Ok(v) ==> v == number
            &&& found.value matches Err(e) ==> e == if digits.len() == 0 {
                ParseError::EmptyLiteral
            } else {
                ParseError::LiteralOverflow
            }
        }),
{
    let sign = sign_len(s) as int;
    let marker = radix.marker_len(s.skip(sign))->Some_0 as int;
    let start = sign + marker;
    let body = s.skip(start);
    let n = radix.digits_len(body)->Some_0 as int;
    let region = literal_digits(s, radix);
    let digits = without_separators(region);
    if radix is Bin {
        lemma_run_len_bounds(body, CharClass::BinDigitOrSeparator);
    } else {
        lemma_segments_shape(body, radix.digit_class());
    }
    assert(region =~= body.take(n));
    lemma_separators_do_not_count(region, radix.base());
    assert forall|i: int| 0 <= i < digits.len() implies radix.digit_class().has(
        #[trigger] digits[i],
    ) by {
        assert(region.contains(digits[i])) by {
            lemma_filtered_is_contained(region, i);
        }
        let j = choose|j: int| 0 <= j < region.len() && region[j] == digits[i];
        assert(region[j] == body[j]);
    }
    if has_digit(region) {
        let j = choose|j: int| 0 <= j < region.len() && #[trigger] region[j] != '_';
        lemma_kept_is_left(region, j);
    }
    if digits.len() > 0 {
        lemma_filtered_is_contained(region, 0);
        let j = choose|j: int| 0 <= j < region.len() && region[j] == digits[0];
        assert(region[j] != '_');
    }
}

/// What is left of `s` without its separators was in `s`, and is no
/// separator.
proof fn lemma_filtered_is_contained(s: Seq<char>, i: int)
    requires
        0 <= i < without_separators(s).len(),
    ensures
        s.contains(without_separators(s)[i]),
        without_separators(s)[i] != '_',
    decreases s.len(),
{
    reveal(Seq::filter);
    if s.len() > 0 {
        let kept = without_separators(s.drop_last());
        if i < kept.len() {
            lemma_filtered_is_contained(s.drop_last(), i);
            let j = choose|j: int| 0 <= j < s.drop_last().len() && s.drop_last()[j] == kept[i];
            assert(s[j] == kept[i]);
        } else {
            assert(s[s.len() - 1] == s.last());
        }
    }
}

/// What is no separator in `s` is left without the separators.
proof fn lemma_kept_is_left(s: Seq<char>, j: int)
    requires
        0 <= j < s.len(),
        s[j] != '_',
    ensures
        without_separators(s).len() > 0,
    decreases s.len(),
{
    reveal(Seq::filter);
    if j < s.len() - 1 {
        lemma_kept_is_left(s.drop_last(), j);
    }
}

/// The marker of a notation, with its letter in lower or in upper case.
pub open spec fn marker_text(radix: Radix, upper: bool) -> Seq<char> {
    match radix {
        Radix::Bin => seq!['0', if upper { 'B' } else { 'b' }],
        Radix::Oct => seq!['0', if upper { 'O' } else { 'o' }],
        Radix::Dec => Seq::empty(),
        Radix::Hex => seq!['0', if upper { 'X' } else { 'x' }],
    }
}

/// Whether `sign` is a sign or nothing.
pub open spec fn is_sign(sign: Seq<char>) -> bool {
    sign.len() == 0 || (sign.len() == 1 && (sign[0] == '+' || sign[0] == '-'))
}

/// The parts of a text that is a sign or none, a marker and digits.
proof fn lemma_literal_parts(sign: Seq<char>, marker: Seq<char>, digits: Seq<char>)
    requires
        is_sign(sign),
        digits.len() > 0,
        digits[0] != '+',
        digits[0] != '-',
        marker.len() > 0 ==> marker[0] == '0',
    ensures
        ({
            let text = sign + marker + digits;
            let start = (sign.len() + marker.len()) as int;
            &&& sign_len(text) == sign.len()
            &&& text.len() == start + digits.len()
            &&& text.len() > 0
            &&& sign.len() == 1 ==> text[0] == sign[0]
            &&& text.skip(sign.len() as int) == marker + digits
            &&& text.skip(start) == digits
            &&& text.subrange(start, start + digits.len()) == digits
        }),
{
    let text = sign + marker + digits;
    let start = (sign.len() + marker.len()) as int;
    assert(text.skip(sign.len() as int) =~= marker + digits);
    assert(text.skip(start) =~= digits);
    assert(text.subrange(start, start + digits.len()) =~= digits);
    assert(text[0] == (sign + (marker + digits))[0]);
}

/// Groups of digits with a single `_` between two of them are read whole,
/// and hold a digit.
proof fn lemma_groups_are_read(radix: Radix, digits: Seq<char>)
    requires
        is_segmented(digits, radix.digit_class()),
    ensures
        radix.digits_len(digits) == Some(digits.len()),
        has_digit(digits),
        digits[0] != '+',
        digits[0] != '-',
{
    if radix is Bin {
        lemma_run_len(digits, CharClass::BinDigitOrSeparator, digits.len() as int);
    } else {
        lemma_segmented_is_read(digits, radix.digit_class());
    }
    assert(digits[0] != '_');
}

/// A literal that is written as a sign or none, the marker of a notation
/// and groups of its digits with a single `_` between two of them is read
/// whole in that notation; and its value is the number that the digits
/// without the separators write in the base of the notation, with the
/// sign, where 128 bits hold it.
pub proof fn lemma_literal_round_trip(sign: Seq<char>, radix: Radix, upper: bool, digits: Seq<char>)
    requires
        is_sign(sign),
        is_segmented(digits, radix.digit_class()),
    ensures
        integer_match(sign + marker_text(radix, upper) + digits, radix) == Some(
            written_literal(sign, radix, upper, digits),
        ),
{
    let marker = marker_text(radix, upper);
    lemma_groups_are_read(radix, digits);
    lemma_literal_parts(sign, marker, digits);
    lemma_separators_do_not_count(digits, radix.base());
}

/// What reading the literal written as `sign`, the marker of `radix` and
/// `digits` gives: all of it, and the number that `digits` without the
/// separators write in the base of `radix`, with the sign.
pub open spec fn written_literal(sign: Seq<char>, radix: Radix, upper: bool, digits: Seq<char>)
    -> IntegerMatch {
    let text = sign + marker_text(radix, upper) + digits;
    let number = signed(
        sign.len() == 1 && sign[0] == '-',
        radix_value(without_separators(digits), radix.base()),
    );
    IntegerMatch {
        len: text.len(),
        value: if i128::MIN <= number <= i128::MAX {
            Ok(number as i128)
        } else {
            Err(ParseError::LiteralOverflow)
        },
    }
}

/// A literal written in one notation is read in no notation that is tried
/// before it.
proof fn lemma_no_earlier_notation(
    sign: Seq<char>,
    radix: Radix,
    upper: bool,
    digits: Seq<char>,
    other: Radix,
)
    requires
        is_sign(sign),
        is_segmented(digits, radix.digit_class()),
        other != radix,
        !(other is Dec),
    ensures
        integer_match(sign + marker_text(radix, upper) + digits, other) is None,
{
    let marker = marker_text(radix, upper);
    let text = sign + marker + digits;
    lemma_groups_are_read(radix, digits);
    lemma_literal_parts(sign, marker, digits);
    let behind = marker + digits;
    if behind.len() >= 2 {
        if radix is Dec {
            assert(behind[1] == digits[1]);
        } else {
            assert(behind[1] == marker[1]);
        }
    }
}

/// A literal written in any notation is read in that notation where the
/// notation is not asked for.
pub proof fn lemma_any_literal_round_trip(
    sign: Seq<char>,
    radix: Radix,
    upper: bool,
    digits: Seq<char>,
)
    requires
        is_sign(sign),
        is_segmented(digits, radix.digit_class()),
    ensures
        any_integer_match(sign + marker_text(radix, upper) + digits) == Some(
            written_literal(sign, radix, upper, digits),
        ),
{
    lemma_literal_round_trip(sign, radix, upper, digits);
    if !(radix is Bin) {
        lemma_no_earlier_notation(sign, radix, upper, digits, Radix::Bin);
    }
    if !(radix is Oct) {
        lemma_no_earlier_notation(sign, radix, upper, digits, Radix::Oct);
    }
    if !(radix is Hex) {
        lemma_no_earlier_notation(sign, radix, upper, digits, Radix::Hex);
    }
}

/// The value of a digit.
fn digit_of(c: char) -> (d: i128)
    ensures
        d == digit_value(c),
        0 <= d < 16,
{
    if '0' <= c && c <= '9' {
        (c as u32 - '0' as u32) as i128
    } else if 'a' <= c && c <= 'f' {
        (c as u32 - 'a' as u32 + 10) as i128
    } else if 'A' <= c && c <= 'F' {
        (c as u32 - 'A' as u32 + 10) as i128
    } else {
        0
    }
}

/// The value of digits is not negative, and does not shrink when a digit or
/// a separator is added.
pub proof fn lemma_digits_value_grows(s: Seq<char>, base: int)
    requires
        base >= 1,
    ensures
        digits_value(s, base) >= 0,
        s.len() > 0 ==> digits_value(s, base) >= digits_value(s.drop_last(), base),
    decreases s.len(),
{
    if s.len() > 0 {
        let t = s.drop_last();
        lemma_digits_value_grows(t, base);
        let v = digits_value(t, base);
        assert(v * base >= v) by (nonlinear_arith)
            requires
                v >= 0,
                base >= 1,
        ;
    }
}

/// Computes `literal_number` in base `base`.
pub fn convert_digits(digits: &[char], negative: bool, base: i128) -> (r: Result<
    i128,
    ParseError,
>)
    requires
        1 <= base,
    ensures
        r == literal_number(digits@, negative, base as int),
{
    let mut acc: i128 = 0;
    let mut overflow = false;
    let mut seen = false;
    let mut i: usize = 0;
    while i < digits.len()
        invariant
            i <= digits@.len(),
            1 <= base,
            seen == has_digit(digits@.take(i as int)),
            !overflow ==> acc == signed(negative, digits_value(digits@.take(i as int), base as int)),
            overflow ==> {
                let v = signed(negative, digits_value(digits@.take(i as int), base as int));
                v < i128::MIN || v > i128::MAX
            },
        decreases digits@.len() - i,
    {
        let c = digits[i];
        proof {
            let t = digits@.take(i as int);
            let u = digits@.take(i + 1);
            assert(u.drop_last() =~= t);
            assert(u.last() == c);
            lemma_digits_value_grows(t, base as int);
            lemma_digits_value_grows(u, base as int);
            if has_digit(t) {
                let j = choose|j: int| 0 <= j < t.len() && #[trigger] t[j] != '_';
                assert(u[j] == t[j]);
            }
            if has_digit(u) {
                let j = choose|j: int| 0 <= j < u.len() && #[trigger] u[j] != '_';
                if j < i {
                    assert(t[j] == u[j]);
                }
            }
            if c != '_' {
                assert(u[i as int] != '_');
            }
        }
        if c != '_' {
            seen = true;
            if !overflow {
                let d = digit_of(c);
                let ghost v = digits_value(digits@.take(i as int), base as int);
                proof {
                    lemma_digits_value_grows(digits@.take(i as int), base as int);
                    assert((-v) * base == -(v * base)) by (nonlinear_arith);
                    assert(v * base >= 0) by (nonlinear_arith)
                        requires
                            v >= 0,
                            base >= 1,
                    ;
                }
                match acc.checked_mul(base) {
                    None => {
                        overflow = true;
                    },
                    Some(m) => {
                        let next = if negative {
                            m.checked_sub(d)
                        } else {
                            m.checked_add(d)
                        };
                        match next {
                            None => {
                                overflow = true;
                            },
                            Some(v) => {
                                acc = v;
                            },
                        }
                    },
                }
            }
        }
        i += 1;
    }
    assert(digits@.take(i as int) =~= digits@);
    if !seen {
        Err(ParseError::EmptyLiteral)
    } else if overflow {
        Err(ParseError::LiteralOverflow)
    } else {
        Ok(acc)
    }
}

/// An integer literal found by a scan.
pub struct IntegerScan {
    /// The number of characters of the literal.
    pub len: usize,
    /// Its value, or why it has none.
    pub value: Result<i128, ParseError>,
}

impl View for IntegerScan {
    type V = IntegerMatch;

    open spec fn view(&self) -> IntegerMatch {
        IntegerMatch { len: self.len as nat, value: self.value }
    }
}

/// Looks for a literal in notation `radix` at the front of `s`.
pub fn scan_integer(s: &[char], radix: Radix) -> (r: Option<IntegerScan>)
    ensures
        r matches Some(m) ==> integer_match(s@, radix) == Some(m@) && m.len <= s@.len(),
        r is None ==> integer_match(s@, radix) is None,
{
    let sign: usize = if s.len() > 0 && (s[0] == '+' || s[0] == '-') {
        1
    } else {
        0
    };
    let negative = sign == 1 && s[0] == '-';
    let after_sign = skip(s, sign);
    let marker = match radix.scan_marker(after_sign) {
        Some(n) => n,
        None => {
            return None;
        },
    };
    let start = sign + marker;
    let body = skip(s, start);
    let n = match radix.scan_digits(body) {
        Some(n) => n,
        None => {
            return None;
        },
    };
    let digits = slice_subrange(s, start, start + n);
    Some(IntegerScan { len: start + n, value: convert_digits(digits, negative, radix.base_value()) })
}

/// Looks for an integer literal at the front of `s`, trying binary, octal,
/// hexadecimal and decimal in this order.
pub fn scan_any_integer(s: &[char]) -> (r: Option<IntegerScan>)
    ensures
        r matches Some(m) ==> any_integer_match(s@) == Some(m@) && m.len <= s@.len(),
        r is None ==> any_integer_match(s@) is None,
{
    if let Some(m) = scan_integer(s, Radix::Bin) {
        return Some(m);
    }
    if let Some(m) = scan_integer(s, Radix::Oct) {
        return Some(m);
    }
    if let Some(m) = scan_integer(s, Radix::Hex) {
        return Some(m);
    }
    scan_integer(s, Radix::Dec)
}

/// Hands back the rest of `input` behind a scanned literal, and its value.
fn cut_integer<'a>(input: &'a str, found: Option<IntegerScan>, expected: Production) -> (r:
    Result<(&'a str, Result<i128, ParseError>), ParseError>)
    requires
        found matches Some(m) ==> m.len <= input@.len(),
    ensures
        integer_outcome(
            r,
            input@,
            match found {
                Some(m) => Some(m@),
                None => None,
            },
            expected,
        ),
{
    match found {
        Some(m) => {
            let total = input.unicode_len();
            Ok((input.substring_char(m.len, total), m.value))
        },
        None => Err(ParseError::Syntax { offset: 0, expected }),
    }
}

/// Reads a sign, if there is one: hands back what is behind it, and `+`,
/// `-` or nothing.
pub fn flag_if_exist<'a>(i: &'a str) -> (r: (&'a str, &'a str))
    ensures
        r.1@ == i@.take(sign_len(i@) as int),
        r.0@ == i@.skip(sign_len(i@) as int),
{
    let total = i.unicode_len();
    let n: usize = if total > 0 && (i.get_char(0) == '+' || i.get_char(0) == '-') {
        1
    } else {
        0
    };
    (i.substring_char(n, total), i.substring_char(0, n))
}

/// Reads an integer literal in any notation.  A prefixed notation wins over
/// the decimal one, so that the `0` of a marker is not read as a number.
pub fn integer_literal<'a>(i: &'a str) -> (r: Result<
    (&'a str, Result<i128, ParseError>),
    ParseError,
>)
    ensures
        integer_outcome(r, i@, any_integer_match(i@), Production::IntegerLiteral),
{
    let chars = to_chars(i);
    cut_integer(i, scan_any_integer(chars.as_slice()), Production::IntegerLiteral)
}

/// Reads a binary literal: `0b` or `0B`, then the digits `0` and `1`.
pub fn bin_literal<'a>(i: &'a str) -> (r: Result<(&'a str, Result<i128, ParseError>), ParseError>)
    ensures
        integer_outcome(r, i@, integer_match(i@, Radix::Bin), Production::BinLiteral),
{
    let chars = to_chars(i);
    cut_integer(i, scan_integer(chars.as_slice(), Radix::Bin), Production::BinLiteral)
}

/// Reads an octal literal: `0o` or `0O`, then digits from `0` to `7`.
pub fn oct_literal<'a>(i: &'a str) -> (r: Result<(&'a str, Result<i128, ParseError>), ParseError>)
    ensures
        integer_outcome(r, i@, integer_match(i@, Radix::Oct), Production::OctLiteral),
{
    let chars = to_chars(i);
    cut_integer(i, scan_integer(chars.as_slice(), Radix::Oct), Production::OctLiteral)
}

/// Reads a decimal literal.
pub fn dec_literal<'a>(i: &'a str) -> (r: Result<(&'a str, Result<i128, ParseError>), ParseError>)
    ensures
        integer_outcome(r, i@, integer_match(i@, Radix::Dec), Production::DecLiteral),
{
    let chars = to_chars(i);
    cut_integer(i, scan_integer(chars.as_slice(), Radix::Dec), Production::DecLiteral)
}

/// Reads a hexadecimal literal: `0x` or `0X`, then digits and the letters
/// from `a` to `f` in either case.
pub fn hex_literal<'a>(i: &'a str) -> (r: Result<(&'a str, Result<i128, ParseError>), ParseError>)
    ensures
        integer_outcome(r, i@, integer_match(i@, Radix::Hex), Production::HexLiteral),
{
    let chars = to_chars(i);
    cut_integer(i, scan_integer(chars.as_slice(), Radix::Hex), Production::HexLiteral)
}

/// The length of the boolean literal at the front of `s`: `true` or `false`.
pub open spec fn bool_literal_len(s: Seq<char>) -> Option<nat> {
    if starts_with(s, "true"@) {
        Some("true"@.len())
    } else if starts_with(s, "false"@) {
        Some("false"@.len())
    } else {
        None
    }
}

/// Measures `bool_literal_len`.
pub fn scan_bool(s: &[char]) -> (r: Option<usize>)
    ensures
        r matches Some(n) ==> bool_literal_len(s@) == Some(n as nat) && n <= s@.len(),
        r is None ==> bool_literal_len(s@) is None,
{
    if begins_with(s, "true") {
        Some("true".unicode_len())
    } else if begins_with(s, "false") {
        Some("false".unicode_len())
    } else {
        None
    }
}

/// Reads a boolean literal: `true` or `false`, and nothing else.
pub fn bool_literal<'a>(i: &'a str) -> (r: Result<(&'a str, &'a str), ParseError>)
    ensures
        token_outcome(r, i@, bool_literal_len(i@), Production::BoolLiteral),
{
    let chars = to_chars(i);
    cut_token(i, scan_bool(chars.as_slice()), Production::BoolLiteral)
}

/// The length of the mantissa at the front of `s`: digits, which a `.` and
/// further digits may follow, or a `.` and at least one digit.
pub open spec fn mantissa_len(s: Seq<char>) -> Option<nat> {
    let whole = run_len(s, CharClass::DecDigit);
    if whole > 0 {
        if s.len() > whole && s[whole as int] == '.' {
            Some(whole + 1 + run_len(s.skip((whole + 1) as int), CharClass::DecDigit))
        } else {
            Some(whole)
        }
    } else if s.len() > 0 && s[0] == '.' && run_len(s.skip(1), CharClass::DecDigit) > 0 {
        Some(1 + run_len(s.skip(1), CharClass::DecDigit))
    } else {
        None
    }
}

/// The length of the exponent at the front of `s`: `e` or `E`, a sign if
/// there is one, and at least one digit.  It is 0 where `s` does not begin
/// with `e` or `E`, and `None` where the digits are missing behind it.
pub open spec fn exponent_len(s: Seq<char>) -> Option<nat> {
    if s.len() > 0 && (s[0] == 'e' || s[0] == 'E') {
        let head = 1 + sign_len(s.skip(1));
        let digits = run_len(s.skip(head as int), CharClass::DecDigit);
        if digits > 0 {
            Some(head + digits)
        } else {
            None
        }
    } else {
        Some(0)
    }
}

/// What stands at the front of an input where a floating-point literal is
/// looked for.
pub enum FloatMatch {
    /// A literal of this many characters.
    Literal(nat),
    /// No literal.
    Nothing,
    /// A sign and a mantissa, then `e` or `E` without the digits of an
    /// exponent.
    BrokenExponent,
}

/// The floating-point literal at the front of `s`: a sign if there is one, a
/// mantissa, and an exponent if `e` or `E` follows.
pub open spec fn float_match(s: Seq<char>) -> FloatMatch {
    let sign = sign_len(s);
    match mantissa_len(s.skip(sign as int)) {
        None => FloatMatch::Nothing,
        Some(mantissa) => match exponent_len(s.skip((sign + mantissa) as int)) {
            None => FloatMatch::BrokenExponent,
            Some(exponent) => FloatMatch::Literal(sign + mantissa + exponent),
        },
    }
}

/// A floating-point literal lies inside its input.
pub proof fn lemma_float_bound(s: Seq<char>)
    ensures
        float_match(s) matches FloatMatch::Literal(n) ==> 0 < n <= s.len(),
{
    let sign = sign_len(s) as int;
    let behind = s.skip(sign);
    lemma_run_len_bounds(behind, CharClass::DecDigit);
    let whole = run_len(behind, CharClass::DecDigit) as int;
    lemma_run_len_bounds(behind.skip(whole + 1), CharClass::DecDigit);
    lemma_run_len_bounds(behind.skip(1), CharClass::DecDigit);
    if let Some(mantissa) = mantissa_len(behind) {
        let rest = s.skip(sign + mantissa);
        let head = 1 + sign_len(rest.skip(1)) as int;
        lemma_run_len_bounds(rest.skip(head), CharClass::DecDigit);
    }
}

/// A mantissa is read alike in its input and in a prefix that holds it.
proof fn lemma_mantissa_alone(s: Seq<char>, k: int)
    requires
        mantissa_len(s) is Some,
        mantissa_len(s)->Some_0 <= k <= s.len(),
    ensures
        mantissa_len(s.take(k)) == mantissa_len(s),
{
    let t = s.take(k);
    let whole = run_len(s, CharClass::DecDigit) as int;
    lemma_run_len_bounds(s, CharClass::DecDigit);
    lemma_run_len_take(s, CharClass::DecDigit, k);
    if whole > 0 {
        if s.len() > whole && s[whole] == '.' {
            let behind = s.skip(whole + 1);
            lemma_run_len_bounds(behind, CharClass::DecDigit);
            assert(t[whole] == s[whole]);
            assert(t.skip(whole + 1) =~= behind.take(k - whole - 1));
            lemma_run_len_take(behind, CharClass::DecDigit, k - whole - 1);
        } else if t.len() > whole {
            assert(t[whole] == s[whole]);
        }
    } else {
        let behind = s.skip(1);
        lemma_run_len_bounds(behind, CharClass::DecDigit);
        assert(t[0] == s[0]);
        assert(t.skip(1) =~= behind.take(k - 1));
        lemma_run_len_take(behind, CharClass::DecDigit, k - 1);
    }
}

/// An exponent is read alike in its input and alone.
proof fn lemma_exponent_alone(s: Seq<char>)
    requires
        exponent_len(s) is Some,
    ensures
        exponent_len(s)->Some_0 <= s.len(),
        exponent_len(s.take(exponent_len(s)->Some_0 as int)) == exponent_len(s),
{
    let e = exponent_len(s)->Some_0 as int;
    if e > 0 {
        let head = 1 + sign_len(s.skip(1)) as int;
        let digits = s.skip(head);
        lemma_run_len_bounds(digits, CharClass::DecDigit);
        let t = s.take(e);
        assert(t[0] == s[0]);
        assert(t.skip(1) =~= s.skip(1).take(e - 1));
        assert(t.skip(1)[0] == s.skip(1)[0]);
        assert(sign_len(t.skip(1)) == sign_len(s.skip(1)));
        assert(t.skip(head) =~= digits.take(e - head));
        lemma_run_len_take(digits, CharClass::DecDigit, e - head);
    } else {
        assert(s.take(0).len() == 0);
    }
}

/// A floating-point literal is read alike in its input and alone.
pub proof fn lemma_float_alone(s: Seq<char>)
    ensures
        float_match(s) matches FloatMatch::Literal(n) ==> 0 < n <= s.len() && float_match(
            s.take(n as int),
        ) == FloatMatch::Literal(n),
{
    lemma_float_bound(s);
    if let FloatMatch::Literal(len) = float_match(s) {
        let n = len as int;
        let t = s.take(n);
        let sign = sign_len(s) as int;
        let behind = s.skip(sign);
        let mantissa = mantissa_len(behind)->Some_0 as int;
        let rest = s.skip(sign + mantissa);
        let exponent = exponent_len(rest)->Some_0 as int;
        assert(t[0] == s[0]);
        assert(sign_len(t) == sign);
        assert(t.skip(sign) =~= behind.take(n - sign));
        lemma_mantissa_alone(behind, n - sign);
        assert(t.skip(sign + mantissa) =~= rest.take(exponent));
        lemma_exponent_alone(rest);
    }
}

/// What `recognize_float` found.
pub enum FloatScan<'a> {
    /// A literal, `text`, and what is behind it.
    Literal { rest: &'a str, text: &'a str },
    /// No literal.
    Nothing,
    /// The beginning of a literal whose exponent has no digits.
    BrokenExponent,
}

/// Calls `nom::number::complete::recognize_float`, which is written as the
/// sequence of an optional sign, either digits with an optional `.` and
/// optional digits or a `.` with digits, and optionally `e` or `E`, an
/// optional sign and digits that are then required.  Trusted: that nom
/// returns the longest such prefix of `i` together with the rest of `i`, an
/// error where the mantissa is missing, and a failure where the digits of
/// the exponent are.
#[verifier::external_body]
pub(crate) fn recognize_float<'a>(i: &'a str) -> (r: FloatScan<'a>)
    ensures
        (match r {
            FloatScan::Literal { rest, text } => {
                &&& float_match(i@) == FloatMatch::Literal(text@.len())
                &&& text@.len() <= i@.len()
                &&& text@ == i@.take(text@.len() as int)
                &&& rest@ == i@.skip(text@.len() as int)
            },
            FloatScan::Nothing => float_match(i@) == FloatMatch::Nothing,
            FloatScan::BrokenExponent => float_match(i@) == FloatMatch::BrokenExponent,
        }),
{
    match nom::number::complete::recognize_float::<&str, nom::error::Error<&str>>(i) {
        Ok((rest, text)) => FloatScan::Literal { rest, text },
        Err(nom::Err::Error(_)) => FloatScan::Nothing,
        Err(nom::Err::Failure(_)) => FloatScan::BrokenExponent,
        Err(nom::Err::Incomplete(_)) => FloatScan::BrokenExponent,
    }
}

/// Looks for a floating-point literal `at` characters into `i`.
pub fn float_literal_at<'a>(i: &'a str, at: usize) -> (r: FloatScan<'a>)
    requires
        at <= i@.len(),
    ensures
        (match r {
            FloatScan::Literal { rest, text } => {
                &&& float_match(i@.skip(at as int)) == FloatMatch::Literal(text@.len())
                &&& at + text@.len() <= i@.len()
                &&& text@ == i@.subrange(at as int, at + text@.len())
                &&& rest@ == i@.skip(at + text@.len())
            },
            FloatScan::Nothing => float_match(i@.skip(at as int)) == FloatMatch::Nothing,
            FloatScan::BrokenExponent => float_match(i@.skip(at as int))
                == FloatMatch::BrokenExponent,
        }),
{
    let total = i.unicode_len();
    let value = i.substring_char(at, total);
    assert(value@ =~= i@.skip(at as int));
    let r = recognize_float(value);
    proof {
        if let FloatScan::Literal { rest, text } = r {
            assert(rest@ =~= i@.skip(at + text@.len()));
            assert(text@ =~= i@.subrange(at as int, at + text@.len()));
        }
    }
    r
}

/// What `float_literal` hands back for each thing that can stand at the
/// front of `input`.
pub open spec fn float_outcome(r: Result<(&str, &str), ParseError>, input: Seq<char>) -> bool {
    match float_match(input) {
        FloatMatch::Literal(n) => token_outcome(r, input, Some(n), Production::FloatLiteral),
        FloatMatch::Nothing => token_outcome(r, input, None, Production::FloatLiteral),
        FloatMatch::BrokenExponent => token_outcome(r, input, None, Production::FloatExponent),
    }
}

/// Reads a floating-point literal and hands it back as text: `1`, `-1.5`,
/// `.5`, `2.`, `1e10`, `1.5E-3`.  An exponent that is begun is owed its
/// digits: `1e` is a failure, not the literal `1`.
pub fn float_literal<'a>(i: &'a str) -> (r: Result<(&'a str, &'a str), ParseError>)
    ensures
        float_outcome(r, i@),
{
    match recognize_float(i) {
        FloatScan::Literal { rest, text } => Ok((rest, text)),
        FloatScan::Nothing => Err(
            ParseError::Syntax { offset: 0, expected: Production::FloatLiteral },
        ),
        FloatScan::BrokenExponent => Err(
            ParseError::Syntax { offset: 0, expected: Production::FloatExponent },
        ),
    }
}

/// Whether `text` is, from end to end, a literal of a value that `kind`
/// can hold: an integer literal inside the range of an integer kind, a
/// floating-point literal for a floating-point kind, `true` or `false` for
/// the boolean kind.
#[verifier::opaque]
pub open spec fn is_value_of(kind: BasicType, text: Seq<char>) -> bool {
    match kind {
        BasicType::F32 | BasicType::F64 => float_match(text) == FloatMatch::Literal(text.len()),
        BasicType::Bool => text == "true"@ || text == "false"@,
        _ => {
            &&& any_integer_match(text) matches Some(m)
            &&& m.len == text.len()
            &&& m.value matches Ok(v)
            &&& kind.admits(v as int)
        },
    }
}

/// A boolean literal is `true` or `false`.
pub proof fn lemma_bool_alone(s: Seq<char>)
    ensures
        bool_literal_len(s) matches Some(n) ==> 0 < n <= s.len() && is_value_of(
            BasicType::Bool,
            s.take(n as int),
        ),
{
    reveal(is_value_of);
    reveal_strlit("true");
    reveal_strlit("false");
}

} // verus!
