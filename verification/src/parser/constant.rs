//! Constant declarations of a scalar kind: the kind's keyword, blanks, the
//! name of the constant, `=` and the value, with blanks allowed on either
//! side of the `=`.

use crate::error::{ParseError, Production};
use crate::message::{Constant, ConstantView};
use crate::parser::declaration::{
    bool_kinds,
    checked_as,
    declaration_head,
    float_kinds,
    integer_kind_list,
    integer_kinds,
    keyword_among,
    lemma_declaration_head,
    lemma_front_counts_bytes,
    lemma_head_counts_bytes,
    lemma_keyword_among,
    lemma_keyword_is_ascii,
    lemma_syntax_counts_bytes,
    parsed_as,
    scan_head,
    scan_keyword,
    syntax,
    NameKind,
};
use crate::parser::field::{checked_text, lemma_bool_text, lemma_checked_text, lemma_float_text};
use crate::parser::literal::{
    any_integer_match,
    bool_literal_len,
    float_match,
    float_literal_at,
    scan_any_integer,
    scan_bool,
    FloatMatch,
    FloatScan,
};
use crate::text::{run_len, scan_run, skip, to_chars, CharClass};
use crate::types::{BasicType, ConstantType};
use vstd::prelude::*;
use vstd::string::*;

verus! {

/// A constant of scalar kind `kind`.
pub open spec fn scalar_constant(name: Seq<char>, kind: BasicType, value: Seq<char>)
    -> ConstantView {
    ConstantView { name, ty: ConstantType::BasicType(kind), value }
}

/// The offset at which the value of a constant begins, where its name ends
/// at `from`: behind blanks if there are any, `=` and again blanks if there
/// are any.
pub open spec fn assignment(s: Seq<char>, from: nat) -> Result<nat, ParseError> {
    let sign = from + run_len(s.skip(from as int), CharClass::Blank);
    if sign < s.len() && s[sign as int] == '=' {
        Ok(sign + 1 + run_len(s.skip((sign + 1) as int), CharClass::Blank))
    } else {
        Err(syntax(sign, Production::Equals))
    }
}

/// An integer constant declaration at the front of `s`: how much of `s` it
/// takes, and the constant or the reason why its value is refused.
pub open spec fn integer_constant(s: Seq<char>) -> Result<
    (nat, Result<ConstantView, ParseError>),
    ParseError,
> {
    match keyword_among(s, integer_kinds()) {
        None => Err(syntax(0, Production::IntegerType)),
        Some(kind) => match declaration_head(s, kind.keyword().len(), NameKind::Constant) {
            Err(e) => Err(e),
            Ok(head) => match assignment(s, head.end()) {
                Err(e) => Err(e),
                Ok(at) => match any_integer_match(s.skip(at as int)) {
                    None => Err(syntax(at, Production::IntegerLiteral)),
                    Some(m) => Ok(
                        (
                            at + m.len,
                            match checked_text(
                                kind,
                                m.value,
                                s.subrange(at as int, (at + m.len) as int),
                            ) {
                                Ok(text) => Ok(
                                    scalar_constant(
                                        s.subrange(head.start as int, head.end() as int),
                                        kind,
                                        text,
                                    ),
                                ),
                                Err(e) => Err(e),
                            },
                        ),
                    ),
                },
            },
        },
    }
}

/// A floating-point constant declaration at the front of `s`.
pub open spec fn float_constant(s: Seq<char>) -> Result<(nat, ConstantView), ParseError> {
    match keyword_among(s, float_kinds()) {
        None => Err(syntax(0, Production::FloatType)),
        Some(kind) => match declaration_head(s, kind.keyword().len(), NameKind::Constant) {
            Err(e) => Err(e),
            Ok(head) => match assignment(s, head.end()) {
                Err(e) => Err(e),
                Ok(at) => match float_match(s.skip(at as int)) {
                    FloatMatch::Literal(n) => Ok(
                        (
                            at + n,
                            scalar_constant(
                                s.subrange(head.start as int, head.end() as int),
                                kind,
                                s.subrange(at as int, (at + n) as int),
                            ),
                        ),
                    ),
                    FloatMatch::Nothing => Err(syntax(at, Production::FloatLiteral)),
                    FloatMatch::BrokenExponent => Err(syntax(at, Production::FloatExponent)),
                },
            },
        },
    }
}

/// A boolean constant declaration at the front of `s`.
pub open spec fn bool_constant(s: Seq<char>) -> Result<(nat, ConstantView), ParseError> {
    match keyword_among(s, bool_kinds()) {
        None => Err(syntax(0, Production::BoolType)),
        Some(kind) => match declaration_head(s, kind.keyword().len(), NameKind::Constant) {
            Err(e) => Err(e),
            Ok(head) => match assignment(s, head.end()) {
                Err(e) => Err(e),
                Ok(at) => match bool_literal_len(s.skip(at as int)) {
                    Some(n) => Ok(
                        (
                            at + n,
                            scalar_constant(
                                s.subrange(head.start as int, head.end() as int),
                                kind,
                                s.subrange(at as int, (at + n) as int),
                            ),
                        ),
                    ),
                    None => Err(syntax(at, Production::BoolLiteral)),
                },
            },
        },
    }
}

/// The value of a constant begins behind its name and inside the input.
pub proof fn lemma_assignment(s: Seq<char>, from: nat)
    requires
        from <= s.len(),
    ensures
        assignment(s, from) matches Ok(at) ==> from < at <= s.len(),
{
    crate::text::lemma_run_len_bounds(s.skip(from as int), CharClass::Blank);
    let sign = from + run_len(s.skip(from as int), CharClass::Blank);
    if sign < s.len() {
        crate::text::lemma_run_len_bounds(s.skip((sign + 1) as int), CharClass::Blank);
    }
}

/// Behind ASCII characters, the `=` of a constant is missed at an offset
/// that counts bytes, and leaves ASCII characters before the value where
/// it is found.
pub proof fn lemma_assignment_counts_bytes(s: Seq<char>, from: nat)
    requires
        s.len() <= usize::MAX,
        crate::text::ascii_before(s, from),
    ensures
        assignment(s, from) matches Err(e) ==> e.counts_bytes_of(s),
        assignment(s, from) matches Ok(at) ==> crate::text::ascii_before(s, at),
{
    crate::text::lemma_ascii_run(s, from, CharClass::Blank);
    let sign = from + run_len(s.skip(from as int), CharClass::Blank);
    lemma_syntax_counts_bytes(s, sign, Production::Equals);
    if sign < s.len() && s[sign as int] == '=' {
        crate::text::lemma_ascii_more(s, sign, sign + 1);
        crate::text::lemma_ascii_run(s, sign + 1, CharClass::Blank);
    }
}

/// An integer constant declaration fails at an offset that counts bytes.
pub proof fn lemma_integer_constant_counts_bytes(s: Seq<char>)
    requires
        s.len() <= usize::MAX,
    ensures
        integer_constant(s) matches Err(e) ==> e.counts_bytes_of(s),
{
    lemma_front_counts_bytes(s, Production::IntegerType);
    lemma_keyword_is_ascii(s, integer_kinds());
    if let Some(kind) = keyword_among(s, integer_kinds()) {
        lemma_head_counts_bytes(s, kind.keyword().len(), NameKind::Constant);
        if let Ok(head) = declaration_head(s, kind.keyword().len(), NameKind::Constant) {
            lemma_assignment_counts_bytes(s, head.end());
            if let Ok(at) = assignment(s, head.end()) {
                lemma_syntax_counts_bytes(s, at, Production::IntegerLiteral);
            }
        }
    }
}

/// A floating-point constant declaration fails at an offset that counts
/// bytes.
pub proof fn lemma_float_constant_counts_bytes(s: Seq<char>)
    requires
        s.len() <= usize::MAX,
    ensures
        float_constant(s) matches Err(e) ==> e.counts_bytes_of(s),
{
    lemma_front_counts_bytes(s, Production::FloatType);
    lemma_keyword_is_ascii(s, float_kinds());
    if let Some(kind) = keyword_among(s, float_kinds()) {
        lemma_head_counts_bytes(s, kind.keyword().len(), NameKind::Constant);
        if let Ok(head) = declaration_head(s, kind.keyword().len(), NameKind::Constant) {
            lemma_assignment_counts_bytes(s, head.end());
            if let Ok(at) = assignment(s, head.end()) {
                lemma_syntax_counts_bytes(s, at, Production::FloatLiteral);
                lemma_syntax_counts_bytes(s, at, Production::FloatExponent);
            }
        }
    }
}

/// A boolean constant declaration fails at an offset that counts bytes.
pub proof fn lemma_bool_constant_counts_bytes(s: Seq<char>)
    requires
        s.len() <= usize::MAX,
    ensures
        bool_constant(s) matches Err(e) ==> e.counts_bytes_of(s),
{
    lemma_front_counts_bytes(s, Production::BoolType);
    lemma_keyword_is_ascii(s, bool_kinds());
    if let Some(kind) = keyword_among(s, bool_kinds()) {
        lemma_head_counts_bytes(s, kind.keyword().len(), NameKind::Constant);
        if let Ok(head) = declaration_head(s, kind.keyword().len(), NameKind::Constant) {
            lemma_assignment_counts_bytes(s, head.end());
            if let Ok(at) = assignment(s, head.end()) {
                lemma_syntax_counts_bytes(s, at, Production::BoolLiteral);
            }
        }
    }
}

/// Every integer constant that is read is well formed.
pub proof fn lemma_integer_constant_wf(s: Seq<char>)
    ensures
        integer_constant(s) matches Ok((n, c)) ==> n <= s.len() && (c matches Ok(c) ==> c.wf()),
{
    lemma_keyword_among(s, integer_kinds());
    if let Some(kind) = keyword_among(s, integer_kinds()) {
        lemma_declaration_head(s, kind.keyword().len(), NameKind::Constant);
        if let Ok(head) = declaration_head(s, kind.keyword().len(), NameKind::Constant) {
            lemma_assignment(s, head.end());
            if let Ok(at) = assignment(s, head.end()) {
                lemma_checked_text(s, at, kind);
            }
        }
    }
}

/// Every floating-point constant that is read is well formed.
pub proof fn lemma_float_constant_wf(s: Seq<char>)
    ensures
        float_constant(s) matches Ok((n, c)) ==> n <= s.len() && c.wf(),
{
    lemma_keyword_among(s, float_kinds());
    if let Some(kind) = keyword_among(s, float_kinds()) {
        lemma_declaration_head(s, kind.keyword().len(), NameKind::Constant);
        if let Ok(head) = declaration_head(s, kind.keyword().len(), NameKind::Constant) {
            lemma_assignment(s, head.end());
            if let Ok(at) = assignment(s, head.end()) {
                lemma_float_text(s, at, kind);
            }
        }
    }
}

/// Every boolean constant that is read is well formed.
pub proof fn lemma_bool_constant_wf(s: Seq<char>)
    ensures
        bool_constant(s) matches Ok((n, c)) ==> n <= s.len() && c.wf(),
{
    lemma_keyword_among(s, bool_kinds());
    if let Some(kind) = keyword_among(s, bool_kinds()) {
        lemma_declaration_head(s, kind.keyword().len(), NameKind::Constant);
        if let Ok(head) = declaration_head(s, kind.keyword().len(), NameKind::Constant) {
            lemma_assignment(s, head.end());
            if let Ok(at) = assignment(s, head.end()) {
                lemma_bool_text(s, at);
            }
        }
    }
}

/// Finds where the value begins behind a name that ends at `from`.
fn scan_assignment(s: &[char], from: usize) -> (r: Result<usize, ParseError>)
    requires
        from <= s@.len(),
    ensures
        r matches Ok(at) ==> assignment(s@, from as nat) == Ok::<nat, ParseError>(at as nat) && at
            <= s@.len(),
        r matches Err(e) ==> assignment(s@, from as nat) == Err::<nat, ParseError>(e),
{
    let total = s.len();
    let sign = from + scan_run(skip(s, from), CharClass::Blank);
    if sign < total && s[sign] == '=' {
        Ok(sign + 1 + scan_run(skip(s, sign + 1), CharClass::Blank))
    } else {
        Err(ParseError::Syntax { offset: sign, expected: Production::Equals })
    }
}

/// Makes the constant of a scalar kind.
fn make_constant(name: &str, kind: BasicType, value: &str) -> (c: Constant)
    ensures
        c@ == scalar_constant(name@, kind, value@),
{
    Constant { name: name.to_owned(), ty: ConstantType::BasicType(kind), value: value.to_owned() }
}

/// Reads an integer constant declaration: one of `uint8`, `uint16`,
/// `uint32`, `uint64`, `int8`, `int16`, `int32`, `int64`, `char` and
/// `byte`, blanks, a constant name, `=` and an integer literal.  The
/// literal is held against the range of the kind: where it does not fit,
/// the declaration is read all the same and the failure stands in place of
/// the constant.
pub fn integer_const_def<'a>(i: &'a str) -> (r: Result<
    (&'a str, Result<Constant, ParseError>),
    ParseError,
>)
    ensures
        checked_as(r, i@, integer_constant(i@)),
        r matches Ok((_, Ok(constant))) ==> constant@.wf(),
        r matches Err(e) ==> e.counts_bytes_of(i@),
{
    let chars = to_chars(i);
    let s = chars.as_slice();
    let total = s.len();
    proof {
        lemma_integer_constant_wf(i@);
        lemma_integer_constant_counts_bytes(i@);
    }
    let kinds = integer_kind_list();
    let kind = match scan_keyword(s, kinds.as_slice()) {
        Some(kind) => kind,
        None => {
            return Err(ParseError::Syntax { offset: 0, expected: Production::IntegerType });
        },
    };
    let head = match scan_head(s, kind.keyword_str().unicode_len(), NameKind::Constant) {
        Ok(head) => head,
        Err(e) => {
            return Err(e);
        },
    };
    let end = head.start + head.len;
    let at = match scan_assignment(s, end) {
        Ok(at) => at,
        Err(e) => {
            return Err(e);
        },
    };
    match scan_any_integer(skip(s, at)) {
        None => Err(ParseError::Syntax { offset: at, expected: Production::IntegerLiteral }),
        Some(m) => {
            let name = i.substring_char(head.start, end);
            let text = i.substring_char(at, at + m.len);
            let rest = i.substring_char(at + m.len, total);
            let constant = match m.value {
                Err(e) => Err(e),
                Ok(v) => match kind.check_integer_range(v) {
                    Err(e) => Err(e),
                    Ok(()) => Ok(make_constant(name, kind, text)),
                },
            };
            Ok((rest, constant))
        },
    }
}

/// Reads a floating-point constant declaration: `float32` or `float64`,
/// blanks, a constant name, `=` and a floating-point literal.
pub fn float_const_def<'a>(i: &'a str) -> (r: Result<(&'a str, Constant), ParseError>)
    ensures
        parsed_as(r, i@, float_constant(i@)),
        r matches Ok((_, constant)) ==> constant@.wf(),
        r matches Err(e) ==> e.counts_bytes_of(i@),
{
    let chars = to_chars(i);
    let s = chars.as_slice();
    let total = s.len();
    proof {
        lemma_float_constant_wf(i@);
        lemma_float_constant_counts_bytes(i@);
    }
    let kinds = [BasicType::F32, BasicType::F64];
    assert(kinds@ =~= float_kinds());
    let kind = match scan_keyword(s, kinds.as_slice()) {
        Some(kind) => kind,
        None => {
            return Err(ParseError::Syntax { offset: 0, expected: Production::FloatType });
        },
    };
    let head = match scan_head(s, kind.keyword_str().unicode_len(), NameKind::Constant) {
        Ok(head) => head,
        Err(e) => {
            return Err(e);
        },
    };
    let end = head.start + head.len;
    let at = match scan_assignment(s, end) {
        Ok(at) => at,
        Err(e) => {
            return Err(e);
        },
    };
    match float_literal_at(i, at) {
        FloatScan::Literal { rest, text } => {
            Ok((rest, make_constant(i.substring_char(head.start, end), kind, text)))
        },
        FloatScan::Nothing => Err(
            ParseError::Syntax { offset: at, expected: Production::FloatLiteral },
        ),
        FloatScan::BrokenExponent => Err(
            ParseError::Syntax { offset: at, expected: Production::FloatExponent },
        ),
    }
}

/// Reads a boolean constant declaration: `bool`, blanks, a constant name,
/// `=` and `true` or `false`.
pub fn bool_const_def<'a>(i: &'a str) -> (r: Result<(&'a str, Constant), ParseError>)
    ensures
        parsed_as(r, i@, bool_constant(i@)),
        r matches Ok((_, constant)) ==> constant@.wf(),
        r matches Err(e) ==> e.counts_bytes_of(i@),
{
    let chars = to_chars(i);
    let s = chars.as_slice();
    let total = s.len();
    proof {
        lemma_bool_constant_wf(i@);
        lemma_bool_constant_counts_bytes(i@);
    }
    let kinds = [BasicType::Bool];
    assert(kinds@ =~= bool_kinds());
    let kind = match scan_keyword(s, kinds.as_slice()) {
        Some(kind) => kind,
        None => {
            return Err(ParseError::Syntax { offset: 0, expected: Production::BoolType });
        },
    };
    let head = match scan_head(s, kind.keyword_str().unicode_len(), NameKind::Constant) {
        Ok(head) => head,
        Err(e) => {
            return Err(e);
        },
    };
    let end = head.start + head.len;
    let at = match scan_assignment(s, end) {
        Ok(at) => at,
        Err(e) => {
            return Err(e);
        },
    };
    match scan_bool(skip(s, at)) {
        Some(n) => {
            let name = i.substring_char(head.start, end);
            let text = i.substring_char(at, at + n);
            Ok((i.substring_char(at + n, total), make_constant(name, kind, text)))
        },
        None => Err(ParseError::Syntax { offset: at, expected: Production::BoolLiteral }),
    }
}

} // verus!
