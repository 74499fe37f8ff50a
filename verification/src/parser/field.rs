//! Field declarations of a scalar kind: the kind's keyword, blanks, the name
//! of the field and, behind further blanks, a default value if there is one.

use crate::error::{ParseError, Production};
use crate::message::{Field, FieldView};
use crate::parser::declaration::{
    bool_kinds,
    checked_as,
    declaration_head,
    float_kinds,
    integer_kind_list,
    integer_kinds,
    keyword_among,
    lemma_declaration_head,
    lemma_front_counts_bytes,
    lemma_head_counts_bytes,
    lemma_keyword_among,
    lemma_keyword_is_ascii,
    lemma_syntax_counts_bytes,
    parsed_as,
    scan_head,
    scan_keyword,
    syntax,
    NameKind,
};
use crate::parser::literal::{
    any_integer_match,
    bool_literal_len,
    float_match,
    float_literal_at,
    scan_any_integer,
    scan_bool,
    FloatMatch,
    FloatScan,
};
use crate::text::{run_len, scan_run, skip, to_chars, CharClass};
use crate::types::{BasicType, MemberType, MemberTypeView, NestableTypeView};
use vstd::prelude::*;
use vstd::string::*;

verus! {

/// A field of scalar kind `kind`.
pub open spec fn scalar_field(name: Seq<char>, kind: BasicType, default: Option<Seq<char>>)
    -> FieldView {
    FieldView { name, ty: MemberTypeView::Nestable(NestableTypeView::BasicType(kind)), default }
}

/// What an integer literal of `text` gives as the default of a field of
/// kind `kind`: the text, where the literal has a value that the kind
/// admits.
pub open spec fn checked_text(kind: BasicType, value: Result<i128, ParseError>, text: Seq<char>)
    -> Result<Seq<char>, ParseError> {
    match value {
        Err(e) => Err(e),
        Ok(v) => if kind.admits(v as int) {
            Ok(text)
        } else {
            Err(ParseError::Range { value: v, target: kind })
        },
    }
}

/// An integer field declaration at the front of `s`: how much of `s` it
/// takes, and the field or the reason why its default is refused.  The
/// default is there where blanks and an integer literal follow the name;
/// where they do not, the declaration ends behind the name.
pub open spec fn integer_field(s: Seq<char>) -> Result<
    (nat, Result<FieldView, ParseError>),
    ParseError,
> {
    match keyword_among(s, integer_kinds()) {
        None => Err(syntax(0, Production::IntegerType)),
        Some(kind) => match declaration_head(s, kind.keyword().len(), NameKind::Field) {
            Err(e) => Err(e),
            Ok(head) => {
                let name = s.subrange(head.start as int, head.end() as int);
                let blanks = run_len(s.skip(head.end() as int), CharClass::Blank);
                let at = head.end() + blanks;
                match any_integer_match(s.skip(at as int)) {
                    Some(m) if blanks > 0 => Ok(
                        (
                            at + m.len,
                            match checked_text(
                                kind,
                                m.value,
                                s.subrange(at as int, (at + m.len) as int),
                            ) {
                                Ok(text) => Ok(scalar_field(name, kind, Some(text))),
                                Err(e) => Err(e),
                            },
                        ),
                    ),
                    _ => Ok((head.end(), Ok(scalar_field(name, kind, None)))),
                }
            },
        },
    }
}

/// A floating-point field declaration at the front of `s`.  Where blanks
/// and the beginning of a literal with a broken exponent follow the name,
/// the declaration fails.
pub open spec fn float_field(s: Seq<char>) -> Result<(nat, FieldView), ParseError> {
    match keyword_among(s, float_kinds()) {
        None => Err(syntax(0, Production::FloatType)),
        Some(kind) => match declaration_head(s, kind.keyword().len(), NameKind::Field) {
            Err(e) => Err(e),
            Ok(head) => {
                let name = s.subrange(head.start as int, head.end() as int);
                let blanks = run_len(s.skip(head.end() as int), CharClass::Blank);
                let at = head.end() + blanks;
                if blanks == 0 {
                    Ok((head.end(), scalar_field(name, kind, None)))
                } else {
                    match float_match(s.skip(at as int)) {
                        FloatMatch::Literal(n) => Ok(
                            (
                                at + n,
                                scalar_field(
                                    name,
                                    kind,
                                    Some(s.subrange(at as int, (at + n) as int)),
                                ),
                            ),
                        ),
                        FloatMatch::Nothing => Ok((head.end(), scalar_field(name, kind, None))),
                        FloatMatch::BrokenExponent => Err(syntax(at, Production::FloatExponent)),
                    }
                }
            },
        },
    }
}

/// A boolean field declaration at the front of `s`.
pub open spec fn bool_field(s: Seq<char>) -> Result<(nat, FieldView), ParseError> {
    match keyword_among(s, bool_kinds()) {
        None => Err(syntax(0, Production::BoolType)),
        Some(kind) => match declaration_head(s, kind.keyword().len(), NameKind::Field) {
            Err(e) => Err(e),
            Ok(head) => {
                let name = s.subrange(head.start as int, head.end() as int);
                let blanks = run_len(s.skip(head.end() as int), CharClass::Blank);
                let at = head.end() + blanks;
                match bool_literal_len(s.skip(at as int)) {
                    Some(n) if blanks > 0 => Ok(
                        (
                            at + n,
                            scalar_field(name, kind, Some(s.subrange(at as int, (at + n) as int))),
                        ),
                    ),
                    _ => Ok((head.end(), scalar_field(name, kind, None))),
                }
            },
        },
    }
}

/// The text of an integer literal that is read at `at` and held against
/// `kind` is a value of `kind`.
pub proof fn lemma_checked_text(s: Seq<char>, at: nat, kind: BasicType)
    requires
        at <= s.len(),
        kind.is_integer(),
    ensures
        (any_integer_match(s.skip(at as int)) matches Some(m) ==> {
            &&& at + m.len <= s.len()
            &&& checked_text(kind, m.value, s.subrange(at as int, (at + m.len) as int)) matches Ok(
                text,
            ) ==> crate::parser::literal::is_value_of(kind, text)
        }),
{
    reveal(crate::parser::literal::is_value_of);
    let value = s.skip(at as int);
    crate::parser::literal::lemma_any_integer_alone(value);
    if let Some(m) = any_integer_match(value) {
        assert(s.subrange(at as int, (at + m.len) as int) =~= value.take(m.len as int));
    }
}

/// The text of a floating-point literal that is read at `at` is a value of
/// a floating-point kind.
pub proof fn lemma_float_text(s: Seq<char>, at: nat, kind: BasicType)
    requires
        at <= s.len(),
        kind is F32 || kind is F64,
    ensures
        (float_match(s.skip(at as int)) matches FloatMatch::Literal(n) ==> {
            &&& at + n <= s.len()
            &&& crate::parser::literal::is_value_of(kind, s.subrange(at as int, (at + n) as int))
        }),
{
    reveal(crate::parser::literal::is_value_of);
    let value = s.skip(at as int);
    crate::parser::literal::lemma_float_alone(value);
    if let FloatMatch::Literal(n) = float_match(value) {
        assert(s.subrange(at as int, (at + n) as int) =~= value.take(n as int));
    }
}

/// The text of a boolean literal that is read at `at` is a value of the
/// boolean kind.
pub proof fn lemma_bool_text(s: Seq<char>, at: nat)
    requires
        at <= s.len(),
    ensures
        (bool_literal_len(s.skip(at as int)) matches Some(n) ==> {
            &&& at + n <= s.len()
            &&& crate::parser::literal::is_value_of(
                BasicType::Bool,
                s.subrange(at as int, (at + n) as int),
            )
        }),
{
    let value = s.skip(at as int);
    crate::parser::literal::lemma_bool_alone(value);
    if let Some(n) = bool_literal_len(value) {
        assert(s.subrange(at as int, (at + n) as int) =~= value.take(n as int));
    }
}

/// Every integer field that is read lies inside its input and is well
/// formed.
pub proof fn lemma_integer_field_wf(s: Seq<char>)
    ensures
        integer_field(s) matches Ok((n, field)) ==> n <= s.len() && (field matches Ok(f)
            ==> f.wf()),
{
    lemma_keyword_among(s, integer_kinds());
    if let Some(kind) = keyword_among(s, integer_kinds()) {
        lemma_declaration_head(s, kind.keyword().len(), NameKind::Field);
        if let Ok(head) = declaration_head(s, kind.keyword().len(), NameKind::Field) {
            let behind = s.skip(head.end() as int);
            crate::text::lemma_run_len_bounds(behind, CharClass::Blank);
            let at = head.end() + run_len(behind, CharClass::Blank);
            lemma_checked_text(s, at, kind);
        }
    }
}

/// Every floating-point field that is read lies inside its input and is
/// well formed.
pub proof fn lemma_float_field_wf(s: Seq<char>)
    ensures
        float_field(s) matches Ok((n, f)) ==> n <= s.len() && f.wf(),
{
    lemma_keyword_among(s, float_kinds());
    if let Some(kind) = keyword_among(s, float_kinds()) {
        lemma_declaration_head(s, kind.keyword().len(), NameKind::Field);
        if let Ok(head) = declaration_head(s, kind.keyword().len(), NameKind::Field) {
            let behind = s.skip(head.end() as int);
            crate::text::lemma_run_len_bounds(behind, CharClass::Blank);
            let at = head.end() + run_len(behind, CharClass::Blank);
            lemma_float_text(s, at, kind);
        }
    }
}

/// Every boolean field that is read lies inside its input and is well
/// formed.
pub proof fn lemma_bool_field_wf(s: Seq<char>)
    ensures
        bool_field(s) matches Ok((n, f)) ==> n <= s.len() && f.wf(),
{
    lemma_keyword_among(s, bool_kinds());
    if let Some(kind) = keyword_among(s, bool_kinds()) {
        lemma_declaration_head(s, kind.keyword().len(), NameKind::Field);
        if let Ok(head) = declaration_head(s, kind.keyword().len(), NameKind::Field) {
            let behind = s.skip(head.end() as int);
            crate::text::lemma_run_len_bounds(behind, CharClass::Blank);
            let at = head.end() + run_len(behind, CharClass::Blank);
            lemma_bool_text(s, at);
        }
    }
}

/// An integer field declaration fails at an offset that counts bytes.
pub proof fn lemma_integer_field_counts_bytes(s: Seq<char>)
    requires
        s.len() <= usize::MAX,
    ensures
        integer_field(s) matches Err(e) ==> e.counts_bytes_of(s),
{
    lemma_front_counts_bytes(s, Production::IntegerType);
    lemma_keyword_is_ascii(s, integer_kinds());
    if let Some(kind) = keyword_among(s, integer_kinds()) {
        lemma_head_counts_bytes(s, kind.keyword().len(), NameKind::Field);
    }
}

/// A floating-point field declaration fails at an offset that counts
/// bytes.
pub proof fn lemma_float_field_counts_bytes(s: Seq<char>)
    requires
        s.len() <= usize::MAX,
    ensures
        float_field(s) matches Err(e) ==> e.counts_bytes_of(s),
{
    lemma_front_counts_bytes(s, Production::FloatType);
    lemma_keyword_is_ascii(s, float_kinds());
    if let Some(kind) = keyword_among(s, float_kinds()) {
        lemma_head_counts_bytes(s, kind.keyword().len(), NameKind::Field);
        if let Ok(head) = declaration_head(s, kind.keyword().len(), NameKind::Field) {
            crate::text::lemma_ascii_run(s, head.end(), CharClass::Blank);
            let at = head.end() + run_len(s.skip(head.end() as int), CharClass::Blank);
            lemma_syntax_counts_bytes(s, at, Production::FloatExponent);
        }
    }
}

/// A boolean field declaration fails at an offset that counts bytes.
pub proof fn lemma_bool_field_counts_bytes(s: Seq<char>)
    requires
        s.len() <= usize::MAX,
    ensures
        bool_field(s) matches Err(e) ==> e.counts_bytes_of(s),
{
    lemma_front_counts_bytes(s, Production::BoolType);
    lemma_keyword_is_ascii(s, bool_kinds());
    if let Some(kind) = keyword_among(s, bool_kinds()) {
        lemma_head_counts_bytes(s, kind.keyword().len(), NameKind::Field);
    }
}

/// Makes the field of a scalar kind.
fn make_field(name: &str, kind: BasicType, default: Option<&str>) -> (f: Field)
    ensures
        f@ == scalar_field(
            name@,
            kind,
            match default {
                Some(text) => Some(text@),
                None => None,
            },
        ),
{
    Field {
        name: name.to_owned(),
        ty: MemberType::BasicType(kind),
        default: match default {
            Some(text) => Some(text.to_owned()),
            None => None,
        },
    }
}

/// Reads an integer field declaration: one of `uint8`, `uint16`, `uint32`,
/// `uint64`, `int8`, `int16`, `int32`, `int64`, `char` and `byte`, blanks,
/// a field name and, behind blanks, an integer literal if there is one.
/// The literal is held against the range of the kind: where it does not
/// fit, the declaration is read all the same and the failure stands in
/// place of the field.
pub fn integer_field_def<'a>(i: &'a str) -> (r: Result<
    (&'a str, Result<Field, ParseError>),
    ParseError,
>)
    ensures
        checked_as(r, i@, integer_field(i@)),
        r matches Ok((_, Ok(field))) ==> field@.wf(),
        r matches Err(e) ==> e.counts_bytes_of(i@),
{
    let chars = to_chars(i);
    let s = chars.as_slice();
    let total = s.len();
    proof {
        lemma_integer_field_wf(i@);
        lemma_integer_field_counts_bytes(i@);
    }
    let kinds = integer_kind_list();
    let kind = match scan_keyword(s, kinds.as_slice()) {
        Some(kind) => kind,
        None => {
            return Err(ParseError::Syntax { offset: 0, expected: Production::IntegerType });
        },
    };
    let head = match scan_head(s, kind.keyword_str().unicode_len(), NameKind::Field) {
        Ok(head) => head,
        Err(e) => {
            return Err(e);
        },
    };
    let end = head.start + head.len;
    let name = i.substring_char(head.start, end);
    let blanks = scan_run(skip(s, end), CharClass::Blank);
    let at = end + blanks;
    match scan_any_integer(skip(s, at)) {
        Some(m) if blanks > 0 => {
            let text = i.substring_char(at, at + m.len);
            let rest = i.substring_char(at + m.len, total);
            let field = match m.value {
                Err(e) => Err(e),
                Ok(v) => match kind.check_integer_range(v) {
                    Err(e) => Err(e),
                    Ok(()) => Ok(make_field(name, kind, Some(text))),
                },
            };
            Ok((rest, field))
        },
        _ => Ok((i.substring_char(end, total), Ok(make_field(name, kind, None)))),
    }
}

/// Reads a floating-point field declaration: `float32` or `float64`,
/// blanks, a field name and, behind blanks, a floating-point literal if
/// there is one.
pub fn float_field_def<'a>(i: &'a str) -> (r: Result<(&'a str, Field), ParseError>)
    ensures
        parsed_as(r, i@, float_field(i@)),
        r matches Ok((_, field)) ==> field@.wf(),
        r matches Err(e) ==> e.counts_bytes_of(i@),
{
    let chars = to_chars(i);
    let s = chars.as_slice();
    let total = s.len();
    proof {
        lemma_float_field_wf(i@);
        lemma_float_field_counts_bytes(i@);
    }
    let kinds = [BasicType::F32, BasicType::F64];
    assert(kinds@ =~= float_kinds());
    let kind = match scan_keyword(s, kinds.as_slice()) {
        Some(kind) => kind,
        None => {
            return Err(ParseError::Syntax { offset: 0, expected: Production::FloatType });
        },
    };
    let head = match scan_head(s, kind.keyword_str().unicode_len(), NameKind::Field) {
        Ok(head) => head,
        Err(e) => {
            return Err(e);
        },
    };
    let end = head.start + head.len;
    let name = i.substring_char(head.start, end);
    let blanks = scan_run(skip(s, end), CharClass::Blank);
    let at = end + blanks;
    if blanks == 0 {
        return Ok((i.substring_char(end, total), make_field(name, kind, None)));
    }
    match float_literal_at(i, at) {
        FloatScan::Literal { rest, text } => {
            Ok((rest, make_field(name, kind, Some(text))))
        },
        FloatScan::Nothing => Ok((i.substring_char(end, total), make_field(name, kind, None))),
        FloatScan::BrokenExponent => Err(
            ParseError::Syntax { offset: at, expected: Production::FloatExponent },
        ),
    }
}

/// Reads a boolean field declaration: `bool`, blanks, a field name and,
/// behind blanks, `true` or `false` if one of them is there.
pub fn bool_field_def<'a>(i: &'a str) -> (r: Result<(&'a str, Field), ParseError>)
    ensures
        parsed_as(r, i@, bool_field(i@)),
        r matches Ok((_, field)) ==> field@.wf(),
        r matches Err(e) ==> e.counts_bytes_of(i@),
{
    let chars = to_chars(i);
    let s = chars.as_slice();
    let total = s.len();
    proof {
        lemma_bool_field_wf(i@);
        lemma_bool_field_counts_bytes(i@);
    }
    let kinds = [BasicType::Bool];
    assert(kinds@ =~= bool_kinds());
    let kind = match scan_keyword(s, kinds.as_slice()) {
        Some(kind) => kind,
        None => {
            return Err(ParseError::Syntax { offset: 0, expected: Production::BoolType });
        },
    };
    let head = match scan_head(s, kind.keyword_str().unicode_len(), NameKind::Field) {
        Ok(head) => head,
        Err(e) => {
            return Err(e);
        },
    };
    let end = head.start + head.len;
    let name = i.substring_char(head.start, end);
    let blanks = scan_run(skip(s, end), CharClass::Blank);
    let at = end + blanks;
    match scan_bool(skip(s, at)) {
        Some(n) if blanks > 0 => {
            let text = i.substring_char(at, at + n);
            let rest = i.substring_char(at + n, total);
            Ok((rest, make_field(name, kind, Some(text))))
        },
        _ => Ok((i.substring_char(end, total), make_field(name, kind, None))),
    }
}

} // verus!
