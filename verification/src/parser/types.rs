//! Type declarations: a base type, which is a scalar kind, a string with or
//! without a bound or the name of a message, and behind it `[]`, `[N]` or
//! `[<=N]` for a sequence, an array or a bounded sequence of the base type.

use crate::error::{ParseError, Production};
use crate::parser::declaration::{
    declaration_head,
    keyword_among,
    lemma_declaration_head,
    lemma_front_counts_bytes,
    lemma_head_counts_bytes,
    lemma_keyword_among,
    lemma_keyword_is_ascii,
    lemma_syntax_counts_bytes,
    parsed_as,
    scan_head,
    scan_keyword,
    syntax,
    NameKind,
};
use crate::parser::identifier::{lemma_message_name, message_name_len, scan_message_name};
use crate::parser::literal::{convert_digits, digits_value};
use crate::message::{Field, FieldView};
use crate::text::{
    ascii_before,
    begins_with,
    lemma_ascii_more,
    lemma_ascii_run,
    lemma_ascii_word,
    lemma_run_len_bounds,
    run_len,
    scan_run,
    skip,
    starts_with,
    to_chars,
    CharClass,
};
use crate::types::{
    Array,
    BasicType,
    BoundedSequence,
    GenericString,
    MemberType,
    MemberTypeView,
    NamedType,
    NestableType,
    NestableTypeView,
    Sequence,
};
use vstd::prelude::*;
use vstd::slice::slice_subrange;
use vstd::string::*;

verus! {

/// The scalar kinds, in the order in which their keywords are tried.
pub open spec fn scalar_kinds() -> Seq<BasicType> {
    seq![
        BasicType::U8,
        BasicType::U16,
        BasicType::U32,
        BasicType::U64,
        BasicType::I8,
        BasicType::I16,
        BasicType::I32,
        BasicType::I64,
        BasicType::F32,
        BasicType::F64,
        BasicType::Bool,
        BasicType::Char,
        BasicType::Byte,
    ]
}

/// A size or a bound at the front of an input.
pub struct SizeMatch {
    /// The number of digits.
    pub len: nat,
    /// What they say.
    pub value: usize,
}

/// The size at the front of `s`: decimal digits that say a positive number
/// which a `usize` holds.
pub open spec fn size_match(s: Seq<char>) -> Option<SizeMatch> {
    let len = run_len(s, CharClass::DecDigit);
    let value = digits_value(s.take(len as int), 10);
    if len > 0 && 0 < value <= usize::MAX {
        Some(SizeMatch { len, value: value as usize })
    } else {
        None
    }
}

/// The string type behind a keyword of `keyword` characters: bounded where
/// `<=` follows the keyword, which then owes a size.
pub open spec fn string_type_match(s: Seq<char>, keyword: nat, wide: bool) -> Result<
    (nat, NestableTypeView),
    ParseError,
> {
    if starts_with(s.skip(keyword as int), "<="@) {
        match size_match(s.skip((keyword + 2) as int)) {
            None => Err(syntax(keyword + 2, Production::Size)),
            Some(m) => Ok(
                (
                    keyword + 2 + m.len,
                    NestableTypeView::GenericString(
                        if wide {
                            GenericString::BoundedWString(m.value)
                        } else {
                            GenericString::BoundedString(m.value)
                        },
                    ),
                ),
            ),
        }
    } else {
        Ok(
            (
                keyword,
                NestableTypeView::GenericString(
                    if wide {
                        GenericString::WString
                    } else {
                        GenericString::String
                    },
                ),
            ),
        )
    }
}

/// The base type at the front of `s`: the keyword of a scalar kind,
/// `wstring` or `string` with a bound if `<=` follows, or else the name of
/// a message.
pub open spec fn nestable_type_match(s: Seq<char>) -> Result<(nat, NestableTypeView), ParseError> {
    match keyword_among(s, scalar_kinds()) {
        Some(kind) => Ok((kind.keyword().len(), NestableTypeView::BasicType(kind))),
        None => if starts_with(s, "wstring"@) {
            string_type_match(s, "wstring"@.len(), true)
        } else if starts_with(s, "string"@) {
            string_type_match(s, "string"@.len(), false)
        } else {
            match message_name_len(s) {
                Some(n) => Ok((n, NestableTypeView::NamedType(s.take(n as int)))),
                None => Err(syntax(0, Production::TypeName)),
            }
        },
    }
}

/// The collection of `base` that the brackets opened at `open` declare:
/// `[]` a sequence, `[<=N]` a bounded sequence, `[N]` an array.
pub open spec fn collection_match(s: Seq<char>, open: nat, base: NestableTypeView) -> Result<
    (nat, MemberTypeView),
    ParseError,
> {
    let inside = open + 1;
    if inside < s.len() && s[inside as int] == ']' {
        Ok((inside + 1, MemberTypeView::Sequence { value_type: base }))
    } else {
        let bounded = starts_with(s.skip(inside as int), "<="@);
        let at = if bounded {
            inside + 2
        } else {
            inside
        };
        match size_match(s.skip(at as int)) {
            None => Err(syntax(at, Production::Size)),
            Some(m) => {
                let close = at + m.len;
                if close < s.len() && s[close as int] == ']' {
                    Ok(
                        (
                            close + 1,
                            if bounded {
                                MemberTypeView::BoundedSequence {
                                    value_type: base,
                                    max_size: m.value,
                                }
                            } else {
                                MemberTypeView::Array { value_type: base, size: m.value }
                            },
                        ),
                    )
                } else {
                    Err(syntax(close, Production::CloseBracket))
                }
            },
        }
    }
}

/// The type at the front of `s`: a base type, and the collection of it
/// where `[` follows.
pub open spec fn member_type_match(s: Seq<char>) -> Result<(nat, MemberTypeView), ParseError> {
    match nestable_type_match(s) {
        Err(e) => Err(e),
        Ok((n, base)) => if n < s.len() && s[n as int] == '[' {
            collection_match(s, n, base)
        } else {
            Ok((n, MemberTypeView::Nestable(base)))
        },
    }
}

/// A field declaration of any type at the front of `s`: the type, blanks
/// and the name of the field.  It holds no default.
pub open spec fn member_field(s: Seq<char>) -> Result<(nat, FieldView), ParseError> {
    match member_type_match(s) {
        Err(e) => Err(e),
        Ok((n, ty)) => match declaration_head(s, n, NameKind::Field) {
            Err(e) => Err(e),
            Ok(head) => Ok(
                (
                    head.end(),
                    FieldView {
                        name: s.subrange(head.start as int, head.end() as int),
                        ty,
                        default: None,
                    },
                ),
            ),
        },
    }
}

/// A size lies inside its input.
pub proof fn lemma_size_match(s: Seq<char>)
    ensures
        size_match(s) matches Some(m) ==> 0 < m.len <= s.len() && m.value > 0,
{
    lemma_run_len_bounds(s, CharClass::DecDigit);
}

/// Every type that the grammar reads lies inside its input and is well
/// formed: a name in it is the name of a message, and sizes and bounds are
/// positive.
pub proof fn lemma_member_type_wf(s: Seq<char>)
    ensures
        nestable_type_match(s) matches Ok((n, ty)) ==> n <= s.len() && ty.wf(),
        member_type_match(s) matches Ok((n, ty)) ==> n <= s.len() && ty.wf(),
{
    reveal_strlit("<=");
    reveal_strlit("wstring");
    reveal_strlit("string");
    lemma_message_name(s);
    lemma_keyword_among(s, scalar_kinds());
    lemma_size_match(s.skip(("wstring"@.len() + 2) as int));
    lemma_size_match(s.skip(("string"@.len() + 2) as int));
    if let Ok((n, base)) = nestable_type_match(s) {
        lemma_size_match(s.skip((n + 1) as int));
        lemma_size_match(s.skip((n + 3) as int));
    }
}

/// Behind ASCII characters, a string type fails at an offset that counts
/// bytes, and leaves ASCII characters before its end where it does not
/// fail.
proof fn lemma_string_type_counts_bytes(s: Seq<char>, keyword: nat, wide: bool)
    requires
        s.len() <= usize::MAX,
        ascii_before(s, keyword),
    ensures
        string_type_match(s, keyword, wide) matches Err(e) ==> e.counts_bytes_of(s),
        string_type_match(s, keyword, wide) matches Ok((n, _)) ==> ascii_before(s, n),
{
    reveal_strlit("<=");
    let behind = s.skip(keyword as int);
    if starts_with(behind, "<="@) {
        assert(behind.take(2)[0] == behind[0] && behind.take(2)[1] == behind[1]);
        assert(s[keyword as int] == behind[0] && s[(keyword + 1) as int] == behind[1]);
        lemma_ascii_more(s, keyword, keyword + 2);
        lemma_syntax_counts_bytes(s, keyword + 2, Production::Size);
        lemma_ascii_run(s, keyword + 2, CharClass::DecDigit);
    }
}

/// A base type fails at an offset that counts bytes, and leaves ASCII
/// characters before its end where it does not fail.
pub proof fn lemma_nestable_type_counts_bytes(s: Seq<char>)
    requires
        s.len() <= usize::MAX,
    ensures
        nestable_type_match(s) matches Err(e) ==> e.counts_bytes_of(s),
        nestable_type_match(s) matches Ok((n, _)) ==> ascii_before(s, n),
{
    reveal_strlit("wstring");
    reveal_strlit("string");
    lemma_front_counts_bytes(s, Production::TypeName);
    lemma_keyword_is_ascii(s, scalar_kinds());
    if keyword_among(s, scalar_kinds()) is None {
        if starts_with(s, "wstring"@) {
            lemma_ascii_word(s, "wstring"@);
            lemma_string_type_counts_bytes(s, "wstring"@.len(), true);
        } else if starts_with(s, "string"@) {
            lemma_ascii_word(s, "string"@);
            lemma_string_type_counts_bytes(s, "string"@.len(), false);
        } else {
            lemma_message_name(s);
            if let Some(n) = message_name_len(s) {
                let name = s.take(n as int);
                assert(s.take(0) =~= Seq::<char>::empty());
                assert forall|i: int| 0 <= i < n implies '\0' <= #[trigger] s[i] <= '\u{7f}' by {
                    assert(s[i] == name[i]);
                }
                lemma_ascii_more(s, 0, n);
            }
        }
    }
}

/// Behind ASCII characters, the brackets of a collection fail at an offset
/// that counts bytes, and leave ASCII characters before their end where
/// they do not fail.
proof fn lemma_collection_counts_bytes(s: Seq<char>, open: nat, base: NestableTypeView)
    requires
        s.len() <= usize::MAX,
        open < s.len(),
        s[open as int] == '[',
        ascii_before(s, open),
    ensures
        collection_match(s, open, base) matches Err(e) ==> e.counts_bytes_of(s),
        collection_match(s, open, base) matches Ok((n, _)) ==> ascii_before(s, n),
{
    reveal_strlit("<=");
    let inside = open + 1;
    lemma_ascii_more(s, open, inside);
    if inside < s.len() && s[inside as int] == ']' {
        lemma_ascii_more(s, inside, inside + 1);
    } else {
        let behind = s.skip(inside as int);
        let bounded = starts_with(behind, "<="@);
        let at = if bounded {
            inside + 2
        } else {
            inside
        };
        if bounded {
            assert(behind.take(2)[0] == behind[0] && behind.take(2)[1] == behind[1]);
            assert(s[inside as int] == behind[0] && s[(inside + 1) as int] == behind[1]);
            lemma_ascii_more(s, inside, at);
        }
        lemma_syntax_counts_bytes(s, at, Production::Size);
        lemma_ascii_run(s, at, CharClass::DecDigit);
        if let Some(m) = size_match(s.skip(at as int)) {
            let close = at + m.len;
            lemma_syntax_counts_bytes(s, close, Production::CloseBracket);
            if close < s.len() && s[close as int] == ']' {
                lemma_ascii_more(s, close, close + 1);
            }
        }
    }
}

/// A type fails at an offset that counts bytes, and leaves ASCII characters
/// before its end where it does not fail.
pub proof fn lemma_member_type_counts_bytes(s: Seq<char>)
    requires
        s.len() <= usize::MAX,
    ensures
        member_type_match(s) matches Err(e) ==> e.counts_bytes_of(s),
        member_type_match(s) matches Ok((n, _)) ==> ascii_before(s, n),
{
    lemma_nestable_type_counts_bytes(s);
    if let Ok((n, base)) = nestable_type_match(s) {
        if n < s.len() && s[n as int] == '[' {
            lemma_collection_counts_bytes(s, n, base);
        }
    }
}

/// A field declaration of any type fails at an offset that counts bytes.
pub proof fn lemma_member_field_counts_bytes(s: Seq<char>)
    requires
        s.len() <= usize::MAX,
    ensures
        member_field(s) matches Err(e) ==> e.counts_bytes_of(s),
{
    lemma_member_type_counts_bytes(s);
    if let Ok((n, ty)) = member_type_match(s) {
        lemma_head_counts_bytes(s, n, NameKind::Field);
    }
}

/// Every field that the general production reads lies inside its input
/// and is well formed.
pub proof fn lemma_member_field_wf(s: Seq<char>)
    ensures
        member_field(s) matches Ok((n, field)) ==> n <= s.len() && field.wf(),
{
    lemma_member_type_wf(s);
    if let Ok((n, ty)) = member_type_match(s) {
        lemma_declaration_head(s, n, NameKind::Field);
    }
}

/// A size found by a scan.
pub struct SizeScan {
    /// The number of digits.
    pub len: usize,
    /// What they say.
    pub value: usize,
}

impl View for SizeScan {
    type V = SizeMatch;

    open spec fn view(&self) -> SizeMatch {
        SizeMatch { len: self.len as nat, value: self.value }
    }
}

/// Looks for a size at the front of `s`.
pub fn scan_size(s: &[char]) -> (r: Option<SizeScan>)
    ensures
        r matches Some(m) ==> size_match(s@) == Some(m@) && m.len <= s@.len(),
        r is None ==> size_match(s@) is None,
{
    let len = scan_run(s, CharClass::DecDigit);
    if len == 0 {
        return None;
    }
    let digits = slice_subrange(s, 0, len);
    proof {
        lemma_run_len_bounds(s@, CharClass::DecDigit);
        assert(digits@ =~= s@.take(len as int));
        assert(digits@[0] != '_');
    }
    match convert_digits(digits, false, 10) {
        Ok(value) => {
            if 0 < value && value <= usize::MAX as i128 {
                Some(SizeScan { len, value: value as usize })
            } else {
                None
            }
        },
        Err(_) => None,
    }
}

/// A type found by a scan, or the reason why there is none.
pub struct Scanned<T> {
    /// The number of characters read.
    pub len: usize,
    /// What they declare.
    pub value: T,
}

fn scan_string_type(s: &[char], keyword: usize, wide: bool) -> (r: Result<
    Scanned<NestableType>,
    ParseError,
>)
    requires
        keyword <= s@.len(),
    ensures
        (match r {
            Ok(m) => string_type_match(s@, keyword as nat, wide) == Ok::<
                (nat, NestableTypeView),
                ParseError,
            >((m.len as nat, m.value@)) && m.len <= s@.len(),
            Err(e) => string_type_match(s@, keyword as nat, wide) == Err::<
                (nat, NestableTypeView),
                ParseError,
            >(e),
        }),
{
    let total = s.len();
    let behind = skip(s, keyword);
    if begins_with(behind, "<=") {
        proof {
            reveal_strlit("<=");
        }
        match scan_size(skip(s, keyword + 2)) {
            None => Err(ParseError::Syntax { offset: keyword + 2, expected: Production::Size }),
            Some(m) => Ok(
                Scanned {
                    len: keyword + 2 + m.len,
                    value: NestableType::GenericString(
                        if wide {
                            GenericString::BoundedWString(m.value)
                        } else {
                            GenericString::BoundedString(m.value)
                        },
                    ),
                },
            ),
        }
    } else {
        Ok(
            Scanned {
                len: keyword,
                value: NestableType::GenericString(
                    if wide {
                        GenericString::WString
                    } else {
                        GenericString::String
                    },
                ),
            },
        )
    }
}

/// The scalar kinds, in the order in which their keywords are tried.
fn scalar_kind_list() -> (kinds: [BasicType; 13])
    ensures
        kinds@ == scalar_kinds(),
{
    let kinds = [
        BasicType::U8,
        BasicType::U16,
        BasicType::U32,
        BasicType::U64,
        BasicType::I8,
        BasicType::I16,
        BasicType::I32,
        BasicType::I64,
        BasicType::F32,
        BasicType::F64,
        BasicType::Bool,
        BasicType::Char,
        BasicType::Byte,
    ];
    assert(kinds@ =~= scalar_kinds());
    kinds
}

/// Looks for a base type at the front of `i`, whose characters are `s`.
fn scan_nestable_type(i: &str, s: &[char]) -> (r: Result<Scanned<NestableType>, ParseError>)
    requires
        s@ == i@,
    ensures
        (match r {
            Ok(m) => nestable_type_match(i@) == Ok::<(nat, NestableTypeView), ParseError>(
                (m.len as nat, m.value@),
            ) && m.len <= i@.len(),
            Err(e) => nestable_type_match(i@) == Err::<(nat, NestableTypeView), ParseError>(e),
        }),
{
    let kinds = scalar_kind_list();
    if let Some(kind) = scan_keyword(s, kinds.as_slice()) {
        return Ok(
            Scanned { len: kind.keyword_str().unicode_len(), value: NestableType::BasicType(kind) },
        );
    }
    if begins_with(s, "wstring") {
        return scan_string_type(s, "wstring".unicode_len(), true);
    }
    if begins_with(s, "string") {
        return scan_string_type(s, "string".unicode_len(), false);
    }
    match scan_message_name(s) {
        Some(n) => Ok(
            Scanned {
                len: n,
                value: NestableType::NamedType(NamedType(i.substring_char(0, n).to_owned())),
            },
        ),
        None => Err(ParseError::Syntax { offset: 0, expected: Production::TypeName }),
    }
}

/// Reads the brackets opened at `open` behind the base type `base`.
fn scan_collection(s: &[char], open: usize, base: NestableType) -> (r: Result<
    Scanned<MemberType>,
    ParseError,
>)
    requires
        open < s@.len(),
    ensures
        (match r {
            Ok(m) => collection_match(s@, open as nat, base@) == Ok::<
                (nat, MemberTypeView),
                ParseError,
            >((m.len as nat, m.value@)) && m.len <= s@.len(),
            Err(e) => collection_match(s@, open as nat, base@) == Err::<
                (nat, MemberTypeView),
                ParseError,
            >(e),
        }),
{
    let total = s.len();
    let inside = open + 1;
    if inside < total && s[inside] == ']' {
        return Ok(
            Scanned { len: inside + 1, value: MemberType::Sequence(Sequence { value_type: base }) },
        );
    }
    let bounded = begins_with(skip(s, inside), "<=");
    proof {
        reveal_strlit("<=");
    }
    let at = if bounded {
        inside + 2
    } else {
        inside
    };
    match scan_size(skip(s, at)) {
        None => Err(ParseError::Syntax { offset: at, expected: Production::Size }),
        Some(m) => {
            let close = at + m.len;
            if close < total && s[close] == ']' {
                Ok(
                    Scanned {
                        len: close + 1,
                        value: if bounded {
                            MemberType::BoundedSequence(
                                BoundedSequence { value_type: base, max_size: m.value },
                            )
                        } else {
                            MemberType::Array(Array { value_type: base, size: m.value })
                        },
                    },
                )
            } else {
                Err(ParseError::Syntax { offset: close, expected: Production::CloseBracket })
            }
        },
    }
}

/// Looks for a type at the front of `i`, whose characters are `s`.
pub fn scan_member_type(i: &str, s: &[char]) -> (r: Result<Scanned<MemberType>, ParseError>)
    requires
        s@ == i@,
    ensures
        (match r {
            Ok(m) => member_type_match(i@) == Ok::<(nat, MemberTypeView), ParseError>(
                (m.len as nat, m.value@),
            ) && m.len <= i@.len() && m.value@.wf(),
            Err(e) => member_type_match(i@) == Err::<(nat, MemberTypeView), ParseError>(e),
        }),
{
    proof {
        lemma_member_type_wf(i@);
    }
    let total = s.len();
    let base = match scan_nestable_type(i, s) {
        Ok(base) => base,
        Err(e) => {
            return Err(e);
        },
    };
    if base.len < total && s[base.len] == '[' {
        scan_collection(s, base.len, base.value)
    } else {
        Ok(Scanned { len: base.len, value: MemberType::from(base.value) })
    }
}

/// Reads a base type: a scalar kind, a string type or the name of a
/// message.
pub fn nestable_type<'a>(i: &'a str) -> (r: Result<(&'a str, NestableType), ParseError>)
    ensures
        parsed_as(r, i@, nestable_type_match(i@)),
        r matches Ok((_, ty)) ==> ty@.wf(),
        r matches Err(e) ==> e.counts_bytes_of(i@),
{
    let chars = to_chars(i);
    let total = chars.len();
    proof {
        lemma_member_type_wf(i@);
        lemma_nestable_type_counts_bytes(i@);
    }
    match scan_nestable_type(i, chars.as_slice()) {
        Ok(m) => Ok((i.substring_char(m.len, total), m.value)),
        Err(e) => Err(e),
    }
}

/// Reads a type: a base type, or a sequence, an array or a bounded
/// sequence of one.
pub fn member_type<'a>(i: &'a str) -> (r: Result<(&'a str, MemberType), ParseError>)
    ensures
        parsed_as(r, i@, member_type_match(i@)),
        r matches Ok((_, ty)) ==> ty@.wf(),
        r matches Err(e) ==> e.counts_bytes_of(i@),
{
    let chars = to_chars(i);
    let total = chars.len();
    proof {
        lemma_member_type_counts_bytes(i@);
    }
    match scan_member_type(i, chars.as_slice()) {
        Ok(m) => Ok((i.substring_char(m.len, total), m.value)),
        Err(e) => Err(e),
    }
}

/// Reads a field declaration of any type: the type, blanks and the name of
/// the field.  No default is read.
pub fn member_def<'a>(i: &'a str) -> (r: Result<(&'a str, Field), ParseError>)
    ensures
        parsed_as(r, i@, member_field(i@)),
        r matches Ok((_, field)) ==> field@.wf(),
        r matches Err(e) ==> e.counts_bytes_of(i@),
{
    let chars = to_chars(i);
    let s = chars.as_slice();
    let total = s.len();
    proof {
        lemma_member_field_wf(i@);
        lemma_member_field_counts_bytes(i@);
    }
    let ty = match scan_member_type(i, s) {
        Ok(ty) => ty,
        Err(e) => {
            return Err(e);
        },
    };
    let head = match scan_head(s, ty.len, NameKind::Field) {
        Ok(head) => head,
        Err(e) => {
            return Err(e);
        },
    };
    let end = head.start + head.len;
    let field = Field {
        name: i.substring_char(head.start, end).to_owned(),
        ty: ty.value,
        default: None,
    };
    Ok((i.substring_char(end, total), field))
}

} // verus!
