//! What field and constant declarations share: a type keyword, blanks and a
//! name; and the way in which a production's result is held against what
//! the grammar says of its input.

use crate::error::{ParseError, Production};
use crate::names::{is_constant_name, is_field_name};
use crate::parser::identifier::{
    constant_name_len,
    field_name_len,
    lemma_constant_name,
    lemma_field_name,
    scan_constant_name,
    scan_field_name,
};
use crate::text::{
    ascii_before,
    begins_with,
    lemma_ascii_more,
    lemma_ascii_offset,
    lemma_ascii_run,
    lemma_ascii_word,
    run_len,
    scan_run,
    skip,
    starts_with,
    CharClass,
};
use crate::types::{lemma_keywords_are_ascii, BasicType};
use vstd::prelude::*;
use vstd::string::*;

verus! {

/// Which name a declaration gives.
#[derive(Clone, Copy, Debug, PartialEq, Eq, Structural)]
pub enum NameKind {
    Field,
    Constant,
}

impl NameKind {
    /// The length of the name of this kind at the front of `s`.
    pub open spec fn name_len(self, s: Seq<char>) -> Option<nat> {
        match self {
            NameKind::Field => field_name_len(s),
            NameKind::Constant => constant_name_len(s),
        }
    }

    /// Whether `s` is a name of this kind.
    pub open spec fn is_name(self, s: Seq<char>) -> bool {
        match self {
            NameKind::Field => is_field_name(s),
            NameKind::Constant => is_constant_name(s),
        }
    }

    /// The production that reads a name of this kind.
    pub open spec fn production(self) -> Production {
        match self {
            NameKind::Field => Production::FieldName,
            NameKind::Constant => Production::ConstantName,
        }
    }

    fn scan(self, s: &[char]) -> (r: Option<usize>)
        ensures
            r matches Some(n) ==> self.name_len(s@) == Some(n as nat) && n <= s@.len(),
            r is None ==> self.name_len(s@) is None,
    {
        match self {
            NameKind::Field => scan_field_name(s),
            NameKind::Constant => scan_constant_name(s),
        }
    }

    fn expected(self) -> (p: Production)
        ensures
            p == self.production(),
    {
        match self {
            NameKind::Field => Production::FieldName,
            NameKind::Constant => Production::ConstantName,
        }
    }
}

/// A syntax failure.
pub open spec fn syntax(offset: nat, expected: Production) -> ParseError {
    ParseError::Syntax { offset: offset as usize, expected }
}

/// The first of `kinds` whose keyword `s` begins with.
pub open spec fn keyword_among(s: Seq<char>, kinds: Seq<BasicType>) -> Option<BasicType>
    decreases kinds.len(),
{
    if kinds.len() == 0 {
        None
    } else if starts_with(s, kinds[0].keyword()) {
        Some(kinds[0])
    } else {
        keyword_among(s, kinds.skip(1))
    }
}

/// The kinds that an integer declaration can begin with, in the order in
/// which they are tried.
pub open spec fn integer_kinds() -> Seq<BasicType> {
    seq![
        BasicType::U8,
        BasicType::U16,
        BasicType::U32,
        BasicType::U64,
        BasicType::I8,
        BasicType::I16,
        BasicType::I32,
        BasicType::I64,
        BasicType::Char,
        BasicType::Byte,
    ]
}

/// The kinds that a floating-point declaration can begin with.
pub open spec fn float_kinds() -> Seq<BasicType> {
    seq![BasicType::F32, BasicType::F64]
}

/// The kind that a boolean declaration begins with.
pub open spec fn bool_kinds() -> Seq<BasicType> {
    seq![BasicType::Bool]
}

/// Finds `keyword_among`.
pub fn scan_keyword(s: &[char], kinds: &[BasicType]) -> (r: Option<BasicType>)
    ensures
        r == keyword_among(s@, kinds@),
        r matches Some(kind) ==> starts_with(s@, kind.keyword()),
{
    let mut i: usize = 0;
    assert(kinds@.skip(0) =~= kinds@);
    while i < kinds.len()
        invariant
            i <= kinds@.len(),
            keyword_among(s@, kinds@) == keyword_among(s@, kinds@.skip(i as int)),
        decreases kinds@.len() - i,
    {
        if begins_with(s, kinds[i].keyword_str()) {
            return Some(kinds[i]);
        }
        assert(kinds@.skip(i as int).skip(1) =~= kinds@.skip(i + 1));
        i += 1;
    }
    None
}

/// The integer kinds, in the order in which they are tried.
pub fn integer_kind_list() -> (kinds: [BasicType; 10])
    ensures
        kinds@ == integer_kinds(),
{
    let kinds = [
        BasicType::U8,
        BasicType::U16,
        BasicType::U32,
        BasicType::U64,
        BasicType::I8,
        BasicType::I16,
        BasicType::I32,
        BasicType::I64,
        BasicType::Char,
        BasicType::Byte,
    ];
    assert(kinds@ =~= integer_kinds());
    kinds
}

/// Where the name of a declaration stands.
pub struct Head {
    /// The offset of the name.
    pub start: nat,
    /// The length of the name.
    pub len: nat,
}

impl Head {
    /// The offset behind the name.
    pub open spec fn end(self) -> nat {
        self.start + self.len
    }
}

/// The head of a declaration whose keyword has `keyword` characters: the
/// keyword, at least one blank and a name of kind `name`.
pub open spec fn declaration_head(s: Seq<char>, keyword: nat, name: NameKind) -> Result<
    Head,
    ParseError,
> {
    let blanks = run_len(s.skip(keyword as int), CharClass::Blank);
    let start = keyword + blanks;
    if blanks == 0 {
        Err(syntax(keyword, Production::Space))
    } else {
        match name.name_len(s.skip(start as int)) {
            None => Err(syntax(start, name.production())),
            Some(len) => Ok(Head { start, len }),
        }
    }
}

/// The head of a declaration lies inside its input, and the name in it is
/// a name of the kind that is asked for.
pub proof fn lemma_declaration_head(s: Seq<char>, keyword: nat, name: NameKind)
    requires
        keyword <= s.len(),
    ensures
        (declaration_head(s, keyword, name) matches Ok(head) ==> {
            &&& keyword < head.start
            &&& head.end() <= s.len()
            &&& name.is_name(s.subrange(head.start as int, head.end() as int))
        }),
{
    let behind = s.skip(keyword as int);
    crate::text::lemma_run_len_bounds(behind, CharClass::Blank);
    let start = keyword + run_len(behind, CharClass::Blank);
    let rest = s.skip(start as int);
    lemma_field_name(rest);
    lemma_constant_name(rest);
    if let Ok(head) = declaration_head(s, keyword, name) {
        assert(s.subrange(head.start as int, head.end() as int) =~= rest.take(head.len as int));
    }
}

/// The keyword that is found is one of those that are looked for, and `s`
/// begins with it.
pub proof fn lemma_keyword_among(s: Seq<char>, kinds: Seq<BasicType>)
    ensures
        keyword_among(s, kinds) matches Some(kind) ==> kinds.contains(kind) && starts_with(
            s,
            kind.keyword(),
        ),
    decreases kinds.len(),
{
    if kinds.len() > 0 && !starts_with(s, kinds[0].keyword()) {
        lemma_keyword_among(s, kinds.skip(1));
        if let Some(kind) = keyword_among(s, kinds) {
            let i = choose|i: int| 0 <= i < kinds.skip(1).len() && kinds.skip(1)[i] == kind;
            assert(kinds[i + 1] == kind);
        }
    }
}

/// A failure at an offset before which all is ASCII counts bytes.
pub proof fn lemma_syntax_counts_bytes(s: Seq<char>, offset: nat, expected: Production)
    requires
        s.len() <= usize::MAX,
        ascii_before(s, offset),
    ensures
        syntax(offset, expected).counts_bytes_of(s),
{
    lemma_ascii_offset(s, offset);
}

/// A failure at the front of an input counts bytes.
pub proof fn lemma_front_counts_bytes(s: Seq<char>, expected: Production)
    ensures
        syntax(0, expected).counts_bytes_of(s),
{
    assert(s.take(0) =~= Seq::<char>::empty());
    lemma_ascii_offset(s, 0);
}

/// The keyword that is found leaves ASCII characters before its end.
pub proof fn lemma_keyword_is_ascii(s: Seq<char>, kinds: Seq<BasicType>)
    ensures
        keyword_among(s, kinds) matches Some(kind) ==> ascii_before(s, kind.keyword().len()),
{
    lemma_keyword_among(s, kinds);
    if let Some(kind) = keyword_among(s, kinds) {
        lemma_keywords_are_ascii(kind);
        lemma_ascii_word(s, kind.keyword());
    }
}

/// Behind ASCII characters, the head of a declaration fails at an offset
/// that counts bytes, and leaves ASCII characters before its end where it
/// does not fail.
pub proof fn lemma_head_counts_bytes(s: Seq<char>, keyword: nat, name: NameKind)
    requires
        s.len() <= usize::MAX,
        ascii_before(s, keyword),
    ensures
        declaration_head(s, keyword, name) matches Err(e) ==> e.counts_bytes_of(s),
        declaration_head(s, keyword, name) matches Ok(head) ==> ascii_before(s, head.end()),
{
    lemma_ascii_run(s, keyword, CharClass::Blank);
    let start = keyword + run_len(s.skip(keyword as int), CharClass::Blank);
    lemma_syntax_counts_bytes(s, keyword, Production::Space);
    lemma_syntax_counts_bytes(s, start, name.production());
    lemma_declaration_head(s, keyword, name);
    if let Ok(head) = declaration_head(s, keyword, name) {
        let text = s.subrange(head.start as int, head.end() as int);
        assert forall|i: int| head.start <= i < head.end() implies '\0' <= #[trigger] s[i]
            <= '\u{7f}' by {
            assert(s[i] == text[i - head.start]);
        }
        lemma_ascii_more(s, head.start, head.end());
    }
}

/// Where the name of a declaration was found.
pub struct HeadScan {
    /// The offset of the name.
    pub start: usize,
    /// The length of the name.
    pub len: usize,
}

impl View for HeadScan {
    type V = Head;

    open spec fn view(&self) -> Head {
        Head { start: self.start as nat, len: self.len as nat }
    }
}

/// Reads the head of a declaration behind its keyword.
pub fn scan_head(s: &[char], keyword: usize, name: NameKind) -> (r: Result<HeadScan, ParseError>)
    requires
        keyword <= s@.len(),
    ensures
        r matches Ok(h) ==> declaration_head(s@, keyword as nat, name) == Ok::<Head, ParseError>(h@)
            && h.start + h.len <= s@.len(),
        r matches Err(e) ==> declaration_head(s@, keyword as nat, name) == Err::<Head, ParseError>(
            e,
        ),
{
    let total = s.len();
    let blanks = scan_run(skip(s, keyword), CharClass::Blank);
    let start = keyword + blanks;
    if blanks == 0 {
        return Err(ParseError::Syntax { offset: keyword, expected: Production::Space });
    }
    match name.scan(skip(s, start)) {
        None => Err(ParseError::Syntax { offset: start, expected: name.expected() }),
        Some(len) => Ok(HeadScan { start, len }),
    }
}

/// How a production's result is held against the grammar: on success, what
/// is handed back is the rest of `input` behind the `expected` length and a
/// value that stands for the `expected` one; on failure, the `expected`
/// failure.
pub open spec fn parsed_as<T: View>(
    r: Result<(&str, T), ParseError>,
    input: Seq<char>,
    expected: Result<(nat, T::V), ParseError>,
) -> bool {
    match r {
        Ok((rest, value)) => {
            &&& expected matches Ok((len, v))
            &&& len <= input.len()
            &&& rest@ == input.skip(len as int)
            &&& value@ == v
        },
        Err(e) => expected == Err::<(nat, T::V), ParseError>(e),
    }
}

/// As `parsed_as`, for a production that can read its input to the end and
/// still find a value out of range.
pub open spec fn checked_as<T: View>(
    r: Result<(&str, Result<T, ParseError>), ParseError>,
    input: Seq<char>,
    expected: Result<(nat, Result<T::V, ParseError>), ParseError>,
) -> bool {
    match r {
        Ok((rest, value)) => {
            &&& expected matches Ok((len, v))
            &&& len <= input.len()
            &&& rest@ == input.skip(len as int)
            &&& match value {
                Ok(value) => v == Ok::<T::V, ParseError>(value@),
                Err(e) => v == Err::<T::V, ParseError>(e),
            }
        },
        Err(e) => expected == Err::<(nat, Result<T::V, ParseError>), ParseError>(e),
    }
}

} // verus!
