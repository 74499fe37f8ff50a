//! Message bodies: the lines of a text without its comments, each of them
//! blank, a constant declaration or a field declaration.

use crate::error::{ParseError, Production};
use crate::message::{Constant, ConstantView, Field, FieldView, MsgSpec, MsgSpecView};
use crate::parser::comment::{strip_comments, stripped, without_comments};
use crate::parser::constant::{
    bool_const_def,
    bool_constant,
    float_const_def,
    float_constant,
    integer_const_def,
    integer_constant,
    lemma_bool_constant_wf,
    lemma_float_constant_wf,
    lemma_integer_constant_wf,
};
use crate::parser::field::{
    bool_field,
    bool_field_def,
    float_field,
    float_field_def,
    integer_field,
    integer_field_def,
    lemma_bool_field_wf,
    lemma_float_field_wf,
    lemma_integer_field_wf,
};
use crate::parser::types::{lemma_member_field_wf, member_def, member_field};
use crate::text::{
    lemma_run_len,
    lemma_run_len_bounds,
    run_len,
    scan_run,
    skip,
    starts_with,
    to_chars,
    CharClass,
};
use vstd::prelude::*;
use vstd::slice::slice_subrange;
use vstd::string::*;

verus! {

/// Whether a `[` of `s` is still open at its end.
pub open spec fn in_brackets(s: Seq<char>) -> bool
    decreases s.len(),
{
    if s.len() == 0 {
        false
    } else if s.last() == '[' {
        true
    } else if s.last() == ']' {
        false
    } else {
        in_brackets(s.drop_last())
    }
}

/// Whether a bare `=` stands at `i`: one that is no part of `<=` and is
/// not inside brackets.
pub open spec fn bare_equals_at(s: Seq<char>, i: int) -> bool {
    &&& s[i] == '='
    &&& i > 0 ==> s[i - 1] != '<'
    &&& !in_brackets(s.take(i))
}

/// Whether a line declares a constant: it holds a bare `=`.
pub open spec fn is_constant_line(s: Seq<char>) -> bool {
    exists|i: int| 0 <= i < s.len() && bare_equals_at(s, i)
}

/// `s` without the blanks and carriage returns at its two ends.
pub open spec fn trimmed(s: Seq<char>) -> Seq<char> {
    let body = s.skip(run_len(s, CharClass::Padding) as int);
    body.take(body.len() - run_len(body.reverse(), CharClass::Padding))
}

/// What a line declares.
pub enum DeclarationView {
    Field(FieldView),
    Constant(ConstantView),
}

impl DeclarationView {
    /// The field or the constant is well formed.
    pub open spec fn wf(self) -> bool {
        match self {
            DeclarationView::Field(f) => f.wf(),
            DeclarationView::Constant(c) => c.wf(),
        }
    }
}

/// What a line declares.
#[derive(Debug, Clone, PartialEq, Eq)]
pub enum Declaration {
    Field(Field),
    Constant(Constant),
}

impl View for Declaration {
    type V = DeclarationView;

    open spec fn view(&self) -> DeclarationView {
        match self {
            Declaration::Field(f) => DeclarationView::Field(f@),
            Declaration::Constant(c) => DeclarationView::Constant(c@),
        }
    }
}

/// The failure of a line that is no declaration.
pub open spec fn invalid_line(line: nat) -> ParseError {
    ParseError::InvalidLine { line: line as usize }
}

/// What a production found, where it read the line to its end.
pub open spec fn to_the_end<T>(s: Seq<char>, line: nat, len: nat, value: Result<T, ParseError>)
    -> Result<T, ParseError> {
    if len == s.len() {
        value
    } else {
        Err(invalid_line(line))
    }
}

/// The constant that the line `s` declares: what the first of the integer,
/// floating-point and boolean productions that reads a declaration at the
/// front of `s` finds, provided that it reads `s` to its end.
pub open spec fn constant_line(s: Seq<char>, line: nat) -> Result<ConstantView, ParseError> {
    match integer_constant(s) {
        Ok((n, c)) => to_the_end(s, line, n, c),
        Err(_) => match float_constant(s) {
            Ok((n, c)) => to_the_end(s, line, n, Ok(c)),
            Err(_) => match bool_constant(s) {
                Ok((n, c)) => to_the_end(s, line, n, Ok(c)),
                Err(_) => Err(invalid_line(line)),
            },
        },
    }
}

/// The field that the line `s` declares: what the first of the integer,
/// floating-point, boolean and general productions that reads a
/// declaration at the front of `s` finds, provided that it reads `s` to its
/// end.
pub open spec fn field_line(s: Seq<char>, line: nat) -> Result<FieldView, ParseError> {
    match integer_field(s) {
        Ok((n, f)) => to_the_end(s, line, n, f),
        Err(_) => match float_field(s) {
            Ok((n, f)) => to_the_end(s, line, n, Ok(f)),
            Err(_) => match bool_field(s) {
                Ok((n, f)) => to_the_end(s, line, n, Ok(f)),
                Err(_) => match member_field(s) {
                    Ok((n, f)) => to_the_end(s, line, n, Ok(f)),
                    Err(_) => Err(invalid_line(line)),
                },
            },
        },
    }
}

/// What the line `s` declares: a constant where it holds a bare `=`, else a
/// field.
#[verifier::opaque]
pub open spec fn line_declaration(s: Seq<char>, line: nat) -> Result<DeclarationView, ParseError> {
    if is_constant_line(s) {
        match constant_line(s, line) {
            Ok(c) => Ok(DeclarationView::Constant(c)),
            Err(e) => Err(e),
        }
    } else {
        match field_line(s, line) {
            Ok(f) => Ok(DeclarationView::Field(f)),
            Err(e) => Err(e),
        }
    }
}

/// The declarations of a message body.
pub struct BodyView {
    pub fields: Seq<FieldView>,
    pub constants: Seq<ConstantView>,
}

/// `body` behind the fields `fields` and the constants `constants`, or the
/// failure that `body` is.
pub open spec fn body_behind(
    fields: Seq<FieldView>,
    constants: Seq<ConstantView>,
    body: Result<BodyView, ParseError>,
) -> Result<BodyView, ParseError> {
    match body {
        Ok(b) => Ok(BodyView { fields: fields + b.fields, constants: constants + b.constants }),
        Err(e) => Err(e),
    }
}

/// `body` behind what the line `s` declares, if it declares anything.
pub open spec fn body_behind_line(
    s: Seq<char>,
    line: nat,
    body: Result<BodyView, ParseError>,
) -> Result<BodyView, ParseError> {
    if s.len() == 0 {
        body
    } else {
        match line_declaration(s, line) {
            Err(e) => Err(e),
            Ok(DeclarationView::Field(f)) => body_behind(seq![f], Seq::empty(), body),
            Ok(DeclarationView::Constant(c)) => body_behind(Seq::empty(), seq![c], body),
        }
    }
}

/// The declarations of the text `s`, which holds no comment and whose first
/// line has the index `line`: those of each line that is not blank, in the
/// order of the lines, or the failure of the first line that fails.
pub open spec fn message_body(s: Seq<char>, line: nat) -> Result<BodyView, ParseError>
    decreases s.len(),
{
    let n = run_len(s, CharClass::NotLineFeed);
    body_behind_line(
        trimmed(s.take(n as int)),
        line,
        if n < s.len() {
            message_body(s.skip((n + 1) as int), line + 1)
        } else {
            Ok(BodyView { fields: Seq::empty(), constants: Seq::empty() })
        },
    )
}

/// The message `name` of `package` that the text `text` describes.
pub open spec fn message_match(package: Seq<char>, name: Seq<char>, text: Seq<char>) -> Result<
    MsgSpecView,
    ParseError,
> {
    match stripped(text) {
        Err(e) => Err(e),
        Ok(clean) => match message_body(clean, 0) {
            Err(e) => Err(e),
            Ok(body) => Ok(
                MsgSpecView { package, name, fields: body.fields, constants: body.constants },
            ),
        },
    }
}

/// What a line declares is well formed.
pub proof fn lemma_line_is_well_formed(s: Seq<char>, line: nat)
    ensures
        line_declaration(s, line) matches Ok(d) ==> d.wf(),
{
    reveal(line_declaration);
    lemma_integer_constant_wf(s);
    lemma_float_constant_wf(s);
    lemma_bool_constant_wf(s);
    lemma_integer_field_wf(s);
    lemma_float_field_wf(s);
    lemma_bool_field_wf(s);
    lemma_member_field_wf(s);
}

/// Every declaration of a message body is well formed.
pub proof fn lemma_body_is_well_formed(s: Seq<char>, line: nat)
    ensures
        (message_body(s, line) matches Ok(body) ==> {
            &&& forall|i: int| 0 <= i < body.fields.len() ==> (#[trigger] body.fields[i]).wf()
            &&& forall|i: int|
                0 <= i < body.constants.len() ==> (#[trigger] body.constants[i]).wf()
        }),
    decreases s.len(),
{
    let n = run_len(s, CharClass::NotLineFeed);
    let here = trimmed(s.take(n as int));
    if n < s.len() {
        lemma_body_is_well_formed(s.skip((n + 1) as int), line + 1);
    }
    lemma_line_is_well_formed(here, line);
}

/// Every message that is read is well formed: the names of its fields are
/// field names, those of its constants are constant names, a type that is
/// named has the name of a message, and sizes and bounds are positive.  It
/// has the package and the name that were asked for.
pub proof fn lemma_message_is_well_formed(package: Seq<char>, name: Seq<char>, text: Seq<char>)
    ensures
        message_match(package, name, text) matches Ok(m) ==> m.wf() && m.package == package
            && m.name == name,
{
    if let Ok(clean) = stripped(text) {
        lemma_body_is_well_formed(clean, 0);
    }
}

/// Whether `e` is a failure that a line can have: it is no declaration, or
/// it declares a value that its type cannot hold or that is no number.
pub open spec fn is_line_failure(e: ParseError) -> bool {
    e is InvalidLine || e is Range || e is EmptyLiteral || e is LiteralOverflow
}

/// Whether `e` is a failure that a message body can have: that of a line,
/// or a block comment without an end.
pub open spec fn is_message_failure(e: ParseError) -> bool {
    is_line_failure(e) || (e matches ParseError::Syntax { expected, .. } && expected
        == Production::BlockCommentEnd)
}

/// A line fails in no other way than as a line.
pub proof fn lemma_line_failures(s: Seq<char>, line: nat)
    ensures
        line_declaration(s, line) matches Err(e) ==> is_line_failure(e),
{
    reveal(line_declaration);
}

/// A message body fails in no other way than one of its lines.
pub proof fn lemma_body_failures(s: Seq<char>, line: nat)
    ensures
        message_body(s, line) matches Err(e) ==> is_line_failure(e),
    decreases s.len(),
{
    let n = run_len(s, CharClass::NotLineFeed);
    if n < s.len() {
        lemma_body_failures(s.skip((n + 1) as int), line + 1);
    }
    lemma_line_failures(trimmed(s.take(n as int)), line);
}

/// Removing the comments fails in no other way than for a block comment
/// without an end.
pub proof fn lemma_comment_failures(s: Seq<char>, before: Seq<char>)
    ensures
        without_comments(s, before) matches Err(e) ==> is_message_failure(e) && !is_line_failure(e),
    decreases s.len(),
{
    reveal_strlit("/*");
    reveal_strlit("*/");
    reveal_strlit("//");
    if s.len() == 0 {
    } else if starts_with(s, "/*"@) {
        crate::parser::comment::lemma_find(s.skip(2), "*/"@);
        if let Some(k) = crate::parser::comment::find(s.skip(2), "*/"@) {
            lemma_comment_failures(s.skip((4 + k) as int), before + s.take((4 + k) as int));
        }
    } else if starts_with(s, "//"@) {
        lemma_run_len_bounds(s.skip(2), CharClass::NotLineEnd);
        let n = 2 + run_len(s.skip(2), CharClass::NotLineEnd);
        lemma_comment_failures(s.skip(n as int), before + s.take(n as int));
    } else {
        lemma_comment_failures(s.skip(1), before.push(s[0]));
    }
}

/// A message fails in no other way than its comments or one of its lines.
pub proof fn lemma_message_failures(package: Seq<char>, name: Seq<char>, text: Seq<char>)
    ensures
        message_match(package, name, text) matches Err(e) ==> is_message_failure(e),
{
    lemma_comment_failures(text, Seq::empty());
    if let Ok(clean) = stripped(text) {
        lemma_body_failures(clean, 0);
    }
}

/// Tests whether a line declares a constant.
pub fn holds_bare_equals(s: &[char]) -> (b: bool)
    ensures
        b == is_constant_line(s@),
{
    let mut open = false;
    let mut i: usize = 0;
    assert(s@.take(0) =~= Seq::<char>::empty());
    while i < s.len()
        invariant
            i <= s@.len(),
            open == in_brackets(s@.take(i as int)),
            forall|j: int| 0 <= j < i ==> !bare_equals_at(s@, j),
        decreases s@.len() - i,
    {
        let c = s[i];
        if c == '=' && !open && (i == 0 || s[i - 1] != '<') {
            assert(bare_equals_at(s@, i as int));
            return true;
        }
        proof {
            let u = s@.take(i + 1);
            assert(u.drop_last() =~= s@.take(i as int));
            assert(u.last() == c);
        }
        if c == '[' {
            open = true;
        } else if c == ']' {
            open = false;
        }
        i += 1;
    }
    false
}

/// Finds where `s` begins and ends without the blanks and carriage returns
/// at its two ends.
pub fn trim_bounds(s: &[char]) -> (r: (usize, usize))
    ensures
        r.0 <= r.1 <= s@.len(),
        s@.subrange(r.0 as int, r.1 as int) == trimmed(s@),
{
    let total = s.len();
    let from = scan_run(s, CharClass::Padding);
    let mut to = total;
    while to > from && CharClass::Padding.contains(s[to - 1])
        invariant
            from <= to <= total == s@.len(),
            forall|j: int| to <= j < total ==> CharClass::Padding.has(#[trigger] s@[j]),
        decreases to,
    {
        to -= 1;
    }
    proof {
        let body = s@.skip(from as int);
        let back = body.reverse();
        assert forall|j: int| 0 <= j < total - to implies CharClass::Padding.has(
            #[trigger] back[j],
        ) by {
            assert(back[j] == s@[total - 1 - j]);
        }
        if total - to < back.len() {
            assert(back[total - to] == s@[to - 1]);
        }
        lemma_run_len(back, CharClass::Padding, total - to);
        assert(s@.subrange(from as int, to as int) =~= body.take(body.len() - (total - to)));
    }
    (from, to)
}

/// Reads the constant that the line `line` declares.
fn parse_constant_line(line: &str, number: usize) -> (r: Result<Constant, ParseError>)
    ensures
        (match r {
            Ok(c) => constant_line(line@, number as nat) == Ok::<ConstantView, ParseError>(c@),
            Err(e) => constant_line(line@, number as nat) == Err::<ConstantView, ParseError>(e),
        }),
{
    let invalid = ParseError::InvalidLine { line: number };
    match integer_const_def(line) {
        Ok((rest, c)) => {
            return if rest.unicode_len() == 0 {
                c
            } else {
                Err(invalid)
            };
        },
        Err(_) => {},
    }
    match float_const_def(line) {
        Ok((rest, c)) => {
            return if rest.unicode_len() == 0 {
                Ok(c)
            } else {
                Err(invalid)
            };
        },
        Err(_) => {},
    }
    match bool_const_def(line) {
        Ok((rest, c)) => if rest.unicode_len() == 0 {
            Ok(c)
        } else {
            Err(invalid)
        },
        Err(_) => Err(invalid),
    }
}

/// Reads the field that the line `line` declares.
fn parse_field_line(line: &str, number: usize) -> (r: Result<Field, ParseError>)
    ensures
        (match r {
            Ok(f) => field_line(line@, number as nat) == Ok::<FieldView, ParseError>(f@),
            Err(e) => field_line(line@, number as nat) == Err::<FieldView, ParseError>(e),
        }),
{
    let invalid = ParseError::InvalidLine { line: number };
    match integer_field_def(line) {
        Ok((rest, f)) => {
            return if rest.unicode_len() == 0 {
                f
            } else {
                Err(invalid)
            };
        },
        Err(_) => {},
    }
    match float_field_def(line) {
        Ok((rest, f)) => {
            return if rest.unicode_len() == 0 {
                Ok(f)
            } else {
                Err(invalid)
            };
        },
        Err(_) => {},
    }
    match bool_field_def(line) {
        Ok((rest, f)) => {
            return if rest.unicode_len() == 0 {
                Ok(f)
            } else {
                Err(invalid)
            };
        },
        Err(_) => {},
    }
    match member_def(line) {
        Ok((rest, f)) => if rest.unicode_len() == 0 {
            Ok(f)
        } else {
            Err(invalid)
        },
        Err(_) => Err(invalid),
    }
}

/// Reads what one line declares.  The line has no blank at either end and
/// is not empty; `number` is its index, which a failure names.
pub fn parse_line(line: &str, number: usize) -> (r: Result<Declaration, ParseError>)
    ensures
        (match r {
            Ok(d) => line_declaration(line@, number as nat) == Ok::<DeclarationView, ParseError>(
                d@,
            ),
            Err(e) => line_declaration(line@, number as nat) == Err::<
                DeclarationView,
                ParseError,
            >(e),
        }),
{
    reveal(line_declaration);
    let chars = to_chars(line);
    if holds_bare_equals(chars.as_slice()) {
        match parse_constant_line(line, number) {
            Ok(c) => Ok(Declaration::Constant(c)),
            Err(e) => Err(e),
        }
    } else {
        match parse_field_line(line, number) {
            Ok(f) => Ok(Declaration::Field(f)),
            Err(e) => Err(e),
        }
    }
}

/// What the fields `fields` stand for.
pub open spec fn field_views(fields: Seq<Field>) -> Seq<FieldView> {
    fields.map_values(|f: Field| f@)
}

/// What the constants `constants` stand for.
pub open spec fn constant_views(constants: Seq<Constant>) -> Seq<ConstantView> {
    constants.map_values(|c: Constant| c@)
}

/// Reads the message `msg_name` of the package `pkg_name` from
/// `message_string`: removes the comments, then reads a declaration from
/// each line that is not blank.  Fields and constants come out in the order
/// of their lines.  The first line that fails decides the failure.
pub fn parse_message_string(pkg_name: &str, msg_name: &str, message_string: &str) -> (r: Result<
    MsgSpec,
    ParseError,
>)
    ensures
        (match r {
            Ok(m) => message_match(pkg_name@, msg_name@, message_string@) == Ok::<
                MsgSpecView,
                ParseError,
            >(m@),
            Err(e) => message_match(pkg_name@, msg_name@, message_string@) == Err::<
                MsgSpecView,
                ParseError,
            >(e),
        }),
        r matches Ok(m) ==> m@.wf(),
{
    let clean = match strip_comments(message_string) {
        Ok(clean) => clean,
        Err(e) => {
            return Err(e);
        },
    };
    let text = clean.as_str();
    let chars = to_chars(text);
    let s = chars.as_slice();
    let total = s.len();
    let mut fields: Vec<Field> = Vec::new();
    let mut constants: Vec<Constant> = Vec::new();
    let mut at: usize = 0;
    let mut number: usize = 0;
    proof {
        assert(s@.skip(0) =~= s@);
        let whole = message_body(s@, 0);
        if whole is Ok {
            assert(field_views(fields@) + whole->Ok_0.fields =~= whole->Ok_0.fields);
            assert(constant_views(constants@) + whole->Ok_0.constants =~= whole->Ok_0.constants);
        }
    }
    loop
        invariant
            number <= at <= total == s@.len(),
            s@ == text@,
            stripped(message_string@) == Ok::<Seq<char>, ParseError>(text@),
            message_body(s@, 0) == body_behind(
                field_views(fields@),
                constant_views(constants@),
                message_body(s@.skip(at as int), number as nat),
            ),
        decreases total - at,
    {
        let here = skip(s, at);
        let n = scan_run(here, CharClass::NotLineFeed);
        let (from, to) = trim_bounds(slice_subrange(here, 0, n));
        let ghost rest = if n < here@.len() {
            message_body(here@.skip(n + 1), (number + 1) as nat)
        } else {
            Ok(BodyView { fields: Seq::empty(), constants: Seq::empty() })
        };
        let ghost before_fields = field_views(fields@);
        let ghost before_constants = constant_views(constants@);
        proof {
            assert(here@.take(n as int) =~= here@.subrange(0, n as int));
            assert(text@.subrange(at + from, at + to) =~= trimmed(here@.take(n as int)));
        }
        if from < to {
            match parse_line(text.substring_char(at + from, at + to), number) {
                Err(e) => {
                    return Err(e);
                },
                Ok(Declaration::Field(f)) => {
                    fields.push(f);
                    proof {
                        assert(field_views(fields@) =~= before_fields + seq![f@]);
                        if rest is Ok {
                            assert(before_fields + (seq![f@] + rest->Ok_0.fields) =~= field_views(
                                fields@,
                            ) + rest->Ok_0.fields);
                            assert(before_constants + (Seq::<ConstantView>::empty()
                                + rest->Ok_0.constants) =~= before_constants
                                + rest->Ok_0.constants);
                        }
                    }
                },
                Ok(Declaration::Constant(c)) => {
                    constants.push(c);
                    proof {
                        assert(constant_views(constants@) =~= before_constants + seq![c@]);
                        if rest is Ok {
                            assert(before_constants + (seq![c@] + rest->Ok_0.constants)
                                =~= constant_views(constants@) + rest->Ok_0.constants);
                            assert(before_fields + (Seq::<FieldView>::empty() + rest->Ok_0.fields)
                                =~= before_fields + rest->Ok_0.fields);
                        }
                    }
                },
            }
        }
        if at + n >= total {
            proof {
                assert(field_views(fields@) + Seq::<FieldView>::empty() =~= field_views(fields@));
                assert(constant_views(constants@) + Seq::<ConstantView>::empty()
                    =~= constant_views(constants@));
                lemma_message_is_well_formed(pkg_name@, msg_name@, message_string@);
            }
            return Ok(
                MsgSpec {
                    package: pkg_name.to_owned(),
                    name: msg_name.to_owned(),
                    fields,
                    constants,
                },
            );
        }
        proof {
            assert(here@.skip(n + 1) =~= s@.skip(at + n + 1));
        }
        at = at + n + 1;
        number = number + 1;
    }
}

} // verus!
