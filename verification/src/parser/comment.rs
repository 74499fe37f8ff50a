//! Comments: from `//` to the end of the line, and from `/*` to the nearest
//! `*/`, over any number of lines.

use crate::error::{ParseError, Production};
use crate::parser::declaration::syntax;
use crate::text::{
    begins_with,
    lemma_run_len_bounds,
    run_len,
    scan_run,
    skip,
    starts_with,
    to_chars,
    CharClass,
};
use vstd::prelude::*;
use vstd::string::*;
use vstd::utf8::encode_utf8;

verus! {

/// The offset of the first occurrence of `word` in `s`.
pub open spec fn find(s: Seq<char>, word: Seq<char>) -> Option<nat>
    decreases s.len(),
{
    if starts_with(s, word) {
        Some(0)
    } else if s.len() == 0 {
        None
    } else {
        match find(s.skip(1), word) {
            Some(k) => Some(k + 1),
            None => None,
        }
    }
}

/// `find` gives the least offset at which `word` stands, inside `s`.
pub proof fn lemma_find(s: Seq<char>, word: Seq<char>)
    ensures
        (match find(s, word) {
            Some(k) => {
                &&& k + word.len() <= s.len()
                &&& starts_with(s.skip(k as int), word)
                &&& forall|j: int| 0 <= j < k ==> !starts_with(#[trigger] s.skip(j), word)
            },
            None => forall|j: int| 0 <= j <= s.len() ==> !starts_with(#[trigger] s.skip(j), word),
        }),
    decreases s.len(),
{
    assert(s.skip(0) =~= s);
    if starts_with(s, word) {
    } else if s.len() == 0 {
    } else {
        let t = s.skip(1);
        lemma_find(t, word);
        assert forall|j: int| 1 <= j <= s.len() implies #[trigger] s.skip(j) == t.skip(j - 1) by {
            assert(s.skip(j) =~= t.skip(j - 1));
        }
        match find(t, word) {
            Some(k) => {
                assert(s.skip((k + 1) as int) =~= t.skip(k as int));
                assert forall|j: int| 0 <= j < k + 1 implies !starts_with(
                    #[trigger] s.skip(j),
                    word,
                ) by {
                    if j > 0 {
                        assert(s.skip(j) == t.skip(j - 1));
                    }
                }
            },
            None => {
                assert forall|j: int| 0 <= j <= s.len() implies !starts_with(
                    #[trigger] s.skip(j),
                    word,
                ) by {
                    if j > 0 {
                        assert(s.skip(j) == t.skip(j - 1));
                    }
                }
            },
        }
    }
}

/// The length of the line comment at the front of `s`: `//` and at least
/// one character, up to the end of the line.
pub open spec fn line_comment_len(s: Seq<char>) -> Option<nat> {
    let body = run_len(s.skip(2), CharClass::NotLineEnd);
    if starts_with(s, "//"@) && body > 0 {
        Some(2 + body)
    } else {
        None
    }
}

/// The length of the block comment at the front of `s`: `/*`, and
/// everything up to the nearest `*/` and with it.
pub open spec fn block_comment_len(s: Seq<char>) -> Result<nat, ParseError> {
    if starts_with(s, "/*"@) {
        match find(s.skip(2), "*/"@) {
            Some(k) => Ok(4 + k),
            None => Err(syntax(0, Production::BlockCommentEnd)),
        }
    } else {
        Err(syntax(0, Production::BlockComment))
    }
}

/// What is left of `s` without its comments, where `before` stands before
/// `s` in the whole text.  A block comment takes everything up to the
/// nearest `*/`, and fails where there is none, at the offset in bytes at
/// which it begins in the whole text; a line comment takes everything
/// before the end of its line.
pub open spec fn without_comments(s: Seq<char>, before: Seq<char>) -> Result<
    Seq<char>,
    ParseError,
>
    decreases s.len(),
    via without_comments_decreases
{
    if s.len() == 0 {
        Ok(Seq::empty())
    } else if starts_with(s, "/*"@) {
        match find(s.skip(2), "*/"@) {
            Some(k) => without_comments(s.skip((4 + k) as int), before + s.take((4 + k) as int)),
            None => Err(syntax(encode_utf8(before).len(), Production::BlockCommentEnd)),
        }
    } else if starts_with(s, "//"@) {
        let n = 2 + run_len(s.skip(2), CharClass::NotLineEnd);
        without_comments(s.skip(n as int), before + s.take(n as int))
    } else {
        match without_comments(s.skip(1), before.push(s[0])) {
            Ok(rest) => Ok(seq![s[0]] + rest),
            Err(e) => Err(e),
        }
    }
}

/// The text `text` without its comments.
pub open spec fn stripped(text: Seq<char>) -> Result<Seq<char>, ParseError> {
    without_comments(text, Seq::empty())
}

#[via_fn]
proof fn without_comments_decreases(s: Seq<char>, before: Seq<char>) {
    reveal_strlit("/*");
    reveal_strlit("*/");
    reveal_strlit("//");
    if s.len() >= 2 {
        lemma_find(s.skip(2), "*/"@);
        lemma_run_len_bounds(s.skip(2), CharClass::NotLineEnd);
    }
}

/// Looks for `word` in `s`.
pub fn scan_find(s: &[char], word: &str) -> (r: Option<usize>)
    ensures
        r matches Some(k) ==> find(s@, word@) == Some(k as nat) && k + word@.len() <= s@.len(),
        r is None ==> find(s@, word@) is None,
{
    let total = s.len();
    let mut k: usize = 0;
    assert(s@.skip(0) =~= s@);
    loop
        invariant
            k <= s@.len() == total,
            find(s@, word@) == match find(s@.skip(k as int), word@) {
                Some(j) => Some((j + k) as nat),
                None => None,
            },
        decreases s@.len() - k,
    {
        if begins_with(skip(s, k), word) {
            proof {
                lemma_find(s@, word@);
            }
            return Some(k);
        }
        if k == total {
            return None;
        }
        assert(s@.skip(k as int).skip(1) =~= s@.skip(k + 1));
        k += 1;
    }
}

/// Reads a line comment: `//` and the rest of the line, which holds at
/// least one character.
pub fn single_line_comment<'a>(i: &'a str) -> (r: Result<(&'a str, ()), ParseError>)
    ensures
        (match r {
            Ok((rest, _)) => {
                &&& line_comment_len(i@) matches Some(n)
                &&& n <= i@.len()
                &&& rest@ == i@.skip(n as int)
            },
            Err(e) => line_comment_len(i@) is None && e == syntax(0, Production::LineComment),
        }),
{
    let chars = to_chars(i);
    let s = chars.as_slice();
    let total = s.len();
    proof {
        reveal_strlit("//");
    }
    if begins_with(s, "//") {
        let body = scan_run(skip(s, 2), CharClass::NotLineEnd);
        if body > 0 {
            return Ok((i.substring_char(2 + body, total), ()));
        }
    }
    Err(ParseError::Syntax { offset: 0, expected: Production::LineComment })
}

/// Reads a block comment: `/*` and everything up to the nearest `*/`.
pub fn multi_line_comment<'a>(i: &'a str) -> (r: Result<(&'a str, ()), ParseError>)
    ensures
        (match r {
            Ok((rest, _)) => {
                &&& block_comment_len(i@) matches Ok(n)
                &&& n <= i@.len()
                &&& rest@ == i@.skip(n as int)
            },
            Err(e) => block_comment_len(i@) == Err::<nat, ParseError>(e),
        }),
{
    let chars = to_chars(i);
    let s = chars.as_slice();
    let total = s.len();
    proof {
        reveal_strlit("/*");
        reveal_strlit("*/");
    }
    if !begins_with(s, "/*") {
        return Err(ParseError::Syntax { offset: 0, expected: Production::BlockComment });
    }
    match scan_find(skip(s, 2), "*/") {
        Some(k) => Ok((i.substring_char(4 + k, total), ())),
        None => Err(ParseError::Syntax { offset: 0, expected: Production::BlockCommentEnd }),
    }
}

/// `tail` behind `head`, or the failure that `tail` is.
pub open spec fn behind(head: Seq<char>, tail: Result<Seq<char>, ParseError>) -> Result<
    Seq<char>,
    ParseError,
> {
    match tail {
        Ok(t) => Ok(head + t),
        Err(e) => Err(e),
    }
}

/// Removes the comments from `text`.
pub fn strip_comments(text: &str) -> (r: Result<String, ParseError>)
    ensures
        (match r {
            Ok(clean) => stripped(text@) == Ok::<Seq<char>, ParseError>(clean@),
            Err(e) => stripped(text@) == Err::<Seq<char>, ParseError>(e),
        }),
{
    let chars = to_chars(text);
    let s = chars.as_slice();
    let total = s.len();
    let mut clean = String::new();
    let mut kept: usize = 0;
    let mut at: usize = 0;
    proof {
        reveal_strlit("/*");
        reveal_strlit("*/");
        reveal_strlit("//");
        assert(s@.skip(0) =~= s@);
        assert(s@.take(0) =~= Seq::<char>::empty());
        assert(clean@ + s@.subrange(0, 0) =~= Seq::<char>::empty());
        assert(Seq::<char>::empty() + stripped(s@)->Ok_0 =~= stripped(s@)->Ok_0);
    }
    while at < total
        invariant
            kept <= at <= total == s@.len(),
            s@ == text@,
            stripped(s@) == behind(
                clean@ + s@.subrange(kept as int, at as int),
                without_comments(s@.skip(at as int), s@.take(at as int)),
            ),
        decreases total - at,
    {
        let here = skip(s, at);
        let ghost before = clean@ + s@.subrange(kept as int, at as int);
        proof {
            reveal_strlit("/*");
            reveal_strlit("*/");
            reveal_strlit("//");
        }
        if begins_with(here, "/*") {
            clean.append(text.substring_char(kept, at));
            match scan_find(skip(here, 2), "*/") {
                Some(k) => {
                    proof {
                        assert(here@.skip(4 + k) =~= s@.skip(at + 4 + k));
                        assert(s@.take(at as int) + here@.take(4 + k) =~= s@.take(at + 4 + k));
                        assert(clean@ + s@.subrange(at + 4 + k, at + 4 + k) =~= before);
                    }
                    at = at + 4 + k;
                    kept = at;
                },
                None => {
                    let passed = text.substring_char(0, at);
                    assert(passed@ =~= s@.take(at as int));
                    return Err(
                        ParseError::Syntax {
                            offset: passed.len(),
                            expected: Production::BlockCommentEnd,
                        },
                    );
                },
            }
        } else if begins_with(here, "//") {
            clean.append(text.substring_char(kept, at));
            let n = 2 + scan_run(skip(here, 2), CharClass::NotLineEnd);
            proof {
                assert(here@.skip(n as int) =~= s@.skip(at + n));
                assert(s@.take(at as int) + here@.take(n as int) =~= s@.take(at + n));
                assert(clean@ + s@.subrange(at + n, at + n) =~= before);
            }
            at = at + n;
            kept = at;
        } else {
            proof {
                assert(here@.skip(1) =~= s@.skip(at + 1));
                assert(s@.subrange(kept as int, at + 1) =~= s@.subrange(kept as int, at as int)
                    + seq![here@[0]]);
                assert(s@.take(at as int).push(here@[0]) =~= s@.take(at + 1));
                let tail = without_comments(s@.skip(at + 1), s@.take(at + 1));
                if tail is Ok {
                    assert(before + (seq![here@[0]] + tail->Ok_0) =~= (clean@ + s@.subrange(
                        kept as int,
                        at + 1,
                    )) + tail->Ok_0);
                }
            }
            at = at + 1;
        }
    }
    clean.append(text.substring_char(kept, at));
    proof {
        assert(clean@ + Seq::<char>::empty() =~= clean@);
    }
    Ok(clean)
}

} // verus!
