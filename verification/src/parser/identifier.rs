//! Names: of packages, fields, messages and constants.

use crate::error::{ParseError, Production};
use crate::names::{is_constant_name, is_field_name, is_message_name, is_segmented};
use crate::text::{lemma_run_len_bounds, run_len, scan_run, skip, to_chars, CharClass};
use vstd::prelude::*;
use vstd::string::*;

verus! {

/// The length of what follows the first segment of a name: as many times as
/// possible, one `_` and a non-empty run of `class`.
pub open spec fn more_segments_len(s: Seq<char>, class: CharClass) -> nat
    decreases s.len(),
    via more_segments_len_decreases
{
    if s.len() > 0 && s[0] == '_' && run_len(s.skip(1), class) > 0 {
        let n = 1 + run_len(s.skip(1), class);
        n + more_segments_len(s.skip(n as int), class)
    } else {
        0
    }
}

#[via_fn]
proof fn more_segments_len_decreases(s: Seq<char>, class: CharClass) {
    if s.len() > 0 {
        lemma_run_len_bounds(s.skip(1), class);
    }
}

/// The length of the longest prefix of `s` made of non-empty runs of `class`
/// with a single `_` between two of them; `None` where `s` does not begin
/// with a character of `class`.
pub open spec fn segments_len(s: Seq<char>, class: CharClass) -> Option<nat> {
    let first = run_len(s, class);
    if first == 0 {
        None
    } else {
        Some(first + more_segments_len(s.skip(first as int), class))
    }
}

/// The length of the field name (or package name) at the front of `s`: a
/// lowercase letter, at most one `_`, then lowercase alphanumeric segments.
pub open spec fn field_name_len(s: Seq<char>) -> Option<nat> {
    if s.len() > 0 && CharClass::Lower.has(s[0]) {
        let head: nat = if s.len() > 1 && s[1] == '_' {
            2
        } else {
            1
        };
        match segments_len(s.skip(head as int), CharClass::LowerOrDigit) {
            Some(n) => Some(head + n),
            None => None,
        }
    } else {
        None
    }
}

/// The length of the message name at the front of `s`: an uppercase letter
/// and the ASCII letters and digits that follow it.
pub open spec fn message_name_len(s: Seq<char>) -> Option<nat> {
    if s.len() > 0 && CharClass::Upper.has(s[0]) {
        Some(1 + run_len(s.skip(1), CharClass::Alphanumeric))
    } else {
        None
    }
}

/// The length of the constant name at the front of `s`: runs of uppercase
/// letters with a single `_` between two of them.
pub open spec fn constant_name_len(s: Seq<char>) -> Option<nat> {
    segments_len(s, CharClass::Upper)
}

/// What a production that reads one token hands back: on a match of length
/// `n`, the first `n` characters of `input` and the rest of it; where
/// nothing matches, a failure at the front of the input.
pub open spec fn token_outcome(
    r: Result<(&str, &str), ParseError>,
    input: Seq<char>,
    len: Option<nat>,
    expected: Production,
) -> bool {
    match r {
        Ok((rest, token)) => {
            &&& len == Some(token@.len())
            &&& token@ == input.take(token@.len() as int)
            &&& rest@ == input.skip(token@.len() as int)
        },
        Err(e) => len is None && e == (ParseError::Syntax { offset: 0, expected }),
    }
}

/// What follows the first segment lies inside the input.
pub proof fn lemma_more_segments_len_bound(s: Seq<char>, class: CharClass)
    ensures
        more_segments_len(s, class) <= s.len(),
    decreases s.len(),
{
    if s.len() > 0 && s[0] == '_' && run_len(s.skip(1), class) > 0 {
        let n = 1 + run_len(s.skip(1), class);
        lemma_run_len_bounds(s.skip(1), class);
        lemma_more_segments_len_bound(s.skip(n as int), class);
    }
}

/// A match lies inside the input.
pub proof fn lemma_segments_len_bound(s: Seq<char>, class: CharClass)
    ensures
        segments_len(s, class) matches Some(n) ==> 0 < n <= s.len(),
{
    lemma_run_len_bounds(s, class);
    lemma_more_segments_len_bound(s.skip(run_len(s, class) as int), class);
}

/// Whether `s` is empty or a `_` before runs of `class` with a single `_`
/// between two of them.
pub open spec fn is_segment_tail(s: Seq<char>, class: CharClass) -> bool {
    s.len() > 0 ==> s[0] == '_' && is_segmented(s.skip(1), class)
}

/// What `more_segments_len` measures is a tail of segments, and what
/// follows it in `s` does not go on with it.
pub proof fn lemma_more_segments_shape(s: Seq<char>, class: CharClass)
    requires
        !class.has('_'),
    ensures
        ({
            let n = more_segments_len(s, class) as int;
            &&& n <= s.len()
            &&& is_segment_tail(s.take(n), class)
            &&& 0 < n < s.len() ==> !class.has(s[n])
            &&& n + 1 < s.len() ==> !(s[n] == '_' && class.has(s[n + 1]))
        }),
    decreases s.len(),
{
    let n = more_segments_len(s, class) as int;
    if s.len() > 0 && s[0] == '_' && run_len(s.skip(1), class) > 0 {
        let run = run_len(s.skip(1), class) as int;
        let first = 1 + run;
        let rest = s.skip(first);
        lemma_run_len_bounds(s.skip(1), class);
        lemma_more_segments_shape(rest, class);
        let m = more_segments_len(rest, class) as int;
        let body = s.take(n).skip(1);
        assert forall|i: int| 0 <= i < body.len() implies class.has(#[trigger] body[i]) || body[i]
            == '_' by {
            if i < run {
                assert(body[i] == s.skip(1)[i]);
            } else {
                assert(body[i] == rest.take(m as int)[i - run]);
                if i - run > 0 {
                    assert(rest.take(m as int)[i - run] == rest.take(m as int).skip(1)[i - run
                        - 1]);
                }
            }
        }
        assert forall|i: int| 0 <= i < body.len() - 1 implies !(#[trigger] body[i] == '_' && body[i
            + 1] == '_') by {
            if i < run {
                assert(body[i] == s.skip(1)[i]);
            } else if i == run {
                assert(body[i + 1] == rest.take(m as int).skip(1)[0]);
            } else {
                assert(body[i] == rest.take(m as int).skip(1)[i - run - 1]);
                assert(body[i + 1] == rest.take(m as int).skip(1)[i - run]);
            }
        }
        assert(body[0] == s.skip(1)[0]);
        if m == 0 {
            assert(body.last() == s.skip(1)[run - 1]);
        } else {
            assert(body.last() == rest.take(m as int).skip(1).last());
        }
        if n < s.len() {
            assert(s[n] == rest[m]);
            assert(rest[0] == s.skip(1)[run]);
        }
        if n + 1 < s.len() {
            assert(s[n + 1] == rest[m + 1]);
        }
    } else {
        if s.len() > 1 && s[0] == '_' {
            assert(s.skip(1)[0] == s[1]);
        }
    }
}

/// What `segments_len` measures is segmented, and what follows it in `s`
/// does not go on with it: the match is the longest there is.
pub proof fn lemma_segments_shape(s: Seq<char>, class: CharClass)
    requires
        !class.has('_'),
    ensures
        (segments_len(s, class) matches Some(n) ==> {
            &&& n <= s.len()
            &&& is_segmented(s.take(n as int), class)
            &&& n < s.len() ==> !class.has(s[n as int])
            &&& n + 1 < s.len() ==> !(s[n as int] == '_' && class.has(s[(n + 1) as int]))
        }),
        segments_len(s, class) is None <==> !(s.len() > 0 && class.has(s[0])),
{
    let run = run_len(s, class) as int;
    lemma_run_len_bounds(s, class);
    if run > 0 {
        let rest = s.skip(run);
        lemma_more_segments_shape(rest, class);
        let m = more_segments_len(rest, class) as int;
        let n = run + m;
        let t = s.take(n);
        assert forall|i: int| 0 <= i < t.len() implies class.has(#[trigger] t[i]) || t[i]
            == '_' by {
            if i >= run {
                assert(t[i] == rest.take(m as int)[i - run]);
                if i - run > 0 {
                    assert(rest.take(m as int)[i - run] == rest.take(m as int).skip(1)[i - run
                        - 1]);
                }
            }
        }
        assert forall|i: int| 0 <= i < t.len() - 1 implies !(#[trigger] t[i] == '_' && t[i + 1]
            == '_') by {
            if i + 1 < run {
            } else if i + 1 == run {
            } else if i == run {
                assert(t[i + 1] == rest.take(m as int).skip(1)[0]);
            } else {
                assert(t[i] == rest.take(m as int).skip(1)[i - run - 1]);
                assert(t[i + 1] == rest.take(m as int).skip(1)[i - run]);
            }
        }
        if m > 0 {
            assert(t.last() == rest.take(m as int).skip(1).last());
        }
        if n < s.len() {
            assert(s[n] == rest[m]);
        }
        if n + 1 < s.len() {
            assert(s[n + 1] == rest[m + 1]);
        }
    }
}

/// A tail of segments is measured whole.
pub proof fn lemma_segment_tail_is_read(s: Seq<char>, class: CharClass)
    requires
        !class.has('_'),
        is_segment_tail(s, class),
    ensures
        more_segments_len(s, class) == s.len(),
    decreases s.len(),
{
    if s.len() > 0 {
        let body = s.skip(1);
        let run = run_len(body, class) as int;
        lemma_run_len_bounds(body, class);
        let rest = s.skip(1 + run);
        assert(rest =~= body.skip(run));
        if rest.len() > 0 {
            assert(rest[0] == body[run as int]);
            assert(rest[0] == '_');
            let tail = rest.skip(1);
            assert(tail.len() > 0) by {
                if tail.len() == 0 {
                    assert(body.last() == rest[0]);
                }
            }
            assert(tail[0] == body[run + 1]);
            assert(tail.last() == body.last());
            assert forall|i: int| 0 <= i < tail.len() implies class.has(#[trigger] tail[i])
                || tail[i] == '_' by {
                assert(tail[i] == body[run + 1 + i]);
            }
            assert forall|i: int| 0 <= i < tail.len() - 1 implies !(#[trigger] tail[i] == '_'
                && tail[i + 1] == '_') by {
                assert(tail[i] == body[run + 1 + i]);
                assert(tail[i + 1] == body[run + 1 + i + 1]);
            }
        }
        lemma_segment_tail_is_read(rest, class);
    }
}

/// A segmented text is measured whole.
pub proof fn lemma_segmented_is_read(s: Seq<char>, class: CharClass)
    requires
        !class.has('_'),
        is_segmented(s, class),
    ensures
        segments_len(s, class) == Some(s.len()),
{
    let run = run_len(s, class) as int;
    lemma_run_len_bounds(s, class);
    let rest = s.skip(run);
    if rest.len() > 0 {
        assert(rest[0] == s[run]);
        let tail = rest.skip(1);
        assert(tail.len() > 0) by {
            if tail.len() == 0 {
                assert(s.last() == rest[0]);
            }
        }
        assert(tail[0] == s[run + 1]);
        assert(tail.last() == s.last());
        assert forall|i: int| 0 <= i < tail.len() implies class.has(#[trigger] tail[i]) || tail[i]
            == '_' by {
            assert(tail[i] == s[run + 1 + i]);
        }
        assert forall|i: int| 0 <= i < tail.len() - 1 implies !(#[trigger] tail[i] == '_'
            && tail[i + 1] == '_') by {
            assert(tail[i] == s[run + 1 + i]);
            assert(tail[i + 1] == s[run + 1 + i + 1]);
        }
    }
    lemma_segment_tail_is_read(rest, class);
}

/// The field names are what `field_name_len` reads: a match is a field
/// name, and a field name is read whole.
pub proof fn lemma_field_name(s: Seq<char>)
    ensures
        field_name_len(s) matches Some(n) ==> n <= s.len() && is_field_name(s.take(n as int)),
        is_field_name(s) ==> field_name_len(s) == Some(s.len()),
        field_name_len(s) is Some ==> CharClass::Lower.has(s[0]),
{
    let class = CharClass::LowerOrDigit;
    if s.len() > 0 && CharClass::Lower.has(s[0]) {
        let head: int = if s.len() > 1 && s[1] == '_' {
            2
        } else {
            1
        };
        let rest = s.skip(head);
        lemma_segments_shape(rest, class);
        if let Some(len) = segments_len(rest, class) {
            let m = len as int;
            let n = head + m;
            let t = s.take(n);
            let u = rest.take(m);
            assert forall|i: int| 0 <= i < t.len() implies class.has(#[trigger] t[i]) || t[i]
                == '_' by {
                if i >= head {
                    assert(t[i] == u[i - head]);
                }
            }
            assert forall|i: int| 0 <= i < t.len() - 1 implies !(#[trigger] t[i] == '_' && t[i
                + 1] == '_') by {
                if i >= head {
                    assert(t[i] == u[i - head]);
                    assert(t[i + 1] == u[i + 1 - head]);
                } else if i == head - 1 {
                    assert(t[i + 1] == u[0]);
                }
            }
            assert(t.last() == u.last());
        }
        if is_field_name(s) {
            assert(rest.len() > 0);
            assert(rest[0] == s[head]);
            assert(rest.last() == s.last());
            assert forall|i: int| 0 <= i < rest.len() implies class.has(#[trigger] rest[i])
                || rest[i] == '_' by {
                assert(rest[i] == s[head + i]);
            }
            assert forall|i: int| 0 <= i < rest.len() - 1 implies !(#[trigger] rest[i] == '_'
                && rest[i + 1] == '_') by {
                assert(rest[i] == s[head + i]);
                assert(rest[i + 1] == s[head + i + 1]);
            }
            if head == 2 {
                assert(s[1] == '_');
                assert(!(s[1] == '_' && s[2] == '_'));
            }
            lemma_segmented_is_read(rest, class);
        }
    }
}

/// The message names are what `message_name_len` reads.
pub proof fn lemma_message_name(s: Seq<char>)
    ensures
        message_name_len(s) matches Some(n) ==> n <= s.len() && is_message_name(s.take(n as int)),
        is_message_name(s) ==> message_name_len(s) == Some(s.len()),
        message_name_len(s) is Some ==> CharClass::Upper.has(s[0]),
{
    if s.len() > 0 && CharClass::Upper.has(s[0]) {
        let rest = s.skip(1);
        lemma_run_len_bounds(rest, CharClass::Alphanumeric);
        let n = 1 + run_len(rest, CharClass::Alphanumeric) as int;
        let t = s.take(n);
        assert forall|i: int| 1 <= i < t.len() implies CharClass::Alphanumeric.has(
            #[trigger] t[i],
        ) by {
            assert(t[i] == rest[i - 1]);
        }
        if is_message_name(s) {
            assert forall|i: int| 0 <= i < rest.len() implies CharClass::Alphanumeric.has(
                #[trigger] rest[i],
            ) by {
                assert(rest[i] == s[i + 1]);
            }
            crate::text::lemma_run_len(rest, CharClass::Alphanumeric, rest.len() as int);
        }
    }
}

/// The constant names are what `constant_name_len` reads.
pub proof fn lemma_constant_name(s: Seq<char>)
    ensures
        constant_name_len(s) matches Some(n) ==> n <= s.len() && is_constant_name(
            s.take(n as int),
        ),
        is_constant_name(s) ==> constant_name_len(s) == Some(s.len()),
        constant_name_len(s) is Some ==> CharClass::Upper.has(s[0]),
{
    lemma_segments_shape(s, CharClass::Upper);
    if is_constant_name(s) {
        lemma_segmented_is_read(s, CharClass::Upper);
    }
}

/// Measures `more_segments_len`.
fn scan_more_segments(s: &[char], class: CharClass) -> (n: usize)
    ensures
        n == more_segments_len(s@, class),
{
    let total = s.len();
    let mut n: usize = 0;
    assert(s@.skip(0) =~= s@);
    loop
        invariant
            n <= s@.len() == total,
            more_segments_len(s@, class) == n + more_segments_len(s@.skip(n as int), class),
        decreases s@.len() - n,
    {
        let rest = skip(s, n);
        if rest.len() == 0 || rest[0] != '_' {
            return n;
        }
        let run = scan_run(skip(rest, 1), class);
        if run == 0 {
            return n;
        }
        proof {
            lemma_run_len_bounds(rest@.skip(1), class);
            assert(rest@.skip(1 + run as int) =~= s@.skip(n + 1 + run as int));
        }
        n = n + 1 + run;
    }
}

/// Measures `segments_len`.
pub fn scan_segments(s: &[char], class: CharClass) -> (r: Option<usize>)
    ensures
        r matches Some(n) ==> segments_len(s@, class) == Some(n as nat) && n <= s@.len(),
        r is None ==> segments_len(s@, class) is None,
{
    let total = s.len();
    let first = scan_run(s, class);
    if first == 0 {
        return None;
    }
    proof {
        lemma_run_len_bounds(s@, class);
        lemma_more_segments_len_bound(s@.skip(first as int), class);
    }
    let more = scan_more_segments(skip(s, first), class);
    Some(first + more)
}

/// Measures `field_name_len`.
pub fn scan_field_name(s: &[char]) -> (r: Option<usize>)
    ensures
        r matches Some(n) ==> field_name_len(s@) == Some(n as nat) && n <= s@.len(),
        r is None ==> field_name_len(s@) is None,
{
    if s.len() == 0 || !CharClass::Lower.contains(s[0]) {
        return None;
    }
    let head: usize = if s.len() > 1 && s[1] == '_' {
        2
    } else {
        1
    };
    proof {
        lemma_segments_len_bound(s@.skip(head as int), CharClass::LowerOrDigit);
    }
    match scan_segments(skip(s, head), CharClass::LowerOrDigit) {
        Some(n) => Some(head + n),
        None => None,
    }
}

/// Measures `message_name_len`.
pub fn scan_message_name(s: &[char]) -> (r: Option<usize>)
    ensures
        r matches Some(n) ==> message_name_len(s@) == Some(n as nat) && n <= s@.len(),
        r is None ==> message_name_len(s@) is None,
{
    if s.len() == 0 || !CharClass::Upper.contains(s[0]) {
        return None;
    }
    proof {
        lemma_run_len_bounds(s@.skip(1), CharClass::Alphanumeric);
    }
    Some(1 + scan_run(skip(s, 1), CharClass::Alphanumeric))
}

/// Measures `constant_name_len`.
pub fn scan_constant_name(s: &[char]) -> (r: Option<usize>)
    ensures
        r matches Some(n) ==> constant_name_len(s@) == Some(n as nat) && n <= s@.len(),
        r is None ==> constant_name_len(s@) is None,
{
    proof {
        lemma_segments_len_bound(s@, CharClass::Upper);
    }
    scan_segments(s, CharClass::Upper)
}

/// Cuts `input` after the token that `len` measures, or fails for want of
/// one.
pub fn cut_token<'a>(input: &'a str, len: Option<usize>, expected: Production) -> (r: Result<
    (&'a str, &'a str),
    ParseError,
>)
    requires
        len matches Some(n) ==> n <= input@.len(),
    ensures
        token_outcome(
            r,
            input@,
            match len {
                Some(n) => Some(n as nat),
                None => None,
            },
            expected,
        ),
{
    match len {
        Some(n) => {
            let total = input.unicode_len();
            let token = input.substring_char(0, n);
            let rest = input.substring_char(n, total);
            Ok((rest, token))
        },
        None => Err(ParseError::Syntax { offset: 0, expected }),
    }
}

/// Reads a package name: a lowercase letter, at most one `_`, then runs of
/// lowercase letters and digits with a single `_` between two of them.
pub fn package_name<'a>(i: &'a str) -> (r: Result<(&'a str, &'a str), ParseError>)
    ensures
        token_outcome(r, i@, field_name_len(i@), Production::PackageName),
{
    let chars = to_chars(i);
    cut_token(i, scan_field_name(chars.as_slice()), Production::PackageName)
}

/// Reads a field name: a lowercase letter, at most one `_`, then runs of
/// lowercase letters and digits with a single `_` between two of them.
pub fn field_name<'a>(i: &'a str) -> (r: Result<(&'a str, &'a str), ParseError>)
    ensures
        token_outcome(r, i@, field_name_len(i@), Production::FieldName),
{
    let chars = to_chars(i);
    cut_token(i, scan_field_name(chars.as_slice()), Production::FieldName)
}

/// Reads a message name: an uppercase letter, then ASCII letters and digits.
pub fn message_name<'a>(i: &'a str) -> (r: Result<(&'a str, &'a str), ParseError>)
    ensures
        token_outcome(r, i@, message_name_len(i@), Production::MessageName),
{
    let chars = to_chars(i);
    cut_token(i, scan_message_name(chars.as_slice()), Production::MessageName)
}

/// Reads a constant name: runs of uppercase letters with a single `_`
/// between two of them.
pub fn constant_name<'a>(i: &'a str) -> (r: Result<(&'a str, &'a str), ParseError>)
    ensures
        token_outcome(r, i@, constant_name_len(i@), Production::ConstantName),
{
    let chars = to_chars(i);
    cut_token(i, scan_constant_name(chars.as_slice()), Production::ConstantName)
}

} // verus!
