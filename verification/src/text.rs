//! Character-level access to input text: the classes of characters that the
//! grammar is written in, and runs of characters of one class.

use vstd::prelude::*;
use vstd::slice::slice_subrange;
use vstd::string::*;
use vstd::utf8::{encode_utf8, is_ascii_chars, is_ascii_chars_encode_utf8};

verus! {

/// A class of characters.
#[derive(Clone, Copy, Debug, PartialEq, Eq, Structural)]
pub enum CharClass {
    /// `a` to `z`.
    Lower,
    /// `A` to `Z`.
    Upper,
    /// `a` to `z` and `0` to `9`.
    LowerOrDigit,
    /// ASCII letters and digits.
    Alphanumeric,
    /// `0` and `1`.
    BinDigit,
    /// `0`, `1` and the separator `_`.
    BinDigitOrSeparator,
    /// `0` to `7`.
    OctDigit,
    /// `0` to `9`.
    DecDigit,
    /// `0` to `9`, `a` to `f` and `A` to `F`.
    HexDigit,
    /// The space and the tab.
    Blank,
    /// The space, the tab and the carriage return.
    Padding,
    /// Everything but the line feed and the carriage return.
    NotLineEnd,
    /// Everything but the line feed.
    NotLineFeed,
}

impl CharClass {
    /// Whether `c` belongs to the class.
    pub open spec fn has(self, c: char) -> bool {
        match self {
            CharClass::Lower => 'a' <= c <= 'z',
            CharClass::Upper => 'A' <= c <= 'Z',
            CharClass::LowerOrDigit => 'a' <= c <= 'z' || '0' <= c <= '9',
            CharClass::Alphanumeric => 'a' <= c <= 'z' || 'A' <= c <= 'Z' || '0' <= c <= '9',
            CharClass::BinDigit => c == '0' || c == '1',
            CharClass::BinDigitOrSeparator => c == '0' || c == '1' || c == '_',
            CharClass::OctDigit => '0' <= c <= '7',
            CharClass::DecDigit => '0' <= c <= '9',
            CharClass::HexDigit => '0' <= c <= '9' || 'a' <= c <= 'f' || 'A' <= c <= 'F',
            CharClass::Blank => c == ' ' || c == '\t',
            CharClass::Padding => c == ' ' || c == '\t' || c == '\r',
            CharClass::NotLineEnd => c != '\n' && c != '\r',
            CharClass::NotLineFeed => c != '\n',
        }
    }

    /// Tests whether `c` belongs to the class.
    pub fn contains(self, c: char) -> (b: bool)
        ensures
            b == self.has(c),
    {
        match self {
            CharClass::Lower => 'a' <= c && c <= 'z',
            CharClass::Upper => 'A' <= c && c <= 'Z',
            CharClass::LowerOrDigit => ('a' <= c && c <= 'z') || ('0' <= c && c <= '9'),
            CharClass::Alphanumeric => ('a' <= c && c <= 'z') || ('A' <= c && c <= 'Z') || ('0'
                <= c && c <= '9'),
            CharClass::BinDigit => c == '0' || c == '1',
            CharClass::BinDigitOrSeparator => c == '0' || c == '1' || c == '_',
            CharClass::OctDigit => '0' <= c && c <= '7',
            CharClass::DecDigit => '0' <= c && c <= '9',
            CharClass::HexDigit => ('0' <= c && c <= '9') || ('a' <= c && c <= 'f') || ('A' <= c
                && c <= 'F'),
            CharClass::Blank => c == ' ' || c == '\t',
            CharClass::Padding => c == ' ' || c == '\t' || c == '\r',
            CharClass::NotLineEnd => c != '\n' && c != '\r',
            CharClass::NotLineFeed => c != '\n',
        }
    }
}

/// The number of characters at the front of `s` that belong to `class`: the
/// length of the longest prefix made of the class alone.
pub open spec fn run_len(s: Seq<char>, class: CharClass) -> nat
    decreases s.len(),
{
    if s.len() > 0 && class.has(s[0]) {
        1 + run_len(s.skip(1), class)
    } else {
        0
    }
}

/// `run_len` is the one length `n` at which the first `n` characters are of
/// the class and the next one, if there is one, is not.
pub proof fn lemma_run_len(s: Seq<char>, class: CharClass, n: int)
    requires
        0 <= n <= s.len(),
        forall|i: int| 0 <= i < n ==> class.has(#[trigger] s[i]),
        n < s.len() ==> !class.has(s[n]),
    ensures
        run_len(s, class) == n,
    decreases n,
{
    if n > 0 {
        let t = s.skip(1);
        assert forall|i: int| 0 <= i < n - 1 implies class.has(#[trigger] t[i]) by {
            assert(t[i] == s[i + 1]);
        }
        lemma_run_len(t, class, n - 1);
    }
}

/// What `run_len` says of the characters it counts, and of the one after.
pub proof fn lemma_run_len_bounds(s: Seq<char>, class: CharClass)
    ensures
        run_len(s, class) <= s.len(),
        forall|i: int| 0 <= i < run_len(s, class) ==> class.has(#[trigger] s[i]),
        run_len(s, class) < s.len() ==> !class.has(s[run_len(s, class) as int]),
    decreases s.len(),
{
    if s.len() > 0 && class.has(s[0]) {
        let t = s.skip(1);
        lemma_run_len_bounds(t, class);
        assert forall|i: int| 0 <= i < run_len(s, class) implies class.has(#[trigger] s[i]) by {
            if i > 0 {
                assert(s[i] == t[i - 1]);
            }
        }
        if run_len(s, class) < s.len() {
            assert(s[run_len(s, class) as int] == t[run_len(t, class) as int]);
        }
    }
}

/// A run is counted in a prefix as far as the prefix goes.
pub proof fn lemma_run_len_take(s: Seq<char>, class: CharClass, k: int)
    requires
        0 <= k <= s.len(),
    ensures
        (run_len(s.take(k), class) == if k <= run_len(s, class) {
            k
        } else {
            run_len(s, class) as int
        }),
{
    lemma_run_len_bounds(s, class);
    let t = s.take(k);
    let n = if k <= run_len(s, class) {
        k
    } else {
        run_len(s, class) as int
    };
    assert forall|i: int| 0 <= i < n implies class.has(#[trigger] t[i]) by {
        assert(t[i] == s[i]);
    }
    if n < t.len() {
        assert(t[n] == s[n]);
    }
    lemma_run_len(t, class, n);
}

/// The number of bytes that the first `k` characters of `s` take in UTF-8.
pub open spec fn byte_offset(s: Seq<char>, k: nat) -> nat {
    encode_utf8(s.take(k as int)).len()
}

/// Whether the first `k` characters of `s` are ASCII.
pub open spec fn ascii_before(s: Seq<char>, k: nat) -> bool {
    k <= s.len() && is_ascii_chars(s.take(k as int))
}

/// Whether all the characters of the class are ASCII.
pub open spec fn is_ascii_class(class: CharClass) -> bool {
    !(class is NotLineEnd || class is NotLineFeed)
}

/// Behind ASCII characters, bytes are counted as characters are.
pub proof fn lemma_ascii_offset(s: Seq<char>, k: nat)
    requires
        ascii_before(s, k),
    ensures
        byte_offset(s, k) == k,
{
    is_ascii_chars_encode_utf8(s.take(k as int));
}

/// A run of an ASCII class behind ASCII characters leaves ASCII characters
/// before its end.
pub proof fn lemma_ascii_run(s: Seq<char>, from: nat, class: CharClass)
    requires
        ascii_before(s, from),
        is_ascii_class(class),
    ensures
        ascii_before(s, from + run_len(s.skip(from as int), class)),
{
    let behind = s.skip(from as int);
    lemma_run_len_bounds(behind, class);
    let to = from + run_len(behind, class);
    let t = s.take(to as int);
    assert forall|i: int| 0 <= i < t.len() implies '\0' <= #[trigger] t[i] <= '\u{7f}' by {
        if i < from {
            assert(t[i] == s.take(from as int)[i]);
        } else {
            assert(t[i] == behind[i - from]);
        }
    }
}

/// ASCII characters behind ASCII characters leave ASCII characters before
/// their end.
pub proof fn lemma_ascii_more(s: Seq<char>, from: nat, to: nat)
    requires
        ascii_before(s, from),
        from <= to <= s.len(),
        forall|i: int| from <= i < to ==> '\0' <= #[trigger] s[i] <= '\u{7f}',
    ensures
        ascii_before(s, to),
{
    let t = s.take(to as int);
    assert forall|i: int| 0 <= i < t.len() implies '\0' <= #[trigger] t[i] <= '\u{7f}' by {
        if i < from {
            assert(t[i] == s.take(from as int)[i]);
        }
    }
}

/// An ASCII word at the front of `s` leaves ASCII characters before its
/// end.
pub proof fn lemma_ascii_word(s: Seq<char>, word: Seq<char>)
    requires
        starts_with(s, word),
        is_ascii_chars(word),
    ensures
        ascii_before(s, word.len()),
{
}

/// Whether `s` begins with `word`.
pub open spec fn starts_with(s: Seq<char>, word: Seq<char>) -> bool {
    word.len() <= s.len() && s.take(word.len() as int) == word
}

/// The characters of `text`, in order.
pub fn to_chars(text: &str) -> (chars: Vec<char>)
    ensures
        chars@ == text@,
{
    let mut chars: Vec<char> = Vec::new();
    for c in it: text.chars()
        invariant
            chars@ == it.seq().take(it.index() as int),
            it.seq() == text@,
    {
        chars.push(c);
    }
    chars
}

/// What is left of `s` after its first `n` characters.
pub fn skip(s: &[char], n: usize) -> (rest: &[char])
    requires
        n <= s@.len(),
    ensures
        rest@ == s@.skip(n as int),
{
    slice_subrange(s, n, s.len())
}

/// Counts the characters at the front of `s` that belong to `class`.
pub fn scan_run(s: &[char], class: CharClass) -> (n: usize)
    ensures
        n == run_len(s@, class),
        n <= s@.len(),
{
    let mut n: usize = 0;
    while n < s.len() && class.contains(s[n])
        invariant
            n <= s@.len(),
            forall|i: int| 0 <= i < n ==> class.has(#[trigger] s@[i]),
        decreases s@.len() - n,
    {
        n += 1;
    }
    proof {
        lemma_run_len(s@, class, n as int);
    }
    n
}

/// Tests whether `s` begins with `word`.
pub fn begins_with(s: &[char], word: &str) -> (b: bool)
    ensures
        b == starts_with(s@, word@),
{
    let w = to_chars(word);
    if w.len() > s.len() {
        return false;
    }
    let mut i: usize = 0;
    while i < w.len()
        invariant
            i <= w@.len() <= s@.len(),
            w@ == word@,
            forall|j: int| 0 <= j < i ==> s@[j] == w@[j],
        decreases w@.len() - i,
    {
        if s[i] != w[i] {
            assert(s@.take(w@.len() as int)[i as int] != w@[i as int]);
            return false;
        }
        i += 1;
    }
    assert(s@.take(w@.len() as int) =~= w@);
    true
}

/// Tests whether `s` is `word`.
pub fn str_equal(s: &[char], word: &str) -> (b: bool)
    ensures
        b == (s@ == word@),
{
    let b = begins_with(s, word);
    let n = word.unicode_len();
    proof {
        if s@.len() == word@.len() {
            assert(s@.take(word@.len() as int) =~= s@);
        }
    }
    b && s.len() == n
}

} // verus!
