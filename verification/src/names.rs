//! What counts as a name.

use crate::text::CharClass;
use vstd::prelude::*;

verus! {

/// Whether `s` is made of non-empty runs of `class` with a single `_`
/// between two of them: it begins and ends with a character of `class`,
/// holds nothing but such characters and `_`, and never two `_` in a row.
pub open spec fn is_segmented(s: Seq<char>, class: CharClass) -> bool {
    &&& s.len() > 0
    &&& class.has(s[0])
    &&& class.has(s.last())
    &&& forall|i: int| 0 <= i < s.len() ==> class.has(#[trigger] s[i]) || s[i] == '_'
    &&& forall|i: int| 0 <= i < s.len() - 1 ==> !(#[trigger] s[i] == '_' && s[i + 1] == '_')
}

/// Whether `s` is a field name, or a package name: at least two characters,
/// the first a lowercase letter, the last a lowercase letter or a digit,
/// and between them lowercase letters, digits and `_`, but never two `_` in
/// a row.
pub open spec fn is_field_name(s: Seq<char>) -> bool {
    &&& s.len() >= 2
    &&& CharClass::Lower.has(s[0])
    &&& CharClass::LowerOrDigit.has(s.last())
    &&& forall|i: int| 0 <= i < s.len() ==> CharClass::LowerOrDigit.has(#[trigger] s[i]) || s[i] == '_'
    &&& forall|i: int| 0 <= i < s.len() - 1 ==> !(#[trigger] s[i] == '_' && s[i + 1] == '_')
}

/// Whether `s` is a message name: an uppercase letter, then ASCII letters
/// and digits.
pub open spec fn is_message_name(s: Seq<char>) -> bool {
    &&& s.len() >= 1
    &&& CharClass::Upper.has(s[0])
    &&& forall|i: int| 1 <= i < s.len() ==> CharClass::Alphanumeric.has(#[trigger] s[i])
}

/// Whether `s` is a constant name: uppercase letters in runs with a single
/// `_` between two of them.
pub open spec fn is_constant_name(s: Seq<char>) -> bool {
    is_segmented(s, CharClass::Upper)
}

} // verus!
