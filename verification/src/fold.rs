//! Unicode case folding, taken from the standard library behind trusted
//! wrappers.
//!
//! The full Unicode case mappings cannot be written down here, so each one
//! gets a name: an uninterpreted spec function of the characters alone. On
//! ASCII input the mappings are the classic letter maps, and the names are
//! pinned to those maps, which is what the laws about repeated case folds
//! rest on.
use vstd::prelude::*;

use crate::ascii::ascii_lower_char;
use crate::ascii::ascii_seq;
use crate::ascii::ascii_upper_char;
use crate::ascii::is_ascii_char;
use crate::ascii::is_ascii_upper;

verus! {

/// What `str::to_lowercase` returns on a string that is not all ASCII.
pub uninterp spec fn lower_of_raw(s: Seq<char>) -> Seq<char>;

/// What `str::to_uppercase` returns on a string that is not all ASCII.
pub uninterp spec fn upper_of_raw(s: Seq<char>) -> Seq<char>;

/// What `char::to_lowercase` yields on a character outside the ASCII range.
pub uninterp spec fn lower_char_of_raw(c: char) -> Seq<char>;

/// What `char::to_uppercase` yields on a character outside the ASCII range.
pub uninterp spec fn upper_char_of_raw(c: char) -> Seq<char>;

/// What `char::is_uppercase` returns on a character outside the ASCII range.
pub uninterp spec fn char_is_upper_raw(c: char) -> bool;

/// What `str::to_lowercase` returns: on ASCII input the character-wise ASCII
/// letter map, elsewhere a function of the characters alone.
pub open spec fn lower_of(s: Seq<char>) -> Seq<char> {
    if ascii_seq(s) {
        s.map_values(|c: char| ascii_lower_char(c))
    } else {
        lower_of_raw(s)
    }
}

/// What `str::to_uppercase` returns: on ASCII input the character-wise ASCII
/// letter map, elsewhere a function of the characters alone.
pub open spec fn upper_of(s: Seq<char>) -> Seq<char> {
    if ascii_seq(s) {
        s.map_values(|c: char| ascii_upper_char(c))
    } else {
        upper_of_raw(s)
    }
}

/// What `char::to_lowercase` yields, as a sequence: one or more characters;
/// on ASCII input exactly the ASCII letter map of the character.
pub open spec fn lower_char_of(c: char) -> Seq<char> {
    if is_ascii_char(c) {
        seq![ascii_lower_char(c)]
    } else {
        lower_char_of_raw(c)
    }
}

/// What `char::to_uppercase` yields, as a sequence: one or more characters;
/// on ASCII input exactly the ASCII letter map of the character.
pub open spec fn upper_char_of(c: char) -> Seq<char> {
    if is_ascii_char(c) {
        seq![ascii_upper_char(c)]
    } else {
        upper_char_of_raw(c)
    }
}

/// What `char::is_uppercase` returns: on ASCII input, true exactly for
/// `'A'..='Z'`.
pub open spec fn char_is_upper(c: char) -> bool {
    if is_ascii_char(c) {
        is_ascii_upper(c)
    } else {
        char_is_upper_raw(c)
    }
}

/// The case toggle of one character: the first character of the lowercase
/// mapping when the character counts as uppercase, else the first character
/// of the uppercase mapping.
pub open spec fn spec_toggle_char(c: char) -> char {
    if char_is_upper(c) {
        lower_char_of(c)[0]
    } else {
        upper_char_of(c)[0]
    }
}

/// Relies on `str::to_lowercase`: the result is a function of the characters
/// alone, and on ASCII input it maps `'A'..='Z'` to `'a'..='z'` and keeps
/// every other character.
#[verifier::external_body]
pub(crate) fn lowercase_str(s: &str) -> (r: String)
    ensures
        r@ == lower_of(s@),
        !ascii_seq(s@) ==> r@ == lower_of_raw(s@),
{
    s.to_lowercase()
}

/// Relies on `str::to_uppercase`: the result is a function of the characters
/// alone, and on ASCII input it maps `'a'..='z'` to `'A'..='Z'` and keeps
/// every other character.
#[verifier::external_body]
pub(crate) fn uppercase_str(s: &str) -> (r: String)
    ensures
        r@ == upper_of(s@),
        !ascii_seq(s@) ==> r@ == upper_of_raw(s@),
{
    s.to_uppercase()
}

/// Relies on `char::to_lowercase`: yields the full lowercase mapping of the
/// character, at least one character long, a function of the character alone;
/// the ASCII letter map on ASCII input.
#[verifier::external_body]
pub(crate) fn lowercase_char_str(c: char) -> (r: String)
    ensures
        r@ == lower_char_of(c),
        !is_ascii_char(c) ==> r@ == lower_char_of_raw(c),
        r@.len() >= 1,
{
    c.to_lowercase().collect::<String>()
}

/// Relies on `char::to_uppercase`: yields the full uppercase mapping of the
/// character, at least one character long, a function of the character alone;
/// the ASCII letter map on ASCII input.
#[verifier::external_body]
pub(crate) fn uppercase_char_str(c: char) -> (r: String)
    ensures
        r@ == upper_char_of(c),
        !is_ascii_char(c) ==> r@ == upper_char_of_raw(c),
        r@.len() >= 1,
{
    c.to_uppercase().collect::<String>()
}

/// Relies on `char::to_lowercase`: the iterator yields at least one
/// character, so taking the first cannot fail.
#[verifier::external_body]
pub(crate) fn lowercase_char_first(c: char) -> (r: char)
    ensures
        r == lower_char_of(c)[0],
{
    c.to_lowercase().next().unwrap()
}

/// Relies on `char::to_uppercase`: the iterator yields at least one
/// character, so taking the first cannot fail.
#[verifier::external_body]
pub(crate) fn uppercase_char_first(c: char) -> (r: char)
    ensures
        r == upper_char_of(c)[0],
{
    c.to_uppercase().next().unwrap()
}

/// Relies on `char::is_uppercase`: the Unicode uppercase property, a function
/// of the character alone; on ASCII input true exactly for `'A'..='Z'`.
#[verifier::external_body]
pub(crate) fn char_is_uppercase(c: char) -> (r: bool)
    ensures
        r == char_is_upper(c),
        !is_ascii_char(c) ==> r == char_is_upper_raw(c),
{
    c.is_uppercase()
}

/// Toggle the case of one character, as the evaluator does it: test the
/// uppercase property, then take the first character of the opposite mapping.
pub(crate) fn toggle_char(c: char) -> (r: char)
    ensures
        r == spec_toggle_char(c),
{
    if char_is_uppercase(c) {
        lowercase_char_first(c)
    } else {
        uppercase_char_first(c)
    }
}

/// On an ASCII character the toggle is the ASCII letter map and toggling
/// twice returns the character.
pub proof fn lemma_toggle_char_ascii(c: char)
    requires
        is_ascii_char(c),
    ensures
        spec_toggle_char(c) == if is_ascii_upper(c) {
            ascii_lower_char(c)
        } else {
            ascii_upper_char(c)
        },
        is_ascii_char(spec_toggle_char(c)),
        spec_toggle_char(spec_toggle_char(c)) == c,
{
}

} // verus!
