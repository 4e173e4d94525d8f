//! ASCII character facts used by the case-folding contracts and the laws
//! about repeated case folds.
use vstd::prelude::*;

verus! {

/// True when `c` lies in the ASCII range.
pub open spec fn is_ascii_char(c: char) -> bool {
    (c as u32) < 128
}

/// True when every character of `s` lies in the ASCII range.
pub open spec fn ascii_seq(s: Seq<char>) -> bool {
    forall|i: int| 0 <= i < s.len() ==> is_ascii_char(#[trigger] s[i])
}

/// The ASCII lowercase mapping: `'A'..='Z'` to `'a'..='z'`, everything else
/// unchanged.
pub open spec fn ascii_lower_char(c: char) -> char {
    if 65 <= c as u32 <= 90 {
        ((c as u32) + 32) as char
    } else {
        c
    }
}

/// The ASCII uppercase mapping: `'a'..='z'` to `'A'..='Z'`, everything else
/// unchanged.
pub open spec fn ascii_upper_char(c: char) -> char {
    if 97 <= c as u32 <= 122 {
        ((c as u32) - 32) as char
    } else {
        c
    }
}

/// True when `c` is an ASCII uppercase letter.
pub open spec fn is_ascii_upper(c: char) -> bool {
    65 <= c as u32 <= 90
}

/// Lowering an ASCII character yields an ASCII character, and the mapping is
/// idempotent.
pub proof fn lemma_ascii_lower_props(c: char)
    requires
        is_ascii_char(c),
    ensures
        is_ascii_char(ascii_lower_char(c)),
        ascii_lower_char(ascii_lower_char(c)) == ascii_lower_char(c),
{
}

/// Raising an ASCII character yields an ASCII character, and the mapping is
/// idempotent.
pub proof fn lemma_ascii_upper_props(c: char)
    requires
        is_ascii_char(c),
    ensures
        is_ascii_char(ascii_upper_char(c)),
        ascii_upper_char(ascii_upper_char(c)) == ascii_upper_char(c),
{
}

} // verus!
