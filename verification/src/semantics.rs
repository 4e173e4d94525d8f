//! The meaning of every rule, stated over character sequences. These spec
//! functions are the reference that the evaluator is proved against.
use vstd::prelude::*;

use crate::fold::lower_char_of;
use crate::fold::lower_of;
use crate::fold::spec_toggle_char;
use crate::fold::upper_char_of;
use crate::fold::upper_of;
use crate::lang::RejectRuleV;
use crate::lang::Rotation;
use crate::lang::RuleV;
use crate::lang::TransformRuleV;
use crate::lang::Truncate;
use crate::strops::byte_len;
use crate::strops::contains_seq;
use crate::strops::is_prefix;
use crate::strops::is_suffix;
use crate::strops::spec_count;
use crate::strops::spec_replace;

verus! {

/// The smaller of two mathematical integers.
pub open spec fn imin(a: int, b: int) -> int {
    if a <= b {
        a
    } else {
        b
    }
}

/// First character uppercased in full, the rest lowercased.
pub open spec fn spec_capitalize(s: Seq<char>) -> Seq<char> {
    if s.len() == 0 {
        s
    } else {
        upper_char_of(s[0]) + lower_of(s.drop_first())
    }
}

/// First character lowercased in full, the rest uppercased.
pub open spec fn spec_invert_capitalize(s: Seq<char>) -> Seq<char> {
    if s.len() == 0 {
        s
    } else {
        lower_char_of(s[0]) + upper_of(s.drop_first())
    }
}

/// Every character case-toggled.
pub open spec fn spec_toggle_all(s: Seq<char>) -> Seq<char> {
    s.map_values(|c: char| spec_toggle_char(c))
}

/// The character at position `n` case-toggled; out-of-range positions leave
/// the word unchanged.
pub open spec fn spec_toggle_at(s: Seq<char>, n: int) -> Seq<char> {
    if 0 <= n < s.len() {
        s.update(n, spec_toggle_char(s[n]))
    } else {
        s
    }
}

/// `k` copies of `s` in a row.
pub open spec fn spec_repeat(s: Seq<char>, k: int) -> Seq<char>
    decreases k,
{
    if k <= 0 {
        Seq::empty()
    } else {
        spec_repeat(s, k - 1) + s
    }
}

/// How many copies of the word a `Duplicate(n)` produces: two when `n` is
/// absent, otherwise one more than `n`.
pub open spec fn spec_dup_count(n: Option<usize>) -> int {
    match n {
        None => 2,
        Some(k) => 1 + k as int,
    }
}

/// One cyclic rotation; the empty word stays empty.
pub open spec fn spec_rotate(s: Seq<char>, d: Rotation) -> Seq<char> {
    if s.len() == 0 {
        s
    } else {
        match d {
            Rotation::Left => s.drop_first().push(s[0]),
            Rotation::Right => seq![s[s.len() - 1]] + s.drop_last(),
        }
    }
}

/// The characters at positions `a` and `b` exchanged; if the larger position
/// is out of range the word is unchanged.
pub open spec fn spec_swap(s: Seq<char>, a: int, b: int) -> Seq<char> {
    let lo = imin(a, b);
    let hi = if a <= b {
        b
    } else {
        a
    };
    if hi < s.len() {
        s.update(lo, s[hi]).update(hi, s[lo])
    } else {
        s
    }
}

/// The character at position `n` removed; out-of-range positions leave the
/// word unchanged.
pub open spec fn spec_delete(s: Seq<char>, n: int) -> Seq<char> {
    s.subrange(0, imin(n, s.len() as int)) + s.subrange(imin(n + 1, s.len() as int), s.len() as int)
}

/// The substring of length `b` starting at `a`, clamped to the word.
pub open spec fn spec_extract(s: Seq<char>, a: int, b: int) -> Seq<char> {
    s.subrange(imin(a, s.len() as int), imin(a + b, s.len() as int))
}

/// The word with `b` characters removed starting at `a`, clamped.
pub open spec fn spec_omit(s: Seq<char>, a: int, b: int) -> Seq<char> {
    s.subrange(0, imin(a, s.len() as int)) + s.subrange(imin(a + b, s.len() as int), s.len() as int)
}

/// `t` inserted before position `n`; past the end it is appended.
pub open spec fn spec_insert(s: Seq<char>, n: int, t: Seq<char>) -> Seq<char> {
    s.subrange(0, imin(n, s.len() as int)) + t + s.subrange(imin(n, s.len() as int), s.len() as int)
}

/// `t` laid over the word at position `n`: the prefix up to `n`, then `t`,
/// then what lies beyond `n` plus the byte length of `t`.
pub open spec fn spec_overwrite(s: Seq<char>, n: int, t: Seq<char>) -> Seq<char> {
    s.subrange(0, imin(n, s.len() as int)) + t + s.subrange(
        imin(n + byte_len(t), s.len() as int),
        s.len() as int,
    )
}

/// Drop the first character, drop the last, or keep the first `n`.
pub open spec fn spec_truncate(s: Seq<char>, t: Truncate) -> Seq<char> {
    match t {
        Truncate::Left => s.subrange(imin(1, s.len() as int), s.len() as int),
        Truncate::Right => if s.len() == 0 {
            s
        } else {
            s.drop_last()
        },
        Truncate::To(n) => s.subrange(0, imin(n as int, s.len() as int)),
    }
}

/// `n` copies of the first character prepended; the empty word is unchanged.
pub open spec fn spec_dup_first(s: Seq<char>, n: int) -> Seq<char> {
    if s.len() == 0 {
        s
    } else {
        Seq::new(n as nat, |i: int| s[0]) + s
    }
}

/// `n` copies of the last character appended; the empty word is unchanged.
pub open spec fn spec_dup_last(s: Seq<char>, n: int) -> Seq<char> {
    if s.len() == 0 {
        s
    } else {
        s + Seq::new(n as nat, |i: int| s[s.len() - 1])
    }
}

/// Every character doubled in place.
pub open spec fn spec_dup_all(s: Seq<char>) -> Seq<char> {
    Seq::new((2 * s.len()) as nat, |i: int| s[i / 2])
}

/// The first two characters exchanged; shorter words are unchanged.
pub open spec fn spec_swap_front(s: Seq<char>) -> Seq<char> {
    if s.len() < 2 {
        s
    } else {
        seq![s[1], s[0]] + s.subrange(2, s.len() as int)
    }
}

/// The last two characters exchanged; shorter words are unchanged.
pub open spec fn spec_swap_back(s: Seq<char>) -> Seq<char> {
    if s.len() < 2 {
        s
    } else {
        s.subrange(0, s.len() - 2) + seq![s[s.len() - 1], s[s.len() - 2]]
    }
}

/// The low byte of a character's scalar value.
pub open spec fn spec_low_byte(c: char) -> u32 {
    (c as u32) % 256
}

/// The low byte shifted left by `n mod 8` bits, as a character.
pub open spec fn spec_shl_char(c: char, n: usize) -> char {
    ((((spec_low_byte(c)) << (((n as int) % 8) as u32)) % 256) as u8) as char
}

/// The low byte shifted right by `n mod 8` bits, as a character.
pub open spec fn spec_shr_char(c: char, n: usize) -> char {
    ((((spec_low_byte(c)) >> (((n as int) % 8) as u32)) % 256) as u8) as char
}

/// The low byte plus `n`, wrapping modulo 256, as a character.
pub open spec fn spec_inc_char(c: char, n: usize) -> char {
    (((spec_low_byte(c) + ((n as int) % 256)) % 256) as u8) as char
}

/// The low byte minus `n`, wrapping modulo 256, as a character.
pub open spec fn spec_dec_char(c: char, n: usize) -> char {
    (((spec_low_byte(c) + 256 - ((n as int) % 256)) % 256) as u8) as char
}

/// The character at position `n` replaced by its right neighbour; without
/// such a neighbour the word is unchanged.
pub open spec fn spec_replace_with_next(s: Seq<char>, n: int) -> Seq<char> {
    if 0 <= n && n + 1 < s.len() {
        s.update(n, s[n + 1])
    } else {
        s
    }
}

/// The character at position `n` replaced by its left neighbour; without
/// such a neighbour the word is unchanged.
pub open spec fn spec_replace_with_prev(s: Seq<char>, n: int) -> Seq<char> {
    if 1 <= n < s.len() {
        s.update(n, s[n - 1])
    } else {
        s
    }
}

/// The first `n` characters, clamped, prepended.
pub open spec fn spec_dup_first_block(s: Seq<char>, n: int) -> Seq<char> {
    s.subrange(0, imin(n, s.len() as int)) + s
}

/// The last `n` characters, clamped, appended.
pub open spec fn spec_dup_last_block(s: Seq<char>, n: int) -> Seq<char> {
    s + s.subrange(s.len() - imin(n, s.len() as int), s.len() as int)
}

/// What one transformation makes of a word.
pub open spec fn spec_transform(t: TransformRuleV, s: Seq<char>) -> Seq<char> {
    match t {
        TransformRuleV::Lowercase => lower_of(s),
        TransformRuleV::Uppercase => upper_of(s),
        TransformRuleV::Capitalize => spec_capitalize(s),
        TransformRuleV::InvertCapitalize => spec_invert_capitalize(s),
        TransformRuleV::ToggleCase(n) => match n {
            Some(i) => spec_toggle_at(s, i as int),
            None => spec_toggle_all(s),
        },
        TransformRuleV::Reverse => s.reverse(),
        TransformRuleV::Duplicate(n) => spec_repeat(s, spec_dup_count(n)),
        TransformRuleV::Reflect => s + s.reverse(),
        TransformRuleV::Rotate(d) => spec_rotate(s, d),
        TransformRuleV::Append(t) => s + t,
        TransformRuleV::Prepend(t) => t + s,
        TransformRuleV::Delete(n) => spec_delete(s, n as int),
        TransformRuleV::Extract(a, b) => spec_extract(s, a as int, b as int),
        TransformRuleV::Omit(a, b) => spec_omit(s, a as int, b as int),
        TransformRuleV::Insert(n, t) => spec_insert(s, n as int, t),
        TransformRuleV::Overwrite(n, t) => spec_overwrite(s, n as int, t),
        TransformRuleV::Truncate(d) => spec_truncate(s, d),
        TransformRuleV::Replace(a, b) => spec_replace(s, a, b),
        TransformRuleV::Purge(t) => spec_replace(s, t, Seq::empty()),
        TransformRuleV::DuplicateFirst(n) => spec_dup_first(s, n as int),
        TransformRuleV::DuplicateLast(n) => spec_dup_last(s, n as int),
        TransformRuleV::DuplicateAll => spec_dup_all(s),
        TransformRuleV::SwapFront => spec_swap_front(s),
        TransformRuleV::SwapBack => spec_swap_back(s),
        TransformRuleV::Swap(a, b) => spec_swap(s, a as int, b as int),
        TransformRuleV::BitwiseShiftLeft(n) => s.map_values(|c: char| spec_shl_char(c, n)),
        TransformRuleV::BitwiseShiftRight(n) => s.map_values(|c: char| spec_shr_char(c, n)),
        TransformRuleV::AsciiIncrement(n) => s.map_values(|c: char| spec_inc_char(c, n)),
        TransformRuleV::AsciiDecrement(n) => s.map_values(|c: char| spec_dec_char(c, n)),
        TransformRuleV::ReplaceWithNext(n) => spec_replace_with_next(s, n as int),
        TransformRuleV::ReplaceWithPrev(n) => spec_replace_with_prev(s, n as int),
        TransformRuleV::DuplicateFirstBlock(n) => spec_dup_first_block(s, n as int),
        TransformRuleV::DuplicateLastBlock(n) => spec_dup_last_block(s, n as int),
    }
}

/// The substring of `s` at position `a` of length `m`, clamped to the word.
pub open spec fn clamped_sub(s: Seq<char>, a: int, m: int) -> Seq<char> {
    s.subrange(imin(a, s.len() as int), imin(a + m, s.len() as int))
}

/// The keep-condition of a rejection: the word survives exactly when this
/// holds.
pub open spec fn spec_keep(r: RejectRuleV, s: Seq<char>) -> bool {
    match r {
        RejectRuleV::ShorterThan(n) => byte_len(s) >= n as int,
        RejectRuleV::LongerThan(n) => byte_len(s) <= n as int,
        RejectRuleV::NotEqualTo(n) => byte_len(s) == n as int,
        RejectRuleV::Contains(t) => !contains_seq(s, t),
        RejectRuleV::NotContains(t) => contains_seq(s, t),
        RejectRuleV::NotStartsWith(t) => is_prefix(s, t),
        RejectRuleV::NotEndsWith(t) => is_suffix(s, t),
        RejectRuleV::NotEqualAt(n, t) => clamped_sub(s, n as int, byte_len(t)) == t,
        RejectRuleV::ContainsLessThan(n, t) => spec_count(s, t) >= n as int,
    }
}

/// What one rule makes of a word: `None` exactly when a rejection discards
/// it.
pub open spec fn spec_rule(r: RuleV, s: Seq<char>) -> Option<Seq<char>> {
    match r {
        RuleV::NoOp => Some(s),
        RuleV::End => Some(s),
        RuleV::Transform(t) => Some(spec_transform(t, s)),
        RuleV::Reject(j) => if spec_keep(j, s) {
            Some(s)
        } else {
            None
        },
    }
}

/// What a rule sequence makes of a word: a left fold that stops at the first
/// rejection.
pub open spec fn spec_run_all(rules: Seq<RuleV>, s: Seq<char>) -> Option<Seq<char>>
    decreases rules.len(),
{
    if rules.len() == 0 {
        Some(s)
    } else {
        match spec_rule(rules[0], s) {
            Some(t) => spec_run_all(rules.drop_first(), t),
            None => None,
        }
    }
}

/// The view of an optional word.
pub open spec fn opt_view(o: Option<String>) -> Option<Seq<char>> {
    match o {
        Some(s) => Some(s@),
        None => None,
    }
}

} // verus!
