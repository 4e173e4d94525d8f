//! Laws of the rule algebra: involutions and idempotence of single
//! transformations, and preservation of meaning by the simplifier.
//!
//! Unicode case folding beyond ASCII is only named, not defined, so the laws
//! about repeated case folds are stated for ASCII words, where the folds are
//! pinned down; toggling twice genuinely fails to restore some non-ASCII
//! words.
use vstd::prelude::*;

use crate::ascii::ascii_lower_char;
use crate::lang::RuleV;
use crate::semantics::spec_rule;
use crate::semantics::spec_run_all;
use crate::strops::spec_find;
use crate::strops::spec_replace_from;
use crate::ascii::ascii_seq;
use crate::ascii::ascii_upper_char;
use crate::ascii::is_ascii_char;
use crate::ascii::lemma_ascii_lower_props;
use crate::ascii::lemma_ascii_upper_props;
use crate::fold::lemma_toggle_char_ascii;
use crate::fold::spec_toggle_char;
use crate::lang::TransformRuleV;
use crate::semantics::spec_transform;

verus! {

/// Reverse is an involution: reversing a word twice returns it unchanged.
pub proof fn lemma_reverse_involution(s: Seq<char>)
    ensures
        spec_transform(TransformRuleV::Reverse, spec_transform(TransformRuleV::Reverse, s)) == s,
{
    assert(s.reverse().reverse() =~= s);
}

/// Toggling the case twice, at one position or everywhere, returns an ASCII
/// word unchanged.
pub proof fn lemma_toggle_involution(s: Seq<char>, n: Option<usize>)
    requires
        ascii_seq(s),
    ensures
        spec_transform(
            TransformRuleV::ToggleCase(n),
            spec_transform(TransformRuleV::ToggleCase(n), s),
        ) == s,
{
    match n {
        None => {
            let once = crate::semantics::spec_toggle_all(s);
            assert forall|i: int| 0 <= i < once.len() implies is_ascii_char(#[trigger] once[i])
                && spec_toggle_char(once[i]) == s[i] by {
                lemma_toggle_char_ascii(s[i]);
            }
            assert(crate::semantics::spec_toggle_all(once) =~= s);
        },
        Some(k) => {
            let once = crate::semantics::spec_toggle_at(s, k as int);
            if k < s.len() {
                lemma_toggle_char_ascii(s[k as int]);
                assert(crate::semantics::spec_toggle_at(once, k as int) =~= s);
            }
        },
    }
}

/// Lowercasing an ASCII word keeps it ASCII and is the character-wise map.
pub proof fn lemma_lower_ascii(s: Seq<char>)
    requires
        ascii_seq(s),
    ensures
        crate::fold::lower_of(s) == s.map_values(|c: char| ascii_lower_char(c)),
        ascii_seq(crate::fold::lower_of(s)),
        crate::fold::lower_of(s).len() == s.len(),
{
    let m = s.map_values(|c: char| ascii_lower_char(c));
    assert forall|i: int| 0 <= i < m.len() implies is_ascii_char(#[trigger] m[i]) by {
        lemma_ascii_lower_props(s[i]);
    }
}

/// Uppercasing an ASCII word keeps it ASCII and is the character-wise map.
pub proof fn lemma_upper_ascii(s: Seq<char>)
    requires
        ascii_seq(s),
    ensures
        crate::fold::upper_of(s) == s.map_values(|c: char| ascii_upper_char(c)),
        ascii_seq(crate::fold::upper_of(s)),
        crate::fold::upper_of(s).len() == s.len(),
{
    let m = s.map_values(|c: char| ascii_upper_char(c));
    assert forall|i: int| 0 <= i < m.len() implies is_ascii_char(#[trigger] m[i]) by {
        lemma_ascii_upper_props(s[i]);
    }
}

/// Lowercase is idempotent on ASCII words.
pub proof fn lemma_lowercase_idempotent(s: Seq<char>)
    requires
        ascii_seq(s),
    ensures
        spec_transform(TransformRuleV::Lowercase, spec_transform(TransformRuleV::Lowercase, s))
            == spec_transform(TransformRuleV::Lowercase, s),
{
    lemma_lower_ascii(s);
    let once = crate::fold::lower_of(s);
    lemma_lower_ascii(once);
    assert forall|i: int| 0 <= i < once.len() implies ascii_lower_char(#[trigger] once[i])
        == once[i] by {
        lemma_ascii_lower_props(s[i]);
    }
    assert(crate::fold::lower_of(once) =~= once);
}

/// Uppercase is idempotent on ASCII words.
pub proof fn lemma_uppercase_idempotent(s: Seq<char>)
    requires
        ascii_seq(s),
    ensures
        spec_transform(TransformRuleV::Uppercase, spec_transform(TransformRuleV::Uppercase, s))
            == spec_transform(TransformRuleV::Uppercase, s),
{
    lemma_upper_ascii(s);
    let once = crate::fold::upper_of(s);
    lemma_upper_ascii(once);
    assert forall|i: int| 0 <= i < once.len() implies ascii_upper_char(#[trigger] once[i])
        == once[i] by {
        lemma_ascii_upper_props(s[i]);
    }
    assert(crate::fold::upper_of(once) =~= once);
}

/// Capitalize is idempotent on ASCII words.
pub proof fn lemma_capitalize_idempotent(s: Seq<char>)
    requires
        ascii_seq(s),
    ensures
        spec_transform(TransformRuleV::Capitalize, spec_transform(TransformRuleV::Capitalize, s))
            == spec_transform(TransformRuleV::Capitalize, s),
{
    if s.len() == 0 {
    } else {
        let rest = s.drop_first();
        assert(ascii_seq(rest));
        lemma_lower_ascii(rest);
        lemma_ascii_upper_props(s[0]);
        let once = spec_transform(TransformRuleV::Capitalize, s);
        assert(once == seq![ascii_upper_char(s[0])] + crate::fold::lower_of(rest));
        assert(once.len() == 1 + rest.len());
        assert(once[0] == ascii_upper_char(s[0]));
        assert(ascii_seq(once)) by {
            lemma_lower_ascii(rest);
            assert forall|i: int| 0 <= i < once.len() implies is_ascii_char(
                #[trigger] once[i],
            ) by {
                if i >= 1 {
                    assert(once[i] == crate::fold::lower_of(rest)[i - 1]);
                }
            }
        }
        let once_rest = once.drop_first();
        assert(once_rest =~= crate::fold::lower_of(rest));
        assert(ascii_seq(once_rest));
        lemma_lower_ascii(once_rest);
        assert forall|i: int| 0 <= i < once_rest.len() implies ascii_lower_char(
            #[trigger] once_rest[i],
        ) == once_rest[i] by {
            lemma_ascii_lower_props(rest[i]);
        }
        assert(crate::fold::lower_of(once_rest) =~= once_rest);
        assert(crate::fold::upper_char_of(once[0]) =~= seq![ascii_upper_char(once[0])]);
        assert(ascii_upper_char(once[0]) == ascii_upper_char(s[0]));
        assert(spec_transform(TransformRuleV::Capitalize, once) =~= once);
    }
}

/// The inverted capitalization is idempotent on ASCII words.
pub proof fn lemma_invert_capitalize_idempotent(s: Seq<char>)
    requires
        ascii_seq(s),
    ensures
        spec_transform(
            TransformRuleV::InvertCapitalize,
            spec_transform(TransformRuleV::InvertCapitalize, s),
        ) == spec_transform(TransformRuleV::InvertCapitalize, s),
{
    if s.len() == 0 {
    } else {
        let rest = s.drop_first();
        assert(ascii_seq(rest));
        lemma_upper_ascii(rest);
        lemma_ascii_lower_props(s[0]);
        let once = spec_transform(TransformRuleV::InvertCapitalize, s);
        assert(once == seq![ascii_lower_char(s[0])] + crate::fold::upper_of(rest));
        assert(once[0] == ascii_lower_char(s[0]));
        assert(ascii_seq(once)) by {
            assert forall|i: int| 0 <= i < once.len() implies is_ascii_char(
                #[trigger] once[i],
            ) by {
                if i >= 1 {
                    assert(once[i] == crate::fold::upper_of(rest)[i - 1]);
                }
            }
        }
        let once_rest = once.drop_first();
        assert(once_rest =~= crate::fold::upper_of(rest));
        assert(ascii_seq(once_rest));
        lemma_upper_ascii(once_rest);
        assert forall|i: int| 0 <= i < once_rest.len() implies ascii_upper_char(
            #[trigger] once_rest[i],
        ) == once_rest[i] by {
            lemma_ascii_upper_props(rest[i]);
        }
        assert(crate::fold::upper_of(once_rest) =~= once_rest);
        assert(crate::fold::lower_char_of(once[0]) =~= seq![ascii_lower_char(once[0])]);
        assert(ascii_lower_char(once[0]) == ascii_lower_char(s[0]));
        assert(spec_transform(TransformRuleV::InvertCapitalize, once) =~= once);
    }
}

/// A rule that keeps ASCII words ASCII: its stored strings are ASCII and it
/// does no byte arithmetic that could leave the ASCII range.
pub open spec fn ascii_rule(r: RuleV) -> bool {
    match r {
        RuleV::Transform(t) => match t {
            TransformRuleV::BitwiseShiftLeft(_) => false,
            TransformRuleV::AsciiIncrement(_) => false,
            TransformRuleV::AsciiDecrement(_) => false,
            TransformRuleV::Append(t) => ascii_seq(t),
            TransformRuleV::Prepend(t) => ascii_seq(t),
            TransformRuleV::Insert(_, t) => ascii_seq(t),
            TransformRuleV::Overwrite(_, t) => ascii_seq(t),
            TransformRuleV::Replace(_, b) => ascii_seq(b),
            _ => true,
        },
        _ => true,
    }
}

proof fn lemma_repeat_ascii(s: Seq<char>, k: int)
    requires
        ascii_seq(s),
    ensures
        ascii_seq(crate::semantics::spec_repeat(s, k)),
    decreases k,
{
    if k > 0 {
        lemma_repeat_ascii(s, k - 1);
        let r = crate::semantics::spec_repeat(s, k);
        let prev = crate::semantics::spec_repeat(s, k - 1);
        assert forall|i: int| 0 <= i < r.len() implies is_ascii_char(#[trigger] r[i]) by {
            if i < prev.len() {
                assert(r[i] == prev[i]);
            } else {
                assert(r[i] == s[i - prev.len()]);
            }
        }
    }
}

proof fn lemma_replace_ascii(s: Seq<char>, pat: Seq<char>, rep: Seq<char>, from: int)
    requires
        ascii_seq(s),
        ascii_seq(rep),
        pat.len() >= 1,
        0 <= from <= s.len(),
    ensures
        ascii_seq(spec_replace_from(s, pat, rep, from)),
    decreases s.len() - from,
{
    crate::strops::lemma_find_bounds(s, pat, from);
    match spec_find(s, pat, from) {
        Some(j) => {
            lemma_replace_ascii(s, pat, rep, j + pat.len());
            let r = spec_replace_from(s, pat, rep, from);
            let head = s.subrange(from, j);
            let tail = spec_replace_from(s, pat, rep, j + pat.len());
            assert forall|i: int| 0 <= i < r.len() implies is_ascii_char(#[trigger] r[i]) by {
                if i < head.len() {
                    assert(r[i] == head[i]);
                } else if i < head.len() + rep.len() {
                    assert(r[i] == rep[i - head.len()]);
                } else {
                    assert(r[i] == tail[i - head.len() - rep.len()]);
                }
            }
        },
        None => {
            let r = spec_replace_from(s, pat, rep, from);
            assert forall|i: int| 0 <= i < r.len() implies is_ascii_char(#[trigger] r[i]) by {
                assert(r[i] == s[from + i]);
            }
        },
    }
}

/// An ASCII-safe transformation keeps an ASCII word ASCII.
pub proof fn lemma_transform_preserves_ascii(t: TransformRuleV, s: Seq<char>)
    requires
        ascii_seq(s),
        ascii_rule(RuleV::Transform(t)),
    ensures
        ascii_seq(spec_transform(t, s)),
{
    let r = spec_transform(t, s);
    match t {
        TransformRuleV::Lowercase => {
            lemma_lower_ascii(s);
        },
        TransformRuleV::Uppercase => {
            lemma_upper_ascii(s);
        },
        TransformRuleV::Capitalize => {
            if s.len() > 0 {
                lemma_ascii_upper_props(s[0]);
                lemma_lower_ascii(s.drop_first());
                assert forall|i: int| 0 <= i < r.len() implies is_ascii_char(#[trigger] r[i]) by {
                    if i >= 1 {
                        assert(r[i] == crate::fold::lower_of(s.drop_first())[i - 1]);
                    }
                }
            }
        },
        TransformRuleV::InvertCapitalize => {
            if s.len() > 0 {
                lemma_ascii_lower_props(s[0]);
                lemma_upper_ascii(s.drop_first());
                assert forall|i: int| 0 <= i < r.len() implies is_ascii_char(#[trigger] r[i]) by {
                    if i >= 1 {
                        assert(r[i] == crate::fold::upper_of(s.drop_first())[i - 1]);
                    }
                }
            }
        },
        TransformRuleV::ToggleCase(n) => {
            assert forall|i: int| 0 <= i < r.len() implies is_ascii_char(#[trigger] r[i]) by {
                lemma_toggle_char_ascii(s[i]);
            }
        },
        TransformRuleV::Reverse => {},
        TransformRuleV::Duplicate(n) => {
            lemma_repeat_ascii(s, crate::semantics::spec_dup_count(n));
        },
        TransformRuleV::Reflect => {
            assert forall|i: int| 0 <= i < r.len() implies is_ascii_char(#[trigger] r[i]) by {
                if i >= s.len() {
                    assert(r[i] == s.reverse()[i - s.len()]);
                }
            }
        },
        TransformRuleV::Rotate(d) => {},
        TransformRuleV::Append(t2) => {},
        TransformRuleV::Prepend(t2) => {},
        TransformRuleV::Delete(n) => {},
        TransformRuleV::Extract(a, b) => {},
        TransformRuleV::Omit(a, b) => {},
        TransformRuleV::Insert(n, t2) => {},
        TransformRuleV::Overwrite(n, t2) => {
            crate::strops::lemma_byte_len_bounds(t2);
        },
        TransformRuleV::Truncate(d) => {},
        TransformRuleV::Replace(a, b) => {
            if a.len() >= 1 {
                lemma_replace_ascii(s, a, b, 0);
            }
        },
        TransformRuleV::Purge(t2) => {
            if t2.len() >= 1 {
                lemma_replace_ascii(s, t2, Seq::empty(), 0);
            }
        },
        TransformRuleV::DuplicateFirst(n) => {},
        TransformRuleV::DuplicateLast(n) => {},
        TransformRuleV::DuplicateAll => {},
        TransformRuleV::SwapFront => {},
        TransformRuleV::SwapBack => {},
        TransformRuleV::Swap(a, b) => {},
        TransformRuleV::BitwiseShiftLeft(n) => {},
        TransformRuleV::BitwiseShiftRight(n) => {
            assert forall|i: int| 0 <= i < r.len() implies is_ascii_char(#[trigger] r[i]) by {
                let c = s[i];
                let b = crate::semantics::spec_low_byte(c);
                let sh = (((n as int) % 8) as u32);
                assert(b >> sh <= b) by (bit_vector);
            }
        },
        TransformRuleV::AsciiIncrement(n) => {},
        TransformRuleV::AsciiDecrement(n) => {},
        TransformRuleV::ReplaceWithNext(n) => {},
        TransformRuleV::ReplaceWithPrev(n) => {},
        TransformRuleV::DuplicateFirstBlock(n) => {},
        TransformRuleV::DuplicateLastBlock(n) => {},
    }
}

/// An ASCII-safe rule that keeps a word keeps it ASCII.
pub proof fn lemma_rule_preserves_ascii(r: RuleV, w: Seq<char>)
    requires
        ascii_seq(w),
        ascii_rule(r),
    ensures
        spec_rule(r, w) matches Some(w2) ==> ascii_seq(w2),
{
    match r {
        RuleV::Transform(t) => {
            lemma_transform_preserves_ascii(t, w);
        },
        _ => {},
    }
}

/// Applying `p` and then `c` to one word, as the evaluator chains them.
pub open spec fn spec_rule2(p: RuleV, c: RuleV, w: Seq<char>) -> Option<Seq<char>> {
    match spec_rule(p, w) {
        Some(w1) => spec_rule(c, w1),
        None => None,
    }
}

proof fn lemma_dup_last_merge(w: Seq<char>, a: usize, b: usize)
    requires
        a + b <= usize::MAX,
    ensures
        crate::semantics::spec_dup_last(
            crate::semantics::spec_dup_last(w, a as int),
            b as int,
        ) == crate::semantics::spec_dup_last(w, (a + b) as int),
{
    if w.len() == 0 {
    } else {
        let once = crate::semantics::spec_dup_last(w, a as int);
        assert(once.len() == w.len() + a);
        assert(once[once.len() - 1] == w[w.len() - 1]);
        let twice = crate::semantics::spec_dup_last(once, b as int);
        let merged = crate::semantics::spec_dup_last(w, (a + b) as int);
        assert forall|i: int| 0 <= i < twice.len() implies twice[i] == merged[i] by {
            if i < w.len() {
            } else if i < w.len() + a {
                assert(twice[i] == once[i]);
            } else {
                assert(twice[i] == once[once.len() - 1]);
            }
        }
        assert(twice =~= merged);
    }
}

/// A fired pair rewrite is sound on every ASCII word: the merged rule does to
/// the word what the pair did, keeps the safety of its inputs, and is a
/// duplication of the first character only when it simply passed the second
/// rule through.
proof fn lemma_pair_sound(p: RuleV, c: RuleV, w: Seq<char>)
    requires
        ascii_seq(w),
        ascii_rule(p),
        ascii_rule(c),
        crate::simplify::spec_coalesce_pair(p, c) is Some,
        !(p matches RuleV::Transform(TransformRuleV::DuplicateFirst(_)) && c matches
        RuleV::Transform(TransformRuleV::DuplicateLast(_))),
    ensures
        spec_rule(crate::simplify::spec_coalesce_pair(p, c)->Some_0, w) == spec_rule2(p, c, w),
        ascii_rule(crate::simplify::spec_coalesce_pair(p, c)->Some_0),
        crate::simplify::spec_coalesce_pair(p, c)->Some_0 matches RuleV::Transform(
            TransformRuleV::DuplicateFirst(_),
        ) ==> p is NoOp && crate::simplify::spec_coalesce_pair(p, c)->Some_0 == c,
{
    let m = crate::simplify::spec_coalesce_pair(p, c)->Some_0;
    match (p, c) {
        (RuleV::NoOp, _) => {},
        (
            RuleV::Transform(TransformRuleV::Append(a)),
            RuleV::Transform(TransformRuleV::Append(b)),
        ) => {
            assert((w + a) + b =~= w + (a + b));
        },
        (
            RuleV::Transform(TransformRuleV::Prepend(a)),
            RuleV::Transform(TransformRuleV::Prepend(b)),
        ) => {
            assert(b + (a + w) =~= (b + a) + w);
            assert(ascii_seq(b + a));
        },
        (
            RuleV::Transform(TransformRuleV::DuplicateLast(a)),
            RuleV::Transform(TransformRuleV::DuplicateLast(b)),
        ) => {
            lemma_dup_last_merge(w, a, b);
        },
        (
            RuleV::Transform(TransformRuleV::Lowercase),
            RuleV::Transform(TransformRuleV::Lowercase),
        ) => {
            lemma_lowercase_idempotent(w);
        },
        (
            RuleV::Transform(TransformRuleV::Uppercase),
            RuleV::Transform(TransformRuleV::Uppercase),
        ) => {
            lemma_uppercase_idempotent(w);
        },
        (
            RuleV::Transform(TransformRuleV::Capitalize),
            RuleV::Transform(TransformRuleV::Capitalize),
        ) => {
            lemma_capitalize_idempotent(w);
        },
        (
            RuleV::Transform(TransformRuleV::InvertCapitalize),
            RuleV::Transform(TransformRuleV::InvertCapitalize),
        ) => {
            lemma_invert_capitalize_idempotent(w);
        },
        (
            RuleV::Transform(TransformRuleV::ToggleCase(a)),
            RuleV::Transform(TransformRuleV::ToggleCase(b)),
        ) => {
            if a == b {
                lemma_toggle_involution(w, a);
            }
        },
        (RuleV::Transform(TransformRuleV::Reverse), RuleV::Transform(TransformRuleV::Reverse)) => {
            lemma_reverse_involution(w);
        },
        (_, _) => {},
    }
}

/// True when no duplication of the first character stands directly before a
/// duplication of the last: the one pair whose rewrite changes meaning.
pub open spec fn no_first_then_last(s: Seq<RuleV>) -> bool {
    forall|i: int|
        0 <= i && i + 1 < s.len() ==> !((#[trigger] s[i]) matches RuleV::Transform(
            TransformRuleV::DuplicateFirst(_),
        ) && s[i + 1] matches RuleV::Transform(TransformRuleV::DuplicateLast(_)))
}

proof fn lemma_suffix_no_first_then_last(s: Seq<RuleV>)
    requires
        no_first_then_last(s),
        s.len() >= 1,
    ensures
        no_first_then_last(s.drop_first()),
{
    let t = s.drop_first();
    assert forall|i: int|
        0 <= i && i + 1 < t.len() implies !((#[trigger] t[i]) matches RuleV::Transform(
        TransformRuleV::DuplicateFirst(_),
    ) && t[i + 1] matches RuleV::Transform(TransformRuleV::DuplicateLast(_))) by {
        assert(t[i] == s[i + 1] && t[i + 1] == s[i + 2]);
    }
}

proof fn lemma_cons_no_first_then_last(x: RuleV, t: Seq<RuleV>)
    requires
        no_first_then_last(t),
        t.len() == 0 || !(x matches RuleV::Transform(TransformRuleV::DuplicateFirst(_)) && t[0]
            matches RuleV::Transform(TransformRuleV::DuplicateLast(_))),
    ensures
        no_first_then_last(seq![x] + t),
{
    let m = seq![x] + t;
    assert forall|i: int|
        0 <= i && i + 1 < m.len() implies !((#[trigger] m[i]) matches RuleV::Transform(
        TransformRuleV::DuplicateFirst(_),
    ) && m[i + 1] matches RuleV::Transform(TransformRuleV::DuplicateLast(_))) by {
        if i == 0 {
            assert(m[0] == x && m[1] == t[0]);
        } else {
            assert(m[i] == t[i - 1] && m[i + 1] == t[i]);
        }
    }
}

proof fn lemma_go_preserves(p: RuleV, rest: Seq<RuleV>, w: Seq<char>)
    requires
        ascii_seq(w),
        ascii_rule(p),
        forall|i: int| 0 <= i < rest.len() ==> ascii_rule(#[trigger] rest[i]),
        no_first_then_last(seq![p] + rest),
    ensures
        spec_run_all(crate::simplify::spec_coalesce_go(p, rest), w) == spec_run_all(
            seq![p] + rest,
            w,
        ),
    decreases rest.len(),
{
    let all = seq![p] + rest;
    if rest.len() == 0 {
        assert(all =~= seq![p]);
        assert(crate::simplify::spec_coalesce_go(p, rest) == seq![p]);
    } else {
        let c = rest[0];
        let rest2 = rest.drop_first();
        assert(all[0] == p);
        assert(all.drop_first() =~= rest);
        lemma_suffix_no_first_then_last(all);
        match crate::simplify::spec_coalesce_pair(p, c) {
            Some(m_opt) => {
                assert(!(p matches RuleV::Transform(TransformRuleV::DuplicateFirst(_)) && c
                    matches RuleV::Transform(TransformRuleV::DuplicateLast(_)))) by {
                    assert(all[0] == p && all[1] == c);
                }
                lemma_pair_sound(p, c, w);
                let m = crate::simplify::spec_coalesce_pair(p, c)->Some_0;
                lemma_suffix_no_first_then_last(rest);
                if rest2.len() > 0 && m matches RuleV::Transform(
                    TransformRuleV::DuplicateFirst(_),
                ) {
                    assert(m == c);
                    assert(!(rest[0] matches RuleV::Transform(TransformRuleV::DuplicateFirst(_))
                        && rest[1] matches RuleV::Transform(TransformRuleV::DuplicateLast(_))));
                    assert(rest2[0] == rest[1]);
                }
                lemma_cons_no_first_then_last(m, rest2);
                lemma_go_preserves(m, rest2, w);
                assert(spec_run_all(seq![m] + rest2, w) == spec_run_all(all, w)) by {
                    assert((seq![m] + rest2)[0] == m);
                    assert((seq![m] + rest2).drop_first() =~= rest2);
                    assert(seq![c] + rest2 =~= rest);
                    match spec_rule(m, w) {
                        Some(w2) => {
                            assert(spec_rule2(p, c, w) == Some(w2));
                            let w1 = spec_rule(p, w)->Some_0;
                            lemma_rule_preserves_ascii(p, w);
                            assert(spec_run_all(all, w) == spec_run_all(rest, w1));
                            assert(spec_run_all(rest, w1) == spec_run_all(rest2, w2));
                        },
                        None => {
                            if spec_rule(p, w) is Some {
                                let w1 = spec_rule(p, w)->Some_0;
                                assert(spec_run_all(all, w) == spec_run_all(rest, w1));
                                assert(spec_rule(c, w1) is None);
                            }
                        },
                    }
                }
            },
            None => {
                let tail = crate::simplify::spec_coalesce_go(c, rest2);
                assert(crate::simplify::spec_coalesce_go(p, rest) == seq![p] + tail);
                assert(seq![c] + rest2 =~= rest);
                match spec_rule(p, w) {
                    Some(w1) => {
                        lemma_rule_preserves_ascii(p, w);
                        lemma_go_preserves(c, rest2, w1);
                        assert((seq![p] + tail)[0] == p);
                        assert((seq![p] + tail).drop_first() =~= tail);
                        assert(spec_run_all(seq![p] + tail, w) == spec_run_all(tail, w1));
                        assert(spec_run_all(all, w) == spec_run_all(rest, w1));
                    },
                    None => {
                        assert((seq![p] + tail)[0] == p);
                    },
                }
            },
        }
    }
}

proof fn lemma_strip_preserves(rules: Seq<RuleV>, w: Seq<char>)
    ensures
        spec_run_all(crate::simplify::strip_noops(rules), w) == spec_run_all(rules, w),
    decreases rules.len(),
{
    if rules.len() > 0 {
        match spec_rule(rules[0], w) {
            Some(w1) => {
                lemma_strip_preserves(rules.drop_first(), w1);
                if rules[0] is NoOp {
                    lemma_strip_preserves(rules.drop_first(), w);
                } else {
                    let st = crate::simplify::strip_noops(rules);
                    assert(st == seq![rules[0]] + crate::simplify::strip_noops(
                        rules.drop_first(),
                    ));
                    assert(st[0] == rules[0]);
                    assert(st.drop_first() =~= crate::simplify::strip_noops(rules.drop_first()));
                }
            },
            None => {
                if !(rules[0] is NoOp) {
                    let st = crate::simplify::strip_noops(rules);
                    assert(st[0] == rules[0]);
                }
            },
        }
    }
}

proof fn lemma_strip_ascii(rules: Seq<RuleV>)
    requires
        forall|i: int| 0 <= i < rules.len() ==> ascii_rule(#[trigger] rules[i]),
    ensures
        forall|i: int|
            0 <= i < crate::simplify::strip_noops(rules).len() ==> ascii_rule(
                #[trigger] crate::simplify::strip_noops(rules)[i],
            ),
    decreases rules.len(),
{
    if rules.len() > 0 {
        assert(forall|i: int|
            0 <= i < rules.drop_first().len() ==> ascii_rule(#[trigger] rules.drop_first()[i]));
        lemma_strip_ascii(rules.drop_first());
        let st = crate::simplify::strip_noops(rules);
        let st2 = crate::simplify::strip_noops(rules.drop_first());
        if !(rules[0] is NoOp) {
            assert forall|i: int| 0 <= i < st.len() implies ascii_rule(#[trigger] st[i]) by {
                if i >= 1 {
                    assert(st[i] == st2[i - 1]);
                }
            }
        }
    }
}

/// Simplification preserves meaning: on every ASCII word, the simplified rule
/// sequence produces exactly what the original produced. The word and the
/// stored strings are kept to ASCII because the coalescing of repeated case
/// folds rests on the ASCII case maps; byte-arithmetic rules and a
/// first-character duplication standing directly before a last-character
/// duplication are left out because those rewrites do not preserve meaning on
/// all words.
pub proof fn lemma_simplify_preserves(rules: Seq<RuleV>, w: Seq<char>)
    requires
        ascii_seq(w),
        forall|i: int| 0 <= i < rules.len() ==> ascii_rule(#[trigger] rules[i]),
        no_first_then_last(crate::simplify::strip_noops(rules)),
    ensures
        spec_run_all(crate::simplify::spec_simplify(rules), w) == spec_run_all(rules, w),
{
    lemma_strip_preserves(rules, w);
    lemma_strip_ascii(rules);
    let st = crate::simplify::strip_noops(rules);
    if st.len() == 0 {
    } else {
        assert(seq![st[0]] + st.drop_first() =~= st);
        assert(forall|i: int|
            0 <= i < st.drop_first().len() ==> ascii_rule(#[trigger] st.drop_first()[i]));
        lemma_go_preserves(st[0], st.drop_first(), w);
    }
}

} // verus!
