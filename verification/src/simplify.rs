//! The rule-sequence simplifier: strips no-ops and coalesces adjacent pairs
//! into single equivalent rules.
use vstd::prelude::*;

use crate::lang::RejectRule;
use crate::lang::Rule;
use crate::lang::RuleV;
use crate::lang::TransformRule;
use crate::lang::TransformRuleV;
use crate::lang::Truncate;

verus! {

/// The single rule that an adjacent pair is rewritten to, or `None` when the
/// pair stays as it is. Two additions never coalesce when their sum would not
/// fit a machine word.
pub open spec fn spec_coalesce_pair(p: RuleV, c: RuleV) -> Option<RuleV> {
    match (p, c) {
        (RuleV::NoOp, other) => Some(other),
        (
            RuleV::Transform(TransformRuleV::Append(a)),
            RuleV::Transform(TransformRuleV::Append(b)),
        ) => Some(RuleV::Transform(TransformRuleV::Append(a + b))),
        (
            RuleV::Transform(TransformRuleV::Prepend(a)),
            RuleV::Transform(TransformRuleV::Prepend(b)),
        ) => Some(RuleV::Transform(TransformRuleV::Prepend(b + a))),
        (
            RuleV::Transform(TransformRuleV::DuplicateLast(a)),
            RuleV::Transform(TransformRuleV::DuplicateLast(b)),
        ) => if a + b <= usize::MAX {
            Some(RuleV::Transform(TransformRuleV::DuplicateLast((a + b) as usize)))
        } else {
            None
        },
        (
            RuleV::Transform(TransformRuleV::DuplicateFirst(a)),
            RuleV::Transform(TransformRuleV::DuplicateLast(b)),
        ) => if a + b <= usize::MAX {
            Some(RuleV::Transform(TransformRuleV::DuplicateFirst((a + b) as usize)))
        } else {
            None
        },
        (
            RuleV::Transform(TransformRuleV::Lowercase),
            RuleV::Transform(TransformRuleV::Lowercase),
        ) => Some(RuleV::Transform(TransformRuleV::Lowercase)),
        (
            RuleV::Transform(TransformRuleV::Uppercase),
            RuleV::Transform(TransformRuleV::Uppercase),
        ) => Some(RuleV::Transform(TransformRuleV::Uppercase)),
        (
            RuleV::Transform(TransformRuleV::Capitalize),
            RuleV::Transform(TransformRuleV::Capitalize),
        ) => Some(RuleV::Transform(TransformRuleV::Capitalize)),
        (
            RuleV::Transform(TransformRuleV::InvertCapitalize),
            RuleV::Transform(TransformRuleV::InvertCapitalize),
        ) => Some(RuleV::Transform(TransformRuleV::InvertCapitalize)),
        (
            RuleV::Transform(TransformRuleV::ToggleCase(a)),
            RuleV::Transform(TransformRuleV::ToggleCase(b)),
        ) => if a == b {
            Some(RuleV::NoOp)
        } else {
            None
        },
        (RuleV::Transform(TransformRuleV::Reverse), RuleV::Transform(TransformRuleV::Reverse)) => {
            Some(RuleV::NoOp)
        },
        (_, _) => None,
    }
}

/// The rule sequence with every `NoOp` removed.
pub open spec fn strip_noops(s: Seq<RuleV>) -> Seq<RuleV>
    decreases s.len(),
{
    if s.len() == 0 {
        Seq::empty()
    } else if s[0] is NoOp {
        strip_noops(s.drop_first())
    } else {
        seq![s[0]] + strip_noops(s.drop_first())
    }
}

pub proof fn lemma_strip_snoc(t: Seq<RuleV>, x: RuleV)
    ensures
        strip_noops(t.push(x)) == strip_noops(t) + (if x is NoOp {
            Seq::<RuleV>::empty()
        } else {
            seq![x]
        }),
    decreases t.len(),
{
    if t.len() == 0 {
        assert(t.push(x)[0] == x);
        assert(t.push(x).drop_first() =~= Seq::<RuleV>::empty());
        assert(strip_noops(Seq::<RuleV>::empty()) =~= Seq::<RuleV>::empty());
        if x is NoOp {
            assert(strip_noops(t.push(x)) =~= strip_noops(t) + Seq::<RuleV>::empty());
        } else {
            assert(strip_noops(t.push(x)) =~= strip_noops(t) + seq![x]);
        }
    } else {
        assert(t.push(x)[0] == t[0]);
        assert(t.push(x).drop_first() =~= t.drop_first().push(x));
        lemma_strip_snoc(t.drop_first(), x);
        if t[0] is NoOp {
        } else {
            assert(strip_noops(t.push(x)) =~= strip_noops(t) + (if x is NoOp {
                Seq::<RuleV>::empty()
            } else {
                seq![x]
            }));
        }
    }
}

/// The coalescing fold: `p` is the pending rule; each next rule either merges
/// into it or flushes it to the output.
pub open spec fn spec_coalesce_go(p: RuleV, rest: Seq<RuleV>) -> Seq<RuleV>
    decreases rest.len(),
{
    if rest.len() == 0 {
        seq![p]
    } else {
        match spec_coalesce_pair(p, rest[0]) {
            Some(m) => spec_coalesce_go(m, rest.drop_first()),
            None => seq![p] + spec_coalesce_go(rest[0], rest.drop_first()),
        }
    }
}

/// One coalescing pass over a rule sequence.
pub open spec fn spec_coalesce(s: Seq<RuleV>) -> Seq<RuleV> {
    if s.len() == 0 {
        Seq::empty()
    } else {
        spec_coalesce_go(s[0], s.drop_first())
    }
}

/// What the simplifier produces: the no-ops stripped, then adjacent pairs
/// coalesced.
pub open spec fn spec_simplify(s: Seq<RuleV>) -> Seq<RuleV> {
    spec_coalesce(strip_noops(s))
}

/// A structural copy of a rule: same variant, same payload.
fn dup_rule(r: &Rule) -> (c: Rule)
    ensures
        c@ == r@,
{
    match r {
        Rule::NoOp => Rule::NoOp,
        Rule::End => Rule::End,
        Rule::Transform(t) => Rule::Transform(
            match t {
                TransformRule::Lowercase => TransformRule::Lowercase,
                TransformRule::Uppercase => TransformRule::Uppercase,
                TransformRule::Capitalize => TransformRule::Capitalize,
                TransformRule::InvertCapitalize => TransformRule::InvertCapitalize,
                TransformRule::ToggleCase(n) => TransformRule::ToggleCase(*n),
                TransformRule::Reverse => TransformRule::Reverse,
                TransformRule::Duplicate(n) => TransformRule::Duplicate(*n),
                TransformRule::Reflect => TransformRule::Reflect,
                TransformRule::Rotate(d) => TransformRule::Rotate(*d),
                TransformRule::Append(t) => TransformRule::Append(t.clone()),
                TransformRule::Prepend(t) => TransformRule::Prepend(t.clone()),
                TransformRule::Delete(n) => TransformRule::Delete(*n),
                TransformRule::Extract(a, b) => TransformRule::Extract(*a, *b),
                TransformRule::Omit(a, b) => TransformRule::Omit(*a, *b),
                TransformRule::Insert(n, t) => TransformRule::Insert(*n, t.clone()),
                TransformRule::Overwrite(n, t) => TransformRule::Overwrite(*n, t.clone()),
                TransformRule::Truncate(d) => TransformRule::Truncate(
                    match d {
                        Truncate::Left => Truncate::Left,
                        Truncate::Right => Truncate::Right,
                        Truncate::To(n) => Truncate::To(*n),
                    },
                ),
                TransformRule::Replace(a, b) => TransformRule::Replace(a.clone(), b.clone()),
                TransformRule::Purge(t) => TransformRule::Purge(t.clone()),
                TransformRule::DuplicateFirst(n) => TransformRule::DuplicateFirst(*n),
                TransformRule::DuplicateLast(n) => TransformRule::DuplicateLast(*n),
                TransformRule::DuplicateAll => TransformRule::DuplicateAll,
                TransformRule::SwapFront => TransformRule::SwapFront,
                TransformRule::SwapBack => TransformRule::SwapBack,
                TransformRule::Swap(a, b) => TransformRule::Swap(*a, *b),
                TransformRule::BitwiseShiftLeft(n) => TransformRule::BitwiseShiftLeft(*n),
                TransformRule::BitwiseShiftRight(n) => TransformRule::BitwiseShiftRight(*n),
                TransformRule::AsciiIncrement(n) => TransformRule::AsciiIncrement(*n),
                TransformRule::AsciiDecrement(n) => TransformRule::AsciiDecrement(*n),
                TransformRule::ReplaceWithNext(n) => TransformRule::ReplaceWithNext(*n),
                TransformRule::ReplaceWithPrev(n) => TransformRule::ReplaceWithPrev(*n),
                TransformRule::DuplicateFirstBlock(n) => TransformRule::DuplicateFirstBlock(*n),
                TransformRule::DuplicateLastBlock(n) => TransformRule::DuplicateLastBlock(*n),
            },
        ),
        Rule::Reject(j) => Rule::Reject(
            match j {
                RejectRule::ShorterThan(n) => RejectRule::ShorterThan(*n),
                RejectRule::LongerThan(n) => RejectRule::LongerThan(*n),
                RejectRule::NotEqualTo(n) => RejectRule::NotEqualTo(*n),
                RejectRule::Contains(t) => RejectRule::Contains(t.clone()),
                RejectRule::NotContains(t) => RejectRule::NotContains(t.clone()),
                RejectRule::NotStartsWith(t) => RejectRule::NotStartsWith(t.clone()),
                RejectRule::NotEndsWith(t) => RejectRule::NotEndsWith(t.clone()),
                RejectRule::NotEqualAt(n, t) => RejectRule::NotEqualAt(*n, t.clone()),
                RejectRule::ContainsLessThan(n, t) => RejectRule::ContainsLessThan(*n, t.clone()),
            },
        ),
    }
}

/// The rewrite of one adjacent pair, or `None` when the pair is kept.
fn coalesce_pair(p: &Rule, c: &Rule) -> (r: Option<Rule>)
    ensures
        match r {
            Some(m) => spec_coalesce_pair(p@, c@) == Some(m@),
            None => spec_coalesce_pair(p@, c@) is None,
        },
{
    match (p, c) {
        (Rule::NoOp, other) => Some(dup_rule(other)),
        (Rule::Transform(TransformRule::Append(a)), Rule::Transform(TransformRule::Append(b))) => {
            Some(Rule::Transform(TransformRule::Append(a.clone().concat(b.as_str()))))
        },
        (
            Rule::Transform(TransformRule::Prepend(a)),
            Rule::Transform(TransformRule::Prepend(b)),
        ) => Some(Rule::Transform(TransformRule::Prepend(b.clone().concat(a.as_str())))),
        (
            Rule::Transform(TransformRule::DuplicateLast(a)),
            Rule::Transform(TransformRule::DuplicateLast(b)),
        ) => {
            if *a <= usize::MAX - *b {
                Some(Rule::Transform(TransformRule::DuplicateLast(*a + *b)))
            } else {
                None
            }
        },
        (
            Rule::Transform(TransformRule::DuplicateFirst(a)),
            Rule::Transform(TransformRule::DuplicateLast(b)),
        ) => {
            if *a <= usize::MAX - *b {
                Some(Rule::Transform(TransformRule::DuplicateFirst(*a + *b)))
            } else {
                None
            }
        },
        (Rule::Transform(TransformRule::Lowercase), Rule::Transform(TransformRule::Lowercase)) => {
            Some(Rule::Transform(TransformRule::Lowercase))
        },
        (Rule::Transform(TransformRule::Uppercase), Rule::Transform(TransformRule::Uppercase)) => {
            Some(Rule::Transform(TransformRule::Uppercase))
        },
        (
            Rule::Transform(TransformRule::Capitalize),
            Rule::Transform(TransformRule::Capitalize),
        ) => Some(Rule::Transform(TransformRule::Capitalize)),
        (
            Rule::Transform(TransformRule::InvertCapitalize),
            Rule::Transform(TransformRule::InvertCapitalize),
        ) => Some(Rule::Transform(TransformRule::InvertCapitalize)),
        (
            Rule::Transform(TransformRule::ToggleCase(a)),
            Rule::Transform(TransformRule::ToggleCase(b)),
        ) => {
            let eq = match (a, b) {
                (None, None) => true,
                (Some(x), Some(y)) => *x == *y,
                (_, _) => false,
            };
            if eq {
                Some(Rule::NoOp)
            } else {
                None
            }
        },
        (Rule::Transform(TransformRule::Reverse), Rule::Transform(TransformRule::Reverse)) => {
            Some(Rule::NoOp)
        },
        (_, _) => None,
    }
}

/// One simplification pass: strip the no-ops, then coalesce adjacent pairs
/// left to right.
pub fn basic_simplify(rules: Vec<Rule>) -> (r: Vec<Rule>)
    ensures
        r.deep_view() == spec_simplify(rules.deep_view()),
{
    let ghost rv0 = rules.deep_view();
    let mut filt: Vec<Rule> = Vec::new();
    let mut i: usize = 0;
    while i < rules.len()
        invariant
            rv0 == rules.deep_view(),
            i <= rules@.len(),
            rv0.len() == rules@.len(),
            filt.deep_view() == strip_noops(rv0.take(i as int)),
        decreases rules.len() - i,
    {
        let ghost pre = filt.deep_view();
        match &rules[i] {
            Rule::NoOp => {},
            other => {
                filt.push(dup_rule(other));
            },
        }
        proof {
            lemma_strip_snoc(rv0.take(i as int), rv0[i as int]);
            assert(rv0.take(i as int).push(rv0[i as int]) =~= rv0.take(i as int + 1));
            assert(filt.deep_view() =~= strip_noops(rv0.take(i as int + 1)));
        }
        i += 1;
    }
    proof {
        assert(rv0.take(rv0.len() as int) =~= rv0);
    }
    let ghost fv = filt.deep_view();
    let mut out: Vec<Rule> = Vec::new();
    if filt.len() == 0 {
        return out;
    }
    let mut p: Rule = dup_rule(&filt[0]);
    let mut j: usize = 1;
    proof {
        assert(fv.skip(1) =~= fv.drop_first());
    }
    while j < filt.len()
        invariant
            1 <= j <= fv.len(),
            fv == filt.deep_view(),
            fv.len() == filt@.len(),
            spec_coalesce(fv) == out.deep_view() + spec_coalesce_go(p@, fv.skip(j as int)),
        decreases filt.len() - j,
    {
        proof {
            assert(fv.skip(j as int)[0] == fv[j as int]);
            assert(fv.skip(j as int).drop_first() =~= fv.skip(j as int + 1));
        }
        let c = &filt[j];
        match coalesce_pair(&p, c) {
            Some(m) => {
                p = m;
            },
            None => {
                let ghost pv = p@;
                let ghost pre = out.deep_view();
                out.push(p);
                proof {
                    assert(out.deep_view() =~= pre.push(pv));
                    assert(pre.push(pv) =~= pre + seq![pv]);
                }
                p = dup_rule(c);
            },
        }
        j += 1;
    }
    proof {
        assert(fv.skip(fv.len() as int) =~= Seq::<RuleV>::empty());
    }
    let ghost pv = p@;
    let ghost pre = out.deep_view();
    out.push(p);
    proof {
        assert(out.deep_view() =~= pre.push(pv));
        assert(pre.push(pv) =~= pre + seq![pv]);
    }
    out
}

impl Rule {
    /// Rewrite a rule sequence into an equivalent cheaper one.
    pub fn simplify(rules: Vec<Rule>) -> (r: Vec<Rule>)
        ensures
            r.deep_view() == spec_simplify(rules.deep_view()),
    {
        basic_simplify(rules)
    }
}

} // verus!
