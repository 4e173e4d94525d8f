//! The batch driver: parse each rule line, simplify it, and fan the compiled
//! sequence out over all words in parallel. A line that does not parse is
//! skipped; output order follows rule-line order, then word order.
use vstd::prelude::*;

use rayon::iter::IntoParallelRefIterator;
use rayon::iter::ParallelIterator;

use crate::chars::chars_of;
use crate::lang::Rule;
use crate::lang::RuleV;
use crate::parser::parse_line;
use crate::parser::spec_parse_line;
use crate::semantics::spec_run_all;
use crate::simplify::spec_simplify;

verus! {

/// The surviving outputs of one compiled rule sequence over a word list, in
/// word order.
pub open spec fn spec_apply_line(rules: Seq<RuleV>, words: Seq<Seq<char>>) -> Seq<Seq<char>>
    decreases words.len(),
{
    if words.len() == 0 {
        Seq::empty()
    } else {
        (match spec_run_all(rules, words[0]) {
            Some(w) => seq![w],
            None => Seq::empty(),
        }) + spec_apply_line(rules, words.drop_first())
    }
}

/// The whole batch: for each line in order, the parsed and simplified rules
/// applied to every word; lines that do not parse contribute nothing.
pub open spec fn spec_run_batch(lines: Seq<Seq<char>>, words: Seq<Seq<char>>) -> Seq<Seq<char>>
    decreases lines.len(),
{
    if lines.len() == 0 {
        Seq::empty()
    } else {
        (match spec_parse_line(lines[0], 0) {
            Some((rules, rest)) => spec_apply_line(spec_simplify(rules), words),
            None => Seq::empty(),
        }) + spec_run_batch(lines.drop_first(), words)
    }
}

/// Relies on rayon's parallel iterator over a vector: `par_iter`,
/// `filter_map` and `collect` into a `Vec` keep the relative input order, so
/// the collected output equals the sequential filter-map of the same
/// closure. The closure only calls the verified `Rule::run_all` on a copy of
/// each word.
#[verifier::external_body]
fn par_apply(rules: &Vec<Rule>, words: &Vec<String>) -> (r: Vec<String>)
    ensures
        r.deep_view() == spec_apply_line(rules.deep_view(), words.deep_view()),
{
    words.par_iter().filter_map(|w| Rule::run_all(rules, w.clone())).collect()
}

/// Run every rule line over every word. Lines that do not parse are skipped;
/// the call itself never fails.
pub fn run(rules: Vec<String>, words: Vec<String>) -> (r: Result<Vec<String>, String>)
    ensures
        r is Ok,
        r matches Ok(v) ==> v.deep_view() == spec_run_batch(rules.deep_view(), words.deep_view()),
{
    let ghost lv = rules.deep_view();
    let ghost wv = words.deep_view();
    let mut out: Vec<String> = Vec::new();
    let mut i: usize = 0;
    proof {
        assert(lv.skip(0) =~= lv);
    }
    while i < rules.len()
        invariant
            i <= lv.len(),
            lv == rules.deep_view(),
            wv == words.deep_view(),
            lv.len() == rules@.len(),
            spec_run_batch(lv, wv) == out.deep_view() + spec_run_batch(lv.skip(i as int), wv),
        decreases rules.len() - i,
    {
        proof {
            assert(lv.skip(i as int)[0] == lv[i as int]);
            assert(lv.skip(i as int).drop_first() =~= lv.skip(i as int + 1));
            assert(lv[i as int] == rules@[i as int]@);
        }
        let line = chars_of(rules[i].as_str());
        match parse_line(&line, 0) {
            Ok((parsed, _rest)) => {
                let compiled = Rule::simplify(parsed);
                let mut got = par_apply(&compiled, &words);
                let ghost pre = out.deep_view();
                let ghost gv = got.deep_view();
                out.append(&mut got);
                proof {
                    assert(out.deep_view() =~= pre + gv);
                    assert((pre + gv) + spec_run_batch(lv.skip(i as int + 1), wv) =~= pre + (gv
                        + spec_run_batch(lv.skip(i as int + 1), wv)));
                }
            },
            Err(_) => {
                proof {
                    assert(out.deep_view() + Seq::<Seq<char>>::empty() =~= out.deep_view());
                    assert(Seq::<Seq<char>>::empty() + spec_run_batch(lv.skip(i as int + 1), wv)
                        =~= spec_run_batch(lv.skip(i as int + 1), wv));
                }
            },
        }
        i += 1;
    }
    proof {
        assert(lv.skip(lv.len() as int) =~= Seq::<Seq<char>>::empty());
        assert(out.deep_view() + Seq::<Seq<char>>::empty() =~= out.deep_view());
    }
    Ok(out)
}

} // verus!
