//! The canonical printer: every rule in the one spelling that the parser
//! reads back, numbers in plain decimal and ranges in the delimited form.
use vstd::prelude::*;

use crate::chars::string_of;
use crate::digits::dec_digits;
use crate::digits::is_digit;
use crate::digits::to_dec_chars;
use crate::lang::RejectRule;
use crate::lang::RejectRuleV;
use crate::lang::Rotation;
use crate::lang::Rule;
use crate::lang::RuleV;
use crate::lang::TransformRule;
use crate::lang::TransformRuleV;
use crate::lang::Truncate;
use crate::strops::extend_all;
use crate::digits::digits_value;
use crate::digits::lemma_dec_digits_are_digits;
use crate::digits::lemma_digits_value_of_dec;
use crate::parser::digit_run_end;
use crate::parser::is_range_op;
use crate::parser::is_uint_char_op;
use crate::parser::is_uint_op;
use crate::parser::range_rule;
use crate::parser::single_rule;
use crate::parser::spec_parse_line;
use crate::parser::spec_parse_rule;
use crate::parser::spec_parse_rules;
use crate::parser::spec_parse_uint;
use crate::parser::spec_range;
use crate::parser::spec_range_delim;
use crate::parser::uint_char_rule;
use crate::parser::uint_rule;

verus! {

/// True of the rules the canonical printer can spell so that the parser reads
/// them back: no terminal marker, one-character stored strings, and no digit
/// as the character operand of the integer-then-character opcodes, where a
/// digit would be swallowed by the integer.
pub open spec fn wf_rule(r: RuleV) -> bool {
    match r {
        RuleV::NoOp => true,
        RuleV::End => false,
        RuleV::Transform(t) => match t {
            TransformRuleV::Append(t2) => t2.len() == 1,
            TransformRuleV::Prepend(t2) => t2.len() == 1,
            TransformRuleV::Insert(_, t2) => t2.len() == 1,
            TransformRuleV::Overwrite(_, t2) => t2.len() == 1 && !is_digit(t2[0]),
            TransformRuleV::Replace(a, b) => a.len() == 1 && b.len() == 1,
            TransformRuleV::Purge(t2) => t2.len() == 1,
            _ => true,
        },
        RuleV::Reject(j) => match j {
            RejectRuleV::Contains(t2) => t2.len() == 1,
            RejectRuleV::NotContains(t2) => t2.len() == 1,
            RejectRuleV::NotStartsWith(t2) => t2.len() == 1,
            RejectRuleV::NotEndsWith(t2) => t2.len() == 1,
            RejectRuleV::NotEqualAt(_, t2) => t2.len() == 1 && !is_digit(t2[0]),
            RejectRuleV::ContainsLessThan(_, t2) => t2.len() == 1 && !is_digit(t2[0]),
            _ => true,
        },
    }
}

/// The canonical spelling of one rule.
pub open spec fn spec_serialize_rule(r: RuleV) -> Seq<char> {
    match r {
        RuleV::NoOp => seq![':'],
        RuleV::End => Seq::empty(),
        RuleV::Transform(t) => match t {
            TransformRuleV::Lowercase => seq!['l'],
            TransformRuleV::Uppercase => seq!['u'],
            TransformRuleV::Capitalize => seq!['c'],
            TransformRuleV::InvertCapitalize => seq!['C'],
            TransformRuleV::ToggleCase(n) => match n {
                None => seq!['t'],
                Some(k) => seq!['T'] + dec_digits(k as int),
            },
            TransformRuleV::Reverse => seq!['r'],
            TransformRuleV::Duplicate(n) => match n {
                None => seq!['d'],
                Some(k) => seq!['p'] + dec_digits(k as int),
            },
            TransformRuleV::Reflect => seq!['f'],
            TransformRuleV::Rotate(d) => match d {
                Rotation::Left => seq!['{'],
                Rotation::Right => seq!['}'],
            },
            TransformRuleV::Append(t2) => seq!['$'] + t2,
            TransformRuleV::Prepend(t2) => seq!['^'] + t2,
            TransformRuleV::Delete(n) => seq!['D'] + dec_digits(n as int),
            TransformRuleV::Extract(a, b) => seq!['x'] + dec_digits(a as int) + seq![':']
                + dec_digits(b as int),
            TransformRuleV::Omit(a, b) => seq!['O'] + dec_digits(a as int) + seq![':']
                + dec_digits(b as int),
            TransformRuleV::Insert(n, t2) => seq!['i'] + t2 + dec_digits(n as int),
            TransformRuleV::Overwrite(n, t2) => seq!['o'] + dec_digits(n as int) + t2,
            TransformRuleV::Truncate(d) => match d {
                Truncate::Left => seq!['['],
                Truncate::Right => seq![']'],
                Truncate::To(n) => seq!['\''] + dec_digits(n as int),
            },
            TransformRuleV::Replace(a, b) => seq!['s'] + a + b,
            TransformRuleV::Purge(t2) => seq!['@'] + t2,
            TransformRuleV::DuplicateFirst(n) => seq!['z'] + dec_digits(n as int),
            TransformRuleV::DuplicateLast(n) => seq!['Z'] + dec_digits(n as int),
            TransformRuleV::DuplicateAll => seq!['q'],
            TransformRuleV::SwapFront => seq!['k'],
            TransformRuleV::SwapBack => seq!['K'],
            TransformRuleV::Swap(a, b) => seq!['*'] + dec_digits(a as int) + seq![':']
                + dec_digits(b as int),
            TransformRuleV::BitwiseShiftLeft(n) => seq!['L'] + dec_digits(n as int),
            TransformRuleV::BitwiseShiftRight(n) => seq!['R'] + dec_digits(n as int),
            TransformRuleV::AsciiIncrement(n) => seq!['+'] + dec_digits(n as int),
            TransformRuleV::AsciiDecrement(n) => seq!['-'] + dec_digits(n as int),
            TransformRuleV::ReplaceWithNext(n) => seq!['.'] + dec_digits(n as int),
            TransformRuleV::ReplaceWithPrev(n) => seq![','] + dec_digits(n as int),
            TransformRuleV::DuplicateFirstBlock(n) => seq!['y'] + dec_digits(n as int),
            TransformRuleV::DuplicateLastBlock(n) => seq!['Y'] + dec_digits(n as int),
        },
        RuleV::Reject(j) => match j {
            RejectRuleV::ShorterThan(n) => seq!['>'] + dec_digits(n as int),
            RejectRuleV::LongerThan(n) => seq!['<'] + dec_digits(n as int),
            RejectRuleV::NotEqualTo(n) => seq!['_'] + dec_digits(n as int),
            RejectRuleV::Contains(t2) => seq!['!'] + t2,
            RejectRuleV::NotContains(t2) => seq!['/'] + t2,
            RejectRuleV::NotStartsWith(t2) => seq!['('] + t2,
            RejectRuleV::NotEndsWith(t2) => seq![')'] + t2,
            RejectRuleV::NotEqualAt(n, t2) => seq!['='] + dec_digits(n as int) + t2,
            RejectRuleV::ContainsLessThan(n, t2) => seq!['%'] + dec_digits(n as int) + t2,
        },
    }
}

/// The canonical spelling of a rule sequence: the rules in a row, nothing
/// between them.
pub open spec fn spec_serialize_line(rules: Seq<RuleV>) -> Seq<char>
    decreases rules.len(),
{
    if rules.len() == 0 {
        Seq::empty()
    } else {
        spec_serialize_rule(rules[0]) + spec_serialize_line(rules.drop_first())
    }
}

fn push_str_chars(out: &mut Vec<char>, t: &String)
    ensures
        final(out)@ == old(out)@ + t@,
{
    let tv = crate::chars::chars_of(t.as_str());
    extend_all(out, &tv);
}

fn push_dec(out: &mut Vec<char>, n: usize)
    ensures
        final(out)@ == old(out)@ + dec_digits(n as int),
{
    let d = to_dec_chars(n);
    extend_all(out, &d);
}

/// Append the canonical spelling of one rule.
fn serialize_rule_into(out: &mut Vec<char>, r: &Rule)
    ensures
        final(out)@ == old(out)@ + spec_serialize_rule(r@),
{
    match r {
        Rule::NoOp => {
            out.push(':');
            proof {
                assert(out@ =~= old(out)@ + seq![':']);
            }
        },
        Rule::End => {
            proof {
                assert(out@ =~= old(out)@ + Seq::<char>::empty());
            }
        },
        Rule::Transform(t) => {
            match t {
                TransformRule::Lowercase => {
                    out.push('l');
                    proof {
                        assert(out@ =~= old(out)@ + seq!['l']);
                    }
                },
                TransformRule::Uppercase => {
                    out.push('u');
                    proof {
                        assert(out@ =~= old(out)@ + seq!['u']);
                    }
                },
                TransformRule::Capitalize => {
                    out.push('c');
                    proof {
                        assert(out@ =~= old(out)@ + seq!['c']);
                    }
                },
                TransformRule::InvertCapitalize => {
                    out.push('C');
                    proof {
                        assert(out@ =~= old(out)@ + seq!['C']);
                    }
                },
                TransformRule::ToggleCase(n) => {
                    match n {
                        None => {
                            out.push('t');
                            proof {
                                assert(out@ =~= old(out)@ + seq!['t']);
                            }
                        },
                        Some(k) => {
                            out.push('T');
                            push_dec(out, *k);
                            proof {
                                assert(out@ =~= old(out)@ + (seq!['T'] + dec_digits(*k as int)));
                            }
                        },
                    }
                },
                TransformRule::Reverse => {
                    out.push('r');
                    proof {
                        assert(out@ =~= old(out)@ + seq!['r']);
                    }
                },
                TransformRule::Duplicate(n) => {
                    match n {
                        None => {
                            out.push('d');
                            proof {
                                assert(out@ =~= old(out)@ + seq!['d']);
                            }
                        },
                        Some(k) => {
                            out.push('p');
                            push_dec(out, *k);
                            proof {
                                assert(out@ =~= old(out)@ + (seq!['p'] + dec_digits(*k as int)));
                            }
                        },
                    }
                },
                TransformRule::Reflect => {
                    out.push('f');
                    proof {
                        assert(out@ =~= old(out)@ + seq!['f']);
                    }
                },
                TransformRule::Rotate(d) => {
                    match d {
                        Rotation::Left => {
                            out.push('{');
                            proof {
                                assert(out@ =~= old(out)@ + seq!['{']);
                            }
                        },
                        Rotation::Right => {
                            out.push('}');
                            proof {
                                assert(out@ =~= old(out)@ + seq!['}']);
                            }
                        },
                    }
                },
                TransformRule::Append(t2) => {
                    out.push('$');
                    push_str_chars(out, t2);
                    proof {
                        assert(out@ =~= old(out)@ + (seq!['$'] + t2@));
                    }
                },
                TransformRule::Prepend(t2) => {
                    out.push('^');
                    push_str_chars(out, t2);
                    proof {
                        assert(out@ =~= old(out)@ + (seq!['^'] + t2@));
                    }
                },
                TransformRule::Delete(n) => {
                    out.push('D');
                    push_dec(out, *n);
                    proof {
                        assert(out@ =~= old(out)@ + (seq!['D'] + dec_digits(*n as int)));
                    }
                },
                TransformRule::Extract(a, b) => {
                    out.push('x');
                    push_dec(out, *a);
                    out.push(':');
                    push_dec(out, *b);
                    proof {
                        assert(out@ =~= old(out)@ + (seq!['x'] + dec_digits(*a as int) + seq![':']
                            + dec_digits(*b as int)));
                    }
                },
                TransformRule::Omit(a, b) => {
                    out.push('O');
                    push_dec(out, *a);
                    out.push(':');
                    push_dec(out, *b);
                    proof {
                        assert(out@ =~= old(out)@ + (seq!['O'] + dec_digits(*a as int) + seq![':']
                            + dec_digits(*b as int)));
                    }
                },
                TransformRule::Insert(n, t2) => {
                    out.push('i');
                    push_str_chars(out, t2);
                    push_dec(out, *n);
                    proof {
                        assert(out@ =~= old(out)@ + (seq!['i'] + t2@ + dec_digits(*n as int)));
                    }
                },
                TransformRule::Overwrite(n, t2) => {
                    out.push('o');
                    push_dec(out, *n);
                    push_str_chars(out, t2);
                    proof {
                        assert(out@ =~= old(out)@ + (seq!['o'] + dec_digits(*n as int) + t2@));
                    }
                },
                TransformRule::Truncate(d) => {
                    match d {
                        Truncate::Left => {
                            out.push('[');
                            proof {
                                assert(out@ =~= old(out)@ + seq!['[']);
                            }
                        },
                        Truncate::Right => {
                            out.push(']');
                            proof {
                                assert(out@ =~= old(out)@ + seq![']']);
                            }
                        },
                        Truncate::To(n) => {
                            out.push('\'');
                            push_dec(out, *n);
                            proof {
                                assert(out@ =~= old(out)@ + (seq!['\''] + dec_digits(*n as int)));
                            }
                        },
                    }
                },
                TransformRule::Replace(a, b) => {
                    out.push('s');
                    push_str_chars(out, a);
                    push_str_chars(out, b);
                    proof {
                        assert(out@ =~= old(out)@ + (seq!['s'] + a@ + b@));
                    }
                },
                TransformRule::Purge(t2) => {
                    out.push('@');
                    push_str_chars(out, t2);
                    proof {
                        assert(out@ =~= old(out)@ + (seq!['@'] + t2@));
                    }
                },
                TransformRule::DuplicateFirst(n) => {
                    out.push('z');
                    push_dec(out, *n);
                    proof {
                        assert(out@ =~= old(out)@ + (seq!['z'] + dec_digits(*n as int)));
                    }
                },
                TransformRule::DuplicateLast(n) => {
                    out.push('Z');
                    push_dec(out, *n);
                    proof {
                        assert(out@ =~= old(out)@ + (seq!['Z'] + dec_digits(*n as int)));
                    }
                },
                TransformRule::DuplicateAll => {
                    out.push('q');
                    proof {
                        assert(out@ =~= old(out)@ + seq!['q']);
                    }
                },
                TransformRule::SwapFront => {
                    out.push('k');
                    proof {
                        assert(out@ =~= old(out)@ + seq!['k']);
                    }
                },
                TransformRule::SwapBack => {
                    out.push('K');
                    proof {
                        assert(out@ =~= old(out)@ + seq!['K']);
                    }
                },
                TransformRule::Swap(a, b) => {
                    out.push('*');
                    push_dec(out, *a);
                    out.push(':');
                    push_dec(out, *b);
                    proof {
                        assert(out@ =~= old(out)@ + (seq!['*'] + dec_digits(*a as int) + seq![':']
                            + dec_digits(*b as int)));
                    }
                },
                TransformRule::BitwiseShiftLeft(n) => {
                    out.push('L');
                    push_dec(out, *n);
                    proof {
                        assert(out@ =~= old(out)@ + (seq!['L'] + dec_digits(*n as int)));
                    }
                },
                TransformRule::BitwiseShiftRight(n) => {
                    out.push('R');
                    push_dec(out, *n);
                    proof {
                        assert(out@ =~= old(out)@ + (seq!['R'] + dec_digits(*n as int)));
                    }
                },
                TransformRule::AsciiIncrement(n) => {
                    out.push('+');
                    push_dec(out, *n);
                    proof {
                        assert(out@ =~= old(out)@ + (seq!['+'] + dec_digits(*n as int)));
                    }
                },
                TransformRule::AsciiDecrement(n) => {
                    out.push('-');
                    push_dec(out, *n);
                    proof {
                        assert(out@ =~= old(out)@ + (seq!['-'] + dec_digits(*n as int)));
                    }
                },
                TransformRule::ReplaceWithNext(n) => {
                    out.push('.');
                    push_dec(out, *n);
                    proof {
                        assert(out@ =~= old(out)@ + (seq!['.'] + dec_digits(*n as int)));
                    }
                },
                TransformRule::ReplaceWithPrev(n) => {
                    out.push(',');
                    push_dec(out, *n);
                    proof {
                        assert(out@ =~= old(out)@ + (seq![','] + dec_digits(*n as int)));
                    }
                },
                TransformRule::DuplicateFirstBlock(n) => {
                    out.push('y');
                    push_dec(out, *n);
                    proof {
                        assert(out@ =~= old(out)@ + (seq!['y'] + dec_digits(*n as int)));
                    }
                },
                TransformRule::DuplicateLastBlock(n) => {
                    out.push('Y');
                    push_dec(out, *n);
                    proof {
                        assert(out@ =~= old(out)@ + (seq!['Y'] + dec_digits(*n as int)));
                    }
                },
            }
        },
        Rule::Reject(j) => {
            match j {
                RejectRule::ShorterThan(n) => {
                    out.push('>');
                    push_dec(out, *n);
                    proof {
                        assert(out@ =~= old(out)@ + (seq!['>'] + dec_digits(*n as int)));
                    }
                },
                RejectRule::LongerThan(n) => {
                    out.push('<');
                    push_dec(out, *n);
                    proof {
                        assert(out@ =~= old(out)@ + (seq!['<'] + dec_digits(*n as int)));
                    }
                },
                RejectRule::NotEqualTo(n) => {
                    out.push('_');
                    push_dec(out, *n);
                    proof {
                        assert(out@ =~= old(out)@ + (seq!['_'] + dec_digits(*n as int)));
                    }
                },
                RejectRule::Contains(t2) => {
                    out.push('!');
                    push_str_chars(out, t2);
                    proof {
                        assert(out@ =~= old(out)@ + (seq!['!'] + t2@));
                    }
                },
                RejectRule::NotContains(t2) => {
                    out.push('/');
                    push_str_chars(out, t2);
                    proof {
                        assert(out@ =~= old(out)@ + (seq!['/'] + t2@));
                    }
                },
                RejectRule::NotStartsWith(t2) => {
                    out.push('(');
                    push_str_chars(out, t2);
                    proof {
                        assert(out@ =~= old(out)@ + (seq!['('] + t2@));
                    }
                },
                RejectRule::NotEndsWith(t2) => {
                    out.push(')');
                    push_str_chars(out, t2);
                    proof {
                        assert(out@ =~= old(out)@ + (seq![')'] + t2@));
                    }
                },
                RejectRule::NotEqualAt(n, t2) => {
                    out.push('=');
                    push_dec(out, *n);
                    push_str_chars(out, t2);
                    proof {
                        assert(out@ =~= old(out)@ + (seq!['='] + dec_digits(*n as int) + t2@));
                    }
                },
                RejectRule::ContainsLessThan(n, t2) => {
                    out.push('%');
                    push_dec(out, *n);
                    push_str_chars(out, t2);
                    proof {
                        assert(out@ =~= old(out)@ + (seq!['%'] + dec_digits(*n as int) + t2@));
                    }
                },
            }
        },
    }
}

/// The canonical spelling of one rule.
pub fn serialize_rule(r: &Rule) -> (s: String)
    ensures
        s@ == spec_serialize_rule(r@),
{
    let mut out: Vec<char> = Vec::new();
    serialize_rule_into(&mut out, r);
    proof {
        assert(Seq::<char>::empty() + spec_serialize_rule(r@) =~= spec_serialize_rule(r@));
    }
    string_of(&out)
}

/// The canonical spelling of a rule sequence.
pub fn serialize_line(rules: &Vec<Rule>) -> (s: String)
    ensures
        s@ == spec_serialize_line(rules.deep_view()),
{
    let ghost rv = rules.deep_view();
    let mut out: Vec<char> = Vec::new();
    let mut i: usize = 0;
    proof {
        assert(rv.skip(0) =~= rv);
    }
    while i < rules.len()
        invariant
            i <= rv.len(),
            rv == rules.deep_view(),
            rv.len() == rules@.len(),
            spec_serialize_line(rv) == out@ + spec_serialize_line(rv.skip(i as int)),
        decreases rules.len() - i,
    {
        proof {
            assert(rv.skip(i as int)[0] == rv[i as int]);
            assert(rv[i as int] == rules@[i as int]@);
            assert(rv.skip(i as int).drop_first() =~= rv.skip(i as int + 1));
        }
        serialize_rule_into(&mut out, &rules[i]);
        i += 1;
    }
    proof {
        assert(rv.skip(rv.len() as int) =~= Seq::<RuleV>::empty());
        assert(out@ + Seq::<char>::empty() =~= out@);
    }
    string_of(&out)
}

/// What stands in a window of `s` also stands in every sub-window.
proof fn lemma_subwindow(s: Seq<char>, i: int, w: Seq<char>, a: int, b: int)
    requires
        0 <= i,
        i + w.len() <= s.len(),
        s.subrange(i, i + w.len()) == w,
        0 <= a <= b <= w.len(),
    ensures
        s.subrange(i + a, i + b) == w.subrange(a, b),
{
    assert forall|k: int| 0 <= k < b - a implies s[i + a + k] == #[trigger] w[a + k] by {
        assert(s.subrange(i, i + w.len())[a + k] == w[a + k]);
    }
    assert(s.subrange(i + a, i + b) =~= w.subrange(a, b));
}

/// A digit run bounded by a non-digit ends exactly at the bound.
proof fn lemma_run_of_digits(s: Seq<char>, i: int, j: int)
    requires
        0 <= i <= j <= s.len(),
        forall|k: int| i <= k < j ==> is_digit(#[trigger] s[k]),
        j == s.len() || !is_digit(s[j]),
    ensures
        digit_run_end(s, i) == j,
    decreases j - i,
{
    if i < j {
        lemma_run_of_digits(s, i + 1, j);
    }
}

/// A window holding the canonical decimal form of `n`, bounded by a
/// non-digit, reads back as `n`.
proof fn lemma_parse_uint_at(s: Seq<char>, i: int, n: usize)
    requires
        0 <= i,
        i + dec_digits(n as int).len() <= s.len(),
        s.subrange(i, i + dec_digits(n as int).len()) == dec_digits(n as int),
        i + dec_digits(n as int).len() == s.len() || !is_digit(
            s[i + dec_digits(n as int).len()],
        ),
    ensures
        spec_parse_uint(s, i) == Some((n, i + dec_digits(n as int).len())),
{
    let d = dec_digits(n as int);
    lemma_dec_digits_are_digits(n as int);
    assert forall|k: int| i <= k < i + d.len() implies is_digit(#[trigger] s[k]) by {
        assert(s.subrange(i, i + d.len())[k - i] == d[k - i]);
    }
    lemma_run_of_digits(s, i, i + d.len());
    lemma_digits_value_of_dec(n as int);
    assert(digits_value(s.subrange(i, i + d.len())) == n);
}

/// The canonical spelling of a well-formed rule starts with its opcode, which
/// is never a digit.
proof fn lemma_ser_first(r: RuleV)
    requires
        wf_rule(r),
    ensures
        spec_serialize_rule(r).len() >= 1,
        !is_digit(spec_serialize_rule(r)[0]),
{
    match r {
        RuleV::Transform(t) => {
            match t {
                TransformRuleV::ToggleCase(n) => {},
                TransformRuleV::Duplicate(n) => {},
                _ => {},
            }
        },
        _ => {},
    }
}

/// A newline is no opcode: no rule parses at it.
proof fn lemma_newline_none(s: Seq<char>, i: int)
    requires
        0 <= i < s.len(),
        s[i] == '\n',
    ensures
        spec_parse_rule(s, i) is None,
{
}

/// The common shape of the integer-operand opcodes: opcode, then the decimal
/// form, bounded by a non-digit.
proof fn lemma_parse_uint_op(s: Seq<char>, i: int, op: char, n: usize)
    requires
        0 <= i < s.len(),
        s[i] == op,
        is_uint_op(op),
        single_rule(op) is None,
        i + 1 + dec_digits(n as int).len() <= s.len(),
        s.subrange(i + 1, i + 1 + dec_digits(n as int).len()) == dec_digits(n as int),
        i + 1 + dec_digits(n as int).len() == s.len() || !is_digit(
            s[i + 1 + dec_digits(n as int).len()],
        ),
    ensures
        spec_parse_rule(s, i) == Some((uint_rule(op, n), i + 1 + dec_digits(n as int).len())),
{
    lemma_parse_uint_at(s, i + 1, n);
}

/// The common shape of the range opcodes: opcode, two decimal forms around a
/// colon, bounded by a non-digit.
proof fn lemma_parse_range_op(s: Seq<char>, i: int, op: char, a: usize, b: usize)
    requires
        0 <= i < s.len(),
        s[i] == op,
        is_range_op(op),
        ({
            let da = dec_digits(a as int);
            let db = dec_digits(b as int);
            let end = i + 1 + da.len() + 1 + db.len();
            &&& end <= s.len()
            &&& s.subrange(i + 1, i + 1 + da.len()) == da
            &&& s[i + 1 + da.len()] == ':'
            &&& s.subrange(i + 2 + da.len(), end) == db
            &&& (end == s.len() || !is_digit(s[end]))
        }),
    ensures
        ({
            let end = i + 1 + dec_digits(a as int).len() + 1 + dec_digits(b as int).len();
            spec_parse_rule(s, i) == Some((range_rule(op, a, b), end))
        }),
{
    let da = dec_digits(a as int);
    let db = dec_digits(b as int);
    let end = i + 1 + da.len() + 1 + db.len();
    assert(!is_digit(':'));
    lemma_parse_uint_at(s, i + 1, a);
    lemma_parse_uint_at(s, i + 2 + da.len(), b);
    assert(spec_range_delim(s, i + 1) == Some(((a, b), end)));
    assert(spec_range(s, i + 1) == Some(((a, b), end)));
}

/// A window holding the canonical spelling of a well-formed rule, bounded by
/// a non-digit, parses back to exactly that rule.
#[verifier::rlimit(60)]
proof fn lemma_parse_serialized_rule(s: Seq<char>, i: int, r: RuleV)
    requires
        wf_rule(r),
        0 <= i,
        i + spec_serialize_rule(r).len() <= s.len(),
        s.subrange(i, i + spec_serialize_rule(r).len()) == spec_serialize_rule(r),
        i + spec_serialize_rule(r).len() == s.len() || !is_digit(
            s[i + spec_serialize_rule(r).len()],
        ),
    ensures
        spec_parse_rule(s, i) == Some((r, i + spec_serialize_rule(r).len())),
{
    let w = spec_serialize_rule(r);
    let len = w.len() as int;
    lemma_ser_first(r);
    assert(s[i] == w[0]) by {
        assert(s.subrange(i, i + len)[0] == w[0]);
    }
    match r {
        RuleV::NoOp => {},
        RuleV::End => {},
        RuleV::Transform(t) => {
            match t {
                TransformRuleV::Lowercase => {},
                TransformRuleV::Uppercase => {},
                TransformRuleV::Capitalize => {},
                TransformRuleV::InvertCapitalize => {},
                TransformRuleV::Reverse => {},
                TransformRuleV::Reflect => {},
                TransformRuleV::Rotate(d) => {},
                TransformRuleV::DuplicateAll => {},
                TransformRuleV::SwapFront => {},
                TransformRuleV::SwapBack => {},
                TransformRuleV::ToggleCase(n) => {
                    match n {
                        None => {},
                        Some(k) => {
                            assert(w.subrange(1, len) =~= dec_digits(k as int));
                            lemma_subwindow(s, i, w, 1, len);
                            lemma_parse_uint_op(s, i, 'T', k);
                        },
                    }
                },
                TransformRuleV::Duplicate(n) => {
                    match n {
                        None => {},
                        Some(k) => {
                            assert(w.subrange(1, len) =~= dec_digits(k as int));
                            lemma_subwindow(s, i, w, 1, len);
                            lemma_parse_uint_op(s, i, 'p', k);
                        },
                    }
                },
                TransformRuleV::Delete(n) => {
                    assert(w.subrange(1, len) =~= dec_digits(n as int));
                    lemma_subwindow(s, i, w, 1, len);
                    lemma_parse_uint_op(s, i, 'D', n);
                },
                TransformRuleV::Truncate(d) => {
                    match d {
                        Truncate::Left => {},
                        Truncate::Right => {},
                        Truncate::To(n) => {
                            assert(w.subrange(1, len) =~= dec_digits(n as int));
                            lemma_subwindow(s, i, w, 1, len);
                            lemma_parse_uint_op(s, i, '\'', n);
                        },
                    }
                },
                TransformRuleV::DuplicateFirst(n) => {
                    assert(w.subrange(1, len) =~= dec_digits(n as int));
                    lemma_subwindow(s, i, w, 1, len);
                    lemma_parse_uint_op(s, i, 'z', n);
                },
                TransformRuleV::DuplicateLast(n) => {
                    assert(w.subrange(1, len) =~= dec_digits(n as int));
                    lemma_subwindow(s, i, w, 1, len);
                    lemma_parse_uint_op(s, i, 'Z', n);
                },
                TransformRuleV::BitwiseShiftLeft(n) => {
                    assert(w.subrange(1, len) =~= dec_digits(n as int));
                    lemma_subwindow(s, i, w, 1, len);
                    lemma_parse_uint_op(s, i, 'L', n);
                },
                TransformRuleV::BitwiseShiftRight(n) => {
                    assert(w.subrange(1, len) =~= dec_digits(n as int));
                    lemma_subwindow(s, i, w, 1, len);
                    lemma_parse_uint_op(s, i, 'R', n);
                },
                TransformRuleV::AsciiIncrement(n) => {
                    assert(w.subrange(1, len) =~= dec_digits(n as int));
                    lemma_subwindow(s, i, w, 1, len);
                    lemma_parse_uint_op(s, i, '+', n);
                },
                TransformRuleV::AsciiDecrement(n) => {
                    assert(w.subrange(1, len) =~= dec_digits(n as int));
                    lemma_subwindow(s, i, w, 1, len);
                    lemma_parse_uint_op(s, i, '-', n);
                },
                TransformRuleV::ReplaceWithNext(n) => {
                    assert(w.subrange(1, len) =~= dec_digits(n as int));
                    lemma_subwindow(s, i, w, 1, len);
                    lemma_parse_uint_op(s, i, '.', n);
                },
                TransformRuleV::ReplaceWithPrev(n) => {
                    assert(w.subrange(1, len) =~= dec_digits(n as int));
                    lemma_subwindow(s, i, w, 1, len);
                    lemma_parse_uint_op(s, i, ',', n);
                },
                TransformRuleV::DuplicateFirstBlock(n) => {
                    assert(w.subrange(1, len) =~= dec_digits(n as int));
                    lemma_subwindow(s, i, w, 1, len);
                    lemma_parse_uint_op(s, i, 'y', n);
                },
                TransformRuleV::DuplicateLastBlock(n) => {
                    assert(w.subrange(1, len) =~= dec_digits(n as int));
                    lemma_subwindow(s, i, w, 1, len);
                    lemma_parse_uint_op(s, i, 'Y', n);
                },
                TransformRuleV::Append(t2) => {
                    assert(s[i + 1] == w[1]) by {
                        assert(s.subrange(i, i + len)[1] == w[1]);
                    }
                    assert(seq![s[i + 1]] =~= t2);
                },
                TransformRuleV::Prepend(t2) => {
                    assert(s[i + 1] == w[1]) by {
                        assert(s.subrange(i, i + len)[1] == w[1]);
                    }
                    assert(seq![s[i + 1]] =~= t2);
                },
                TransformRuleV::Purge(t2) => {
                    assert(s[i + 1] == w[1]) by {
                        assert(s.subrange(i, i + len)[1] == w[1]);
                    }
                    assert(seq![s[i + 1]] =~= t2);
                },
                TransformRuleV::Extract(a, b) => {
                    let da = dec_digits(a as int);
                    let db = dec_digits(b as int);
                    assert(w.subrange(1, 1 + da.len() as int) =~= da);
                    assert(w.subrange(2 + da.len() as int, len) =~= db);
                    lemma_subwindow(s, i, w, 1, 1 + da.len() as int);
                    lemma_subwindow(s, i, w, 2 + da.len() as int, len);
                    assert(s[i + 1 + da.len()] == ':') by {
                        assert(s.subrange(i, i + len)[1 + da.len() as int] == w[1 + da.len() as int]);
                    }
                    lemma_parse_range_op(s, i, 'x', a, b);
                },
                TransformRuleV::Omit(a, b) => {
                    let da = dec_digits(a as int);
                    let db = dec_digits(b as int);
                    assert(w.subrange(1, 1 + da.len() as int) =~= da);
                    assert(w.subrange(2 + da.len() as int, len) =~= db);
                    lemma_subwindow(s, i, w, 1, 1 + da.len() as int);
                    lemma_subwindow(s, i, w, 2 + da.len() as int, len);
                    assert(s[i + 1 + da.len()] == ':') by {
                        assert(s.subrange(i, i + len)[1 + da.len() as int] == w[1 + da.len() as int]);
                    }
                    lemma_parse_range_op(s, i, 'O', a, b);
                },
                TransformRuleV::Swap(a, b) => {
                    let da = dec_digits(a as int);
                    let db = dec_digits(b as int);
                    assert(w.subrange(1, 1 + da.len() as int) =~= da);
                    assert(w.subrange(2 + da.len() as int, len) =~= db);
                    lemma_subwindow(s, i, w, 1, 1 + da.len() as int);
                    lemma_subwindow(s, i, w, 2 + da.len() as int, len);
                    assert(s[i + 1 + da.len()] == ':') by {
                        assert(s.subrange(i, i + len)[1 + da.len() as int] == w[1 + da.len() as int]);
                    }
                    lemma_parse_range_op(s, i, '*', a, b);
                },
                TransformRuleV::Insert(n, t2) => {
                    let d = dec_digits(n as int);
                    assert(s[i + 1] == w[1]) by {
                        assert(s.subrange(i, i + len)[1] == w[1]);
                    }
                    assert(w.subrange(2, len) =~= d);
                    lemma_subwindow(s, i, w, 2, len);
                    lemma_parse_uint_at(s, i + 2, n);
                    assert(seq![s[i + 1]] =~= t2);
                },
                TransformRuleV::Overwrite(n, t2) => {
                    let d = dec_digits(n as int);
                    assert(w.subrange(1, 1 + d.len() as int) =~= d);
                    lemma_subwindow(s, i, w, 1, 1 + d.len() as int);
                    assert(s[i + 1 + d.len()] == t2[0]) by {
                        assert(s.subrange(i, i + len)[1 + d.len() as int] == w[1 + d.len() as int]);
                    }
                    lemma_parse_uint_char_op(s, i, 'o', n, t2[0]);
                    assert(seq![t2[0]] =~= t2);
                },
                TransformRuleV::Replace(a, b) => {
                    assert(s[i + 1] == w[1] && s[i + 2] == w[2]) by {
                        assert(s.subrange(i, i + len)[1] == w[1]);
                        assert(s.subrange(i, i + len)[2] == w[2]);
                    }
                    assert(seq![s[i + 1]] =~= a);
                    assert(seq![s[i + 2]] =~= b);
                },
            }
        },
        RuleV::Reject(j) => {
            match j {
                RejectRuleV::ShorterThan(n) => {
                    assert(w.subrange(1, len) =~= dec_digits(n as int));
                    lemma_subwindow(s, i, w, 1, len);
                    lemma_parse_uint_op(s, i, '>', n);
                },
                RejectRuleV::LongerThan(n) => {
                    assert(w.subrange(1, len) =~= dec_digits(n as int));
                    lemma_subwindow(s, i, w, 1, len);
                    lemma_parse_uint_op(s, i, '<', n);
                },
                RejectRuleV::NotEqualTo(n) => {
                    assert(w.subrange(1, len) =~= dec_digits(n as int));
                    lemma_subwindow(s, i, w, 1, len);
                    lemma_parse_uint_op(s, i, '_', n);
                },
                RejectRuleV::Contains(t2) => {
                    assert(s[i + 1] == w[1]) by {
                        assert(s.subrange(i, i + len)[1] == w[1]);
                    }
                    assert(seq![s[i + 1]] =~= t2);
                },
                RejectRuleV::NotContains(t2) => {
                    assert(s[i + 1] == w[1]) by {
                        assert(s.subrange(i, i + len)[1] == w[1]);
                    }
                    assert(seq![s[i + 1]] =~= t2);
                },
                RejectRuleV::NotStartsWith(t2) => {
                    assert(s[i + 1] == w[1]) by {
                        assert(s.subrange(i, i + len)[1] == w[1]);
                    }
                    assert(seq![s[i + 1]] =~= t2);
                },
                RejectRuleV::NotEndsWith(t2) => {
                    assert(s[i + 1] == w[1]) by {
                        assert(s.subrange(i, i + len)[1] == w[1]);
                    }
                    assert(seq![s[i + 1]] =~= t2);
                },
                RejectRuleV::NotEqualAt(n, t2) => {
                    let d = dec_digits(n as int);
                    assert(w.subrange(1, 1 + d.len() as int) =~= d);
                    lemma_subwindow(s, i, w, 1, 1 + d.len() as int);
                    assert(s[i + 1 + d.len()] == t2[0]) by {
                        assert(s.subrange(i, i + len)[1 + d.len() as int] == w[1 + d.len() as int]);
                    }
                    lemma_parse_uint_char_op(s, i, '=', n, t2[0]);
                    assert(seq![t2[0]] =~= t2);
                },
                RejectRuleV::ContainsLessThan(n, t2) => {
                    let d = dec_digits(n as int);
                    assert(w.subrange(1, 1 + d.len() as int) =~= d);
                    lemma_subwindow(s, i, w, 1, 1 + d.len() as int);
                    assert(s[i + 1 + d.len()] == t2[0]) by {
                        assert(s.subrange(i, i + len)[1 + d.len() as int] == w[1 + d.len() as int]);
                    }
                    lemma_parse_uint_char_op(s, i, '%', n, t2[0]);
                    assert(seq![t2[0]] =~= t2);
                },
            }
        },
    }
}

/// The common shape of the integer-then-character opcodes: the character is
/// no digit, so the decimal form before it is read whole.
proof fn lemma_parse_uint_char_op(s: Seq<char>, i: int, op: char, n: usize, c: char)
    requires
        0 <= i < s.len(),
        s[i] == op,
        is_uint_char_op(op),
        !is_digit(c),
        ({
            let d = dec_digits(n as int);
            let end = i + 1 + d.len() + 1;
            &&& end <= s.len()
            &&& s.subrange(i + 1, i + 1 + d.len()) == d
            &&& s[i + 1 + d.len()] == c
        }),
    ensures
        ({
            let end = i + 1 + dec_digits(n as int).len() + 1;
            spec_parse_rule(s, i) == Some((uint_char_rule(op, n, c), end))
        }),
{
    lemma_parse_uint_at(s, i + 1, n);
}

/// A window holding the canonical spelling of a well-formed rule sequence,
/// bounded by a newline or the end of the input, parses back greedily to
/// exactly those rules, stalling at the bound.
proof fn lemma_parse_serialized_rules(rules: Seq<RuleV>, s: Seq<char>, i: int)
    requires
        forall|k: int| 0 <= k < rules.len() ==> wf_rule(#[trigger] rules[k]),
        0 <= i,
        i + spec_serialize_line(rules).len() <= s.len(),
        s.subrange(i, i + spec_serialize_line(rules).len()) == spec_serialize_line(rules),
        i + spec_serialize_line(rules).len() == s.len() || s[i + spec_serialize_line(rules).len()]
            == '\n',
    ensures
        spec_parse_rules(s, i) == (rules, i + spec_serialize_line(rules).len()),
    decreases rules.len(),
{
    let full = spec_serialize_line(rules);
    let ltot = full.len() as int;
    if rules.len() == 0 {
        if i < s.len() {
            assert(s[i] == '\n');
            lemma_newline_none(s, i);
        }
        assert(spec_parse_rules(s, i).0 =~= rules);
    } else {
        let r0 = rules[0];
        let rest = rules.drop_first();
        let w0 = spec_serialize_rule(r0);
        let wr = spec_serialize_line(rest);
        let l0 = w0.len() as int;
        assert(full == w0 + wr);
        lemma_ser_first(r0);
        assert(full.subrange(0, l0) =~= w0);
        lemma_subwindow(s, i, full, 0, l0);
        if rest.len() > 0 {
            assert(forall|k: int| 0 <= k < rest.len() ==> wf_rule(#[trigger] rest[k]));
            lemma_ser_first(rest[0]);
            assert(wr == spec_serialize_rule(rest[0]) + spec_serialize_line(rest.drop_first()));
            assert(wr[0] == spec_serialize_rule(rest[0])[0]);
            assert(s[i + l0] == full[l0]) by {
                assert(s.subrange(i, i + ltot)[l0] == full[l0]);
            }
            assert(full[l0] == wr[0]);
            assert(!is_digit(s[i + l0]));
        } else {
            assert(wr =~= Seq::<char>::empty());
            assert(ltot == l0);
            assert(i + l0 == s.len() || !is_digit(s[i + l0]));
        }
        lemma_parse_serialized_rule(s, i, r0);
        assert(full.subrange(l0, ltot) =~= wr);
        lemma_subwindow(s, i, full, l0, ltot);
        lemma_parse_serialized_rules(rest, s, i + l0);
        assert(spec_parse_rules(s, i).0 =~= rules);
    }
}

/// Round trip: every well-formed rule sequence, printed canonically, parses
/// back to exactly the same sequence, consuming the whole line. Well-formed
/// means: no terminal marker, one-character stored strings, and no digit as
/// the character operand of an integer-then-character opcode — everything the
/// parser itself can produce.
pub proof fn lemma_parse_serialize_round_trip(rules: Seq<RuleV>)
    requires
        forall|k: int| 0 <= k < rules.len() ==> wf_rule(#[trigger] rules[k]),
    ensures
        spec_parse_line(spec_serialize_line(rules), 0) == Some(
            (rules, spec_serialize_line(rules).len() as int),
        ),
{
    let s = spec_serialize_line(rules);
    assert(s.subrange(0, s.len() as int) =~= s);
    lemma_parse_serialized_rules(rules, s, 0);
}

/// Round trip of every accepted line: the rules that one line parse accepts,
/// printed canonically and parsed again, come back unchanged.
pub proof fn lemma_accepted_line_round_trip(s: Seq<char>, i: int)
    requires
        0 <= i <= s.len(),
        spec_parse_line(s, i) is Some,
    ensures
        ({
            let rules = spec_parse_line(s, i)->Some_0.0;
            spec_parse_line(spec_serialize_line(rules), 0) == Some(
                (rules, spec_serialize_line(rules).len() as int),
            )
        }),
{
    crate::parser::lemma_parsed_rules_wf(s, i);
    lemma_parse_serialize_round_trip(spec_parse_line(s, i)->Some_0.0);
}

} // verus!
