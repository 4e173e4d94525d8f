//! The rule-line parser: single-character opcodes followed by their operands,
//! parsed until the first newline or the end of the input.
use vstd::prelude::*;

use crate::chars::string_of;
use crate::lang::RejectRule;
use crate::lang::RejectRuleV;
use crate::lang::Rotation;
use crate::lang::Rule;
use crate::lang::RuleV;
use crate::lang::TransformRule;
use crate::lang::TransformRuleV;
use crate::lang::Truncate;
use crate::digits::digit_val;
use crate::digits::digits_value;
use crate::digits::is_digit;

verus! {

/// A parse failure, carrying the position of the rule that could not be
/// read.
#[derive(Debug)]
pub struct ParseError {
    pub position: usize,
}

/// The end of the digit run that starts at `i`: the first position at or
/// after `i` holding no digit.
pub open spec fn digit_run_end(s: Seq<char>, i: int) -> int
    decreases s.len() - i,
{
    if i < 0 || i >= s.len() {
        i
    } else if is_digit(s[i]) {
        digit_run_end(s, i + 1)
    } else {
        i
    }
}

pub proof fn lemma_run_end_bounds(s: Seq<char>, i: int)
    requires
        0 <= i <= s.len(),
    ensures
        i <= digit_run_end(s, i) <= s.len(),
    decreases s.len() - i,
{
    if i < s.len() && is_digit(s[i]) {
        lemma_run_end_bounds(s, i + 1);
    }
}

/// The value of a digit run is never negative.
pub proof fn lemma_digits_value_nonneg(s: Seq<char>)
    requires
        forall|k: int| 0 <= k < s.len() ==> is_digit(#[trigger] s[k]),
    ensures
        digits_value(s) >= 0,
    decreases s.len(),
{
    if s.len() > 0 {
        lemma_digits_value_nonneg(s.drop_last());
        assert(digits_value(s) == digits_value(s.drop_last()) * 10 + digit_val(s.last()));
        assert(digits_value(s.drop_last()) * 10 >= 0) by (nonlinear_arith)
            requires
                digits_value(s.drop_last()) >= 0,
        ;
    }
}

/// A maximal run of decimal digits starting at `i`, read as an unsigned
/// integer: at least one digit, and a value that fits a machine word.
pub open spec fn spec_parse_uint(s: Seq<char>, i: int) -> Option<(usize, int)> {
    let j = digit_run_end(s, i);
    if j == i {
        None
    } else {
        let v = digits_value(s.subrange(i, j));
        if v <= usize::MAX {
            Some((v as usize, j))
        } else {
            None
        }
    }
}

/// Read a maximal digit run at `pos` as an unsigned integer; fails on an
/// empty run and on overflow.
pub(crate) fn parse_uint(v: &Vec<char>, pos: usize) -> (r: Option<(usize, usize)>)
    requires
        pos <= v@.len(),
    ensures
        match r {
            Some((n, j)) => spec_parse_uint(v@, pos as int) == Some((n, j as int)) && pos < j
                <= v@.len(),
            None => spec_parse_uint(v@, pos as int) is None,
        },
{
    let len = v.len();
    let mut j: usize = pos;
    let mut acc: usize = 0;
    let mut over: bool = false;
    loop
        invariant
            pos <= j <= len,
            len == v@.len(),
            forall|k: int| pos <= k < j ==> is_digit(#[trigger] v@[k]),
            digit_run_end(v@, pos as int) == digit_run_end(v@, j as int),
            !over ==> acc == digits_value(v@.subrange(pos as int, j as int)),
            over ==> digits_value(v@.subrange(pos as int, j as int)) > usize::MAX,
        decreases len - j,
    {
        let done: bool = if j == len {
            true
        } else {
            let u0: u32 = v[j] as u32;
            u0 < 48 || u0 > 57
        };
        if done {
            proof {
                assert(digit_run_end(v@, j as int) == j as int);
            }
            if j == pos {
                return None;
            }
            if over {
                return None;
            }
            proof {
                lemma_run_end_bounds(v@, pos as int);
            }
            return Some((acc, j));
        }
        let c = v[j];
        let u: u32 = c as u32;
        let d: usize = (u - 48) as usize;
        proof {
            assert(v@.subrange(pos as int, j as int + 1).drop_last() =~= v@.subrange(
                pos as int,
                j as int,
            ));
            assert(v@.subrange(pos as int, j as int + 1).last() == v@[j as int]);
            lemma_digits_value_nonneg(v@.subrange(pos as int, j as int));
        }
        if over {
            proof {
                let old_val = digits_value(v@.subrange(pos as int, j as int));
                assert(old_val * 10 + d > usize::MAX) by (nonlinear_arith)
                    requires
                        old_val > usize::MAX,
                        d >= 0,
                ;
            }
        } else {
            if acc > (usize::MAX - d) / 10 {
                over = true;
                proof {
                    let old_val = digits_value(v@.subrange(pos as int, j as int));
                    assert(old_val * 10 + d > usize::MAX) by (nonlinear_arith)
                        requires
                            old_val > (usize::MAX - d) / 10,
                            old_val >= 0,
                            0 <= d <= 9,
                            usize::MAX >= 9,
                    ;
                }
            } else {
                proof {
                    assert(acc * 10 + d <= usize::MAX) by (nonlinear_arith)
                        requires
                            0 <= acc <= (usize::MAX - d) / 10,
                            0 <= d <= 9,
                    ;
                }
                acc = acc * 10 + d;
            }
        }
        j += 1;
    }
}

/// A range in the delimited form: two unsigned integers separated by one
/// colon.
pub open spec fn spec_range_delim(s: Seq<char>, i: int) -> Option<((usize, usize), int)> {
    match spec_parse_uint(s, i) {
        None => None,
        Some((a, j)) => if j < s.len() && s[j] == ':' {
            match spec_parse_uint(s, j + 1) {
                None => None,
                Some((b, k)) => Some(((a, b), k)),
            }
        } else {
            None
        },
    }
}

/// A range in the raw form: exactly two digits, one each.
pub open spec fn spec_range_raw(s: Seq<char>, i: int) -> Option<((usize, usize), int)> {
    if 0 <= i && i + 2 <= s.len() && is_digit(s[i]) && is_digit(s[i + 1]) {
        Some(((digit_val(s[i]) as usize, digit_val(s[i + 1]) as usize), i + 2))
    } else {
        None
    }
}

/// A range: the delimited form where it matches, the raw form otherwise.
pub open spec fn spec_range(s: Seq<char>, i: int) -> Option<((usize, usize), int)> {
    match spec_range_delim(s, i) {
        Some(r) => Some(r),
        None => spec_range_raw(s, i),
    }
}

/// Parse a range in the form `N:M`: two decimal integers separated by a
/// colon.
pub fn range_parser_delim(input: &Vec<char>, pos: usize) -> (r: Option<((usize, usize), usize)>)
    requires
        pos <= input@.len(),
    ensures
        match r {
            Some((ab, j)) => spec_range_delim(input@, pos as int) == Some((ab, j as int)) && pos < j
                <= input@.len(),
            None => spec_range_delim(input@, pos as int) is None,
        },
{
    match parse_uint(input, pos) {
        None => None,
        Some((a, j)) => {
            if j < input.len() && input[j] == ':' {
                match parse_uint(input, j + 1) {
                    None => None,
                    Some((b, k)) => Some(((a, b), k)),
                }
            } else {
                None
            }
        },
    }
}

/// Parse a range in the form `NM`: exactly two digits, one for each bound.
pub fn range_parse_raw(input: &Vec<char>, pos: usize) -> (r: Option<((usize, usize), usize)>)
    requires
        pos <= input@.len(),
    ensures
        match r {
            Some((ab, j)) => spec_range_raw(input@, pos as int) == Some((ab, j as int)) && pos < j
                <= input@.len(),
            None => spec_range_raw(input@, pos as int) is None,
        },
{
    if input.len() - pos < 2 {
        return None;
    }
    let c0 = input[pos];
    let c1 = input[pos + 1];
    let u0: u32 = c0 as u32;
    let u1: u32 = c1 as u32;
    if u0 < 48 || u0 > 57 || u1 < 48 || u1 > 57 {
        return None;
    }
    Some((((u0 - 48) as usize, (u1 - 48) as usize), pos + 2))
}

/// Parse a range: the delimited form first, the raw form as fallback.
pub fn range_parser(input: &Vec<char>, pos: usize) -> (r: Option<((usize, usize), usize)>)
    requires
        pos <= input@.len(),
    ensures
        match r {
            Some((ab, j)) => spec_range(input@, pos as int) == Some((ab, j as int)) && pos < j
                <= input@.len(),
            None => spec_range(input@, pos as int) is None,
        },
{
    match range_parser_delim(input, pos) {
        Some(r) => Some(r),
        None => range_parse_raw(input, pos),
    }
}

/// The rule of an opcode that takes no operand, if the opcode is such.
pub open spec fn single_rule(op: char) -> Option<RuleV> {
    if op == ':' {
        Some(RuleV::NoOp)
    } else if op == 'l' {
        Some(RuleV::Transform(TransformRuleV::Lowercase))
    } else if op == 'u' {
        Some(RuleV::Transform(TransformRuleV::Uppercase))
    } else if op == 'c' {
        Some(RuleV::Transform(TransformRuleV::Capitalize))
    } else if op == 'C' {
        Some(RuleV::Transform(TransformRuleV::InvertCapitalize))
    } else if op == 't' {
        Some(RuleV::Transform(TransformRuleV::ToggleCase(None)))
    } else if op == 'r' {
        Some(RuleV::Transform(TransformRuleV::Reverse))
    } else if op == 'd' {
        Some(RuleV::Transform(TransformRuleV::Duplicate(None)))
    } else if op == 'f' {
        Some(RuleV::Transform(TransformRuleV::Reflect))
    } else if op == '{' {
        Some(RuleV::Transform(TransformRuleV::Rotate(Rotation::Left)))
    } else if op == '}' {
        Some(RuleV::Transform(TransformRuleV::Rotate(Rotation::Right)))
    } else if op == '[' {
        Some(RuleV::Transform(TransformRuleV::Truncate(Truncate::Left)))
    } else if op == ']' {
        Some(RuleV::Transform(TransformRuleV::Truncate(Truncate::Right)))
    } else if op == 'q' {
        Some(RuleV::Transform(TransformRuleV::DuplicateAll))
    } else if op == 'k' {
        Some(RuleV::Transform(TransformRuleV::SwapFront))
    } else if op == 'K' {
        Some(RuleV::Transform(TransformRuleV::SwapBack))
    } else {
        None
    }
}

/// True for the opcodes whose only operand is one unsigned integer.
pub open spec fn is_uint_op(op: char) -> bool {
    op == 'T' || op == 'p' || op == 'D' || op == '\'' || op == 'z' || op == 'Z' || op == 'L' || op
        == 'R' || op == '+' || op == '-' || op == '.' || op == ',' || op == 'y' || op == 'Y' || op
        == '<' || op == '>' || op == '_'
}

/// The rule of an integer-operand opcode.
pub open spec fn uint_rule(op: char, n: usize) -> RuleV {
    if op == 'T' {
        RuleV::Transform(TransformRuleV::ToggleCase(Some(n)))
    } else if op == 'p' {
        RuleV::Transform(TransformRuleV::Duplicate(Some(n)))
    } else if op == 'D' {
        RuleV::Transform(TransformRuleV::Delete(n))
    } else if op == '\'' {
        RuleV::Transform(TransformRuleV::Truncate(Truncate::To(n)))
    } else if op == 'z' {
        RuleV::Transform(TransformRuleV::DuplicateFirst(n))
    } else if op == 'Z' {
        RuleV::Transform(TransformRuleV::DuplicateLast(n))
    } else if op == 'L' {
        RuleV::Transform(TransformRuleV::BitwiseShiftLeft(n))
    } else if op == 'R' {
        RuleV::Transform(TransformRuleV::BitwiseShiftRight(n))
    } else if op == '+' {
        RuleV::Transform(TransformRuleV::AsciiIncrement(n))
    } else if op == '-' {
        RuleV::Transform(TransformRuleV::AsciiDecrement(n))
    } else if op == '.' {
        RuleV::Transform(TransformRuleV::ReplaceWithNext(n))
    } else if op == ',' {
        RuleV::Transform(TransformRuleV::ReplaceWithPrev(n))
    } else if op == 'y' {
        RuleV::Transform(TransformRuleV::DuplicateFirstBlock(n))
    } else if op == 'Y' {
        RuleV::Transform(TransformRuleV::DuplicateLastBlock(n))
    } else if op == '<' {
        RuleV::Reject(RejectRuleV::LongerThan(n))
    } else if op == '>' {
        RuleV::Reject(RejectRuleV::ShorterThan(n))
    } else {
        RuleV::Reject(RejectRuleV::NotEqualTo(n))
    }
}

/// True for the opcodes whose only operand is one character.
pub open spec fn is_char_op(op: char) -> bool {
    op == '$' || op == '^' || op == '@' || op == '!' || op == '/' || op == '(' || op == ')'
}

/// The rule of a character-operand opcode.
pub open spec fn char_rule(op: char, c: char) -> RuleV {
    if op == '$' {
        RuleV::Transform(TransformRuleV::Append(seq![c]))
    } else if op == '^' {
        RuleV::Transform(TransformRuleV::Prepend(seq![c]))
    } else if op == '@' {
        RuleV::Transform(TransformRuleV::Purge(seq![c]))
    } else if op == '!' {
        RuleV::Reject(RejectRuleV::Contains(seq![c]))
    } else if op == '/' {
        RuleV::Reject(RejectRuleV::NotContains(seq![c]))
    } else if op == '(' {
        RuleV::Reject(RejectRuleV::NotStartsWith(seq![c]))
    } else {
        RuleV::Reject(RejectRuleV::NotEndsWith(seq![c]))
    }
}

/// True for the opcodes whose operand is a range.
pub open spec fn is_range_op(op: char) -> bool {
    op == 'x' || op == 'O' || op == '*'
}

/// The rule of a range-operand opcode.
pub open spec fn range_rule(op: char, a: usize, b: usize) -> RuleV {
    if op == 'x' {
        RuleV::Transform(TransformRuleV::Extract(a, b))
    } else if op == 'O' {
        RuleV::Transform(TransformRuleV::Omit(a, b))
    } else {
        RuleV::Transform(TransformRuleV::Swap(a, b))
    }
}

/// True for the opcodes that take an integer and then a character.
pub open spec fn is_uint_char_op(op: char) -> bool {
    op == 'o' || op == '=' || op == '%'
}

/// The rule of an integer-then-character opcode.
pub open spec fn uint_char_rule(op: char, n: usize, c: char) -> RuleV {
    if op == 'o' {
        RuleV::Transform(TransformRuleV::Overwrite(n, seq![c]))
    } else if op == '=' {
        RuleV::Reject(RejectRuleV::NotEqualAt(n, seq![c]))
    } else {
        RuleV::Reject(RejectRuleV::ContainsLessThan(n, seq![c]))
    }
}

/// One rule read at position `i`: the opcode, then its operands. `None` on an
/// unknown opcode or a malformed operand.
pub open spec fn spec_parse_rule(s: Seq<char>, i: int) -> Option<(RuleV, int)> {
    if i < 0 || i >= s.len() {
        None
    } else {
        let op = s[i];
        match single_rule(op) {
            Some(r) => Some((r, i + 1)),
            None => {
                if is_uint_op(op) {
                    match spec_parse_uint(s, i + 1) {
                        Some((n, j)) => Some((uint_rule(op, n), j)),
                        None => None,
                    }
                } else if is_char_op(op) {
                    if i + 1 < s.len() {
                        Some((char_rule(op, s[i + 1]), i + 2))
                    } else {
                        None
                    }
                } else if is_range_op(op) {
                    match spec_range(s, i + 1) {
                        Some(((a, b), j)) => Some((range_rule(op, a, b), j)),
                        None => None,
                    }
                } else if op == 'i' {
                    if i + 2 < s.len() + 1 {
                        match spec_parse_uint(s, i + 2) {
                            Some((n, j)) => Some(
                                (RuleV::Transform(TransformRuleV::Insert(n, seq![s[i + 1]])), j),
                            ),
                            None => None,
                        }
                    } else {
                        None
                    }
                } else if op == 's' {
                    if i + 3 <= s.len() {
                        Some(
                            (
                                RuleV::Transform(
                                    TransformRuleV::Replace(seq![s[i + 1]], seq![s[i + 2]]),
                                ),
                                i + 3,
                            ),
                        )
                    } else {
                        None
                    }
                } else if is_uint_char_op(op) {
                    match spec_parse_uint(s, i + 1) {
                        Some((n, j)) => if j < s.len() {
                            Some((uint_char_rule(op, n, s[j]), j + 1))
                        } else {
                            None
                        },
                        None => None,
                    }
                } else {
                    None
                }
            },
        }
    }
}

pub proof fn lemma_uint_bounds(s: Seq<char>, i: int)
    requires
        0 <= i <= s.len(),
    ensures
        spec_parse_uint(s, i) matches Some((n, j)) ==> i < j <= s.len(),
{
    lemma_run_end_bounds(s, i);
}

pub proof fn lemma_range_bounds(s: Seq<char>, i: int)
    requires
        0 <= i <= s.len(),
    ensures
        spec_range(s, i) matches Some((ab, j)) ==> i < j <= s.len(),
{
    lemma_uint_bounds(s, i);
    if spec_range_delim(s, i) is Some {
        let (a, j) = spec_parse_uint(s, i)->Some_0;
        lemma_uint_bounds(s, j + 1);
    }
}

/// A successful rule parse consumes at least one character and stays within
/// the input.
pub proof fn lemma_parse_rule_bounds(s: Seq<char>, i: int)
    ensures
        spec_parse_rule(s, i) matches Some((r, j)) ==> 0 <= i < j <= s.len(),
{
    if 0 <= i < s.len() {
        lemma_uint_bounds(s, i + 1);
        lemma_range_bounds(s, i + 1);
        if (is_uint_char_op(s[i]) || s[i] == 'i') && i + 2 <= s.len() {
            lemma_uint_bounds(s, i + 2);
        }
    }
}

/// The greedy rule run from position `i`: all rules that parse, and the
/// position where parsing stalled.
pub open spec fn spec_parse_rules(s: Seq<char>, i: int) -> (Seq<RuleV>, int)
    decreases s.len() - i,
    when 0 <= i <= s.len()
    via spec_parse_rules_decreases
{
    match spec_parse_rule(s, i) {
        Some((r, j)) => {
            let (rest, k) = spec_parse_rules(s, j);
            (seq![r] + rest, k)
        },
        None => (Seq::empty(), i),
    }
}

#[via_fn]
proof fn spec_parse_rules_decreases(s: Seq<char>, i: int) {
    lemma_parse_rule_bounds(s, i);
}

/// The stall position of the greedy run stays within the input.
pub proof fn lemma_parse_rules_bounds(s: Seq<char>, i: int)
    requires
        0 <= i <= s.len(),
    ensures
        i <= spec_parse_rules(s, i).1 <= s.len(),
    decreases s.len() - i,
{
    lemma_parse_rule_bounds(s, i);
    match spec_parse_rule(s, i) {
        Some((r, j)) => {
            lemma_parse_rules_bounds(s, j);
        },
        None => {},
    }
}

/// A maximal digit run never stalls at a digit.
pub proof fn lemma_run_end_stall(s: Seq<char>, i: int)
    requires
        0 <= i,
    ensures
        digit_run_end(s, i) < s.len() ==> !is_digit(s[digit_run_end(s, i)]),
    decreases s.len() - i,
{
    if !(i < 0 || i >= s.len()) && is_digit(s[i]) {
        lemma_run_end_stall(s, i + 1);
    }
}

/// Whatever one rule parse accepts is well-formed for the canonical printer:
/// stored strings are one character, and the character after an integer
/// operand is never a digit.
pub proof fn lemma_parsed_rule_wf(s: Seq<char>, i: int)
    ensures
        spec_parse_rule(s, i) matches Some((r, j)) ==> crate::serialize::wf_rule(r),
{
    if 0 <= i < s.len() {
        let op = s[i];
        if single_rule(op) is None && !is_uint_op(op) && !is_char_op(op) && !is_range_op(op) && op
            != 'i' && op != 's' && is_uint_char_op(op) {
            match spec_parse_uint(s, i + 1) {
                Some((n, j)) => {
                    if j < s.len() {
                        lemma_run_end_stall(s, i + 1);
                    }
                },
                None => {},
            }
        }
    }
}

/// Whatever the greedy rule run accepts is well-formed for the canonical
/// printer.
pub proof fn lemma_parsed_rules_wf(s: Seq<char>, i: int)
    requires
        0 <= i <= s.len(),
    ensures
        forall|k: int|
            0 <= k < spec_parse_rules(s, i).0.len() ==> crate::serialize::wf_rule(
                #[trigger] spec_parse_rules(s, i).0[k],
            ),
    decreases s.len() - i,
{
    lemma_parse_rule_bounds(s, i);
    lemma_parsed_rule_wf(s, i);
    match spec_parse_rule(s, i) {
        Some((r, j)) => {
            lemma_parsed_rules_wf(s, j);
            let got = spec_parse_rules(s, i).0;
            let rest = spec_parse_rules(s, j).0;
            assert forall|k: int| 0 <= k < got.len() implies crate::serialize::wf_rule(
                #[trigger] got[k],
            ) by {
                if k >= 1 {
                    assert(got[k] == rest[k - 1]);
                }
            }
        },
        None => {},
    }
}

/// One line read from position `i`: the greedy rule run, then a newline
/// (consumed) or the end of the input. `None` when the line stalls anywhere
/// else.
pub open spec fn spec_parse_line(s: Seq<char>, i: int) -> Option<(Seq<RuleV>, int)> {
    let (rules, j) = spec_parse_rules(s, i);
    if j == s.len() {
        Some((rules, j))
    } else if s[j] == '\n' {
        Some((rules, j + 1))
    } else {
        None
    }
}

/// The string holding exactly one character.
fn char_string(c: char) -> (r: String)
    ensures
        r@ == seq![c],
{
    let mut v: Vec<char> = Vec::new();
    v.push(c);
    proof {
        assert(v@ =~= seq![c]);
    }
    string_of(&v)
}

fn single_rule_ex(op: char) -> (r: Option<Rule>)
    ensures
        match r {
            Some(rule) => single_rule(op) == Some(rule@),
            None => single_rule(op) is None,
        },
{
    if op == ':' {
        Some(Rule::NoOp)
    } else if op == 'l' {
        Some(Rule::Transform(TransformRule::Lowercase))
    } else if op == 'u' {
        Some(Rule::Transform(TransformRule::Uppercase))
    } else if op == 'c' {
        Some(Rule::Transform(TransformRule::Capitalize))
    } else if op == 'C' {
        Some(Rule::Transform(TransformRule::InvertCapitalize))
    } else if op == 't' {
        Some(Rule::Transform(TransformRule::ToggleCase(None)))
    } else if op == 'r' {
        Some(Rule::Transform(TransformRule::Reverse))
    } else if op == 'd' {
        Some(Rule::Transform(TransformRule::Duplicate(None)))
    } else if op == 'f' {
        Some(Rule::Transform(TransformRule::Reflect))
    } else if op == '{' {
        Some(Rule::Transform(TransformRule::Rotate(Rotation::Left)))
    } else if op == '}' {
        Some(Rule::Transform(TransformRule::Rotate(Rotation::Right)))
    } else if op == '[' {
        Some(Rule::Transform(TransformRule::Truncate(Truncate::Left)))
    } else if op == ']' {
        Some(Rule::Transform(TransformRule::Truncate(Truncate::Right)))
    } else if op == 'q' {
        Some(Rule::Transform(TransformRule::DuplicateAll))
    } else if op == 'k' {
        Some(Rule::Transform(TransformRule::SwapFront))
    } else if op == 'K' {
        Some(Rule::Transform(TransformRule::SwapBack))
    } else {
        None
    }
}

fn is_uint_op_ex(op: char) -> (b: bool)
    ensures
        b == is_uint_op(op),
{
    op == 'T' || op == 'p' || op == 'D' || op == '\'' || op == 'z' || op == 'Z' || op == 'L' || op
        == 'R' || op == '+' || op == '-' || op == '.' || op == ',' || op == 'y' || op == 'Y' || op
        == '<' || op == '>' || op == '_'
}

fn make_uint_rule(op: char, n: usize) -> (r: Rule)
    requires
        is_uint_op(op),
    ensures
        r@ == uint_rule(op, n),
{
    if op == 'T' {
        Rule::Transform(TransformRule::ToggleCase(Some(n)))
    } else if op == 'p' {
        Rule::Transform(TransformRule::Duplicate(Some(n)))
    } else if op == 'D' {
        Rule::Transform(TransformRule::Delete(n))
    } else if op == '\'' {
        Rule::Transform(TransformRule::Truncate(Truncate::To(n)))
    } else if op == 'z' {
        Rule::Transform(TransformRule::DuplicateFirst(n))
    } else if op == 'Z' {
        Rule::Transform(TransformRule::DuplicateLast(n))
    } else if op == 'L' {
        Rule::Transform(TransformRule::BitwiseShiftLeft(n))
    } else if op == 'R' {
        Rule::Transform(TransformRule::BitwiseShiftRight(n))
    } else if op == '+' {
        Rule::Transform(TransformRule::AsciiIncrement(n))
    } else if op == '-' {
        Rule::Transform(TransformRule::AsciiDecrement(n))
    } else if op == '.' {
        Rule::Transform(TransformRule::ReplaceWithNext(n))
    } else if op == ',' {
        Rule::Transform(TransformRule::ReplaceWithPrev(n))
    } else if op == 'y' {
        Rule::Transform(TransformRule::DuplicateFirstBlock(n))
    } else if op == 'Y' {
        Rule::Transform(TransformRule::DuplicateLastBlock(n))
    } else if op == '<' {
        Rule::Reject(RejectRule::LongerThan(n))
    } else if op == '>' {
        Rule::Reject(RejectRule::ShorterThan(n))
    } else {
        Rule::Reject(RejectRule::NotEqualTo(n))
    }
}

fn is_char_op_ex(op: char) -> (b: bool)
    ensures
        b == is_char_op(op),
{
    op == '$' || op == '^' || op == '@' || op == '!' || op == '/' || op == '(' || op == ')'
}

fn make_char_rule(op: char, c: char) -> (r: Rule)
    requires
        is_char_op(op),
    ensures
        r@ == char_rule(op, c),
{
    let t = char_string(c);
    if op == '$' {
        Rule::Transform(TransformRule::Append(t))
    } else if op == '^' {
        Rule::Transform(TransformRule::Prepend(t))
    } else if op == '@' {
        Rule::Transform(TransformRule::Purge(t))
    } else if op == '!' {
        Rule::Reject(RejectRule::Contains(t))
    } else if op == '/' {
        Rule::Reject(RejectRule::NotContains(t))
    } else if op == '(' {
        Rule::Reject(RejectRule::NotStartsWith(t))
    } else {
        Rule::Reject(RejectRule::NotEndsWith(t))
    }
}

fn is_range_op_ex(op: char) -> (b: bool)
    ensures
        b == is_range_op(op),
{
    op == 'x' || op == 'O' || op == '*'
}

fn make_range_rule(op: char, a: usize, b: usize) -> (r: Rule)
    requires
        is_range_op(op),
    ensures
        r@ == range_rule(op, a, b),
{
    if op == 'x' {
        Rule::Transform(TransformRule::Extract(a, b))
    } else if op == 'O' {
        Rule::Transform(TransformRule::Omit(a, b))
    } else {
        Rule::Transform(TransformRule::Swap(a, b))
    }
}

fn is_uint_char_op_ex(op: char) -> (b: bool)
    ensures
        b == is_uint_char_op(op),
{
    op == 'o' || op == '=' || op == '%'
}

fn make_uint_char_rule(op: char, n: usize, c: char) -> (r: Rule)
    requires
        is_uint_char_op(op),
    ensures
        r@ == uint_char_rule(op, n, c),
{
    let t = char_string(c);
    if op == 'o' {
        Rule::Transform(TransformRule::Overwrite(n, t))
    } else if op == '=' {
        Rule::Reject(RejectRule::NotEqualAt(n, t))
    } else {
        Rule::Reject(RejectRule::ContainsLessThan(n, t))
    }
}

/// Read one rule at `pos`: the opcode, then its operands. Fails on an unknown
/// opcode or a malformed operand, reporting the rule's own position.
pub fn parse_rule(input: &Vec<char>, pos: usize) -> (r: Result<(Rule, usize), ParseError>)
    requires
        pos <= input@.len(),
    ensures
        match r {
            Ok((rule, j)) => spec_parse_rule(input@, pos as int) == Some((rule@, j as int)) && pos
                < j <= input@.len(),
            Err(e) => spec_parse_rule(input@, pos as int) is None && e.position == pos,
        },
{
    let len = input.len();
    if pos == len {
        return Err(ParseError { position: pos });
    }
    let op = input[pos];
    match single_rule_ex(op) {
        Some(rule) => {
            return Ok((rule, pos + 1));
        },
        None => {},
    }
    if is_uint_op_ex(op) {
        match parse_uint(input, pos + 1) {
            Some((n, j)) => Ok((make_uint_rule(op, n), j)),
            None => Err(ParseError { position: pos }),
        }
    } else if is_char_op_ex(op) {
        if pos + 1 < len {
            Ok((make_char_rule(op, input[pos + 1]), pos + 2))
        } else {
            Err(ParseError { position: pos })
        }
    } else if is_range_op_ex(op) {
        match range_parser(input, pos + 1) {
            Some(((a, b), j)) => Ok((make_range_rule(op, a, b), j)),
            None => Err(ParseError { position: pos }),
        }
    } else if op == 'i' {
        if pos + 1 < len {
            match parse_uint(input, pos + 2) {
                Some((n, j)) => {
                    let t = char_string(input[pos + 1]);
                    Ok((Rule::Transform(TransformRule::Insert(n, t)), j))
                },
                None => Err(ParseError { position: pos }),
            }
        } else {
            Err(ParseError { position: pos })
        }
    } else if op == 's' {
        if len - pos >= 3 {
            let a = char_string(input[pos + 1]);
            let b = char_string(input[pos + 2]);
            Ok((Rule::Transform(TransformRule::Replace(a, b)), pos + 3))
        } else {
            Err(ParseError { position: pos })
        }
    } else if is_uint_char_op_ex(op) {
        match parse_uint(input, pos + 1) {
            Some((n, j)) => {
                if j < len {
                    Ok((make_uint_char_rule(op, n, input[j]), j + 1))
                } else {
                    Err(ParseError { position: pos })
                }
            },
            None => Err(ParseError { position: pos }),
        }
    } else {
        Err(ParseError { position: pos })
    }
}

/// Read one line from `start`: rules until the first stall, which must be a
/// newline (consumed) or the end of the input; anything else fails the whole
/// line, reporting the stall position.
pub fn parse_line(input: &Vec<char>, start: usize) -> (r: Result<(Vec<Rule>, usize), ParseError>)
    requires
        start <= input@.len(),
    ensures
        match r {
            Ok((rules, rest)) => spec_parse_line(input@, start as int) == Some(
                (rules.deep_view(), rest as int),
            ) && start <= rest <= input@.len(),
            Err(e) => spec_parse_line(input@, start as int) is None && e.position
                == spec_parse_rules(input@, start as int).1,
        },
{
    let mut rules: Vec<Rule> = Vec::new();
    let mut pos = start;
    loop
        invariant
            start <= pos <= input@.len(),
            spec_parse_rules(input@, start as int).0 == rules.deep_view() + spec_parse_rules(
                input@,
                pos as int,
            ).0,
            spec_parse_rules(input@, start as int).1 == spec_parse_rules(input@, pos as int).1,
        decreases input@.len() - pos,
    {
        match parse_rule(input, pos) {
            Ok((rule, next)) => {
                let ghost pre = rules.deep_view();
                let ghost rv = rule@;
                rules.push(rule);
                proof {
                    assert(rules.deep_view() =~= pre.push(rv));
                    assert(pre.push(rv) =~= pre + seq![rv]);
                    assert(spec_parse_rules(input@, pos as int).0 == seq![rv] + spec_parse_rules(
                        input@,
                        next as int,
                    ).0);
                }
                pos = next;
            },
            Err(_) => {
                proof {
                    assert(spec_parse_rules(input@, pos as int).0 =~= Seq::<RuleV>::empty());
                    assert(rules.deep_view() + Seq::<RuleV>::empty() =~= rules.deep_view());
                }
                if pos == input.len() {
                    return Ok((rules, pos));
                }
                if input[pos] == '\n' {
                    return Ok((rules, pos + 1));
                }
                return Err(ParseError { position: pos });
            },
        }
    }
}

impl ParseError {
    /// The error rendered as text, with the position at which the line could
    /// not be read.
    pub fn to_string(&self) -> (r: String)
        ensures
            r@ == "Parsing Error at position "@ + crate::digits::dec_digits(self.position as int),
    {
        let mut v = crate::chars::chars_of("Parsing Error at position ");
        let mut d = crate::digits::to_dec_chars(self.position);
        crate::strops::extend_all(&mut v, &d);
        string_of(&v)
    }
}

} // verus!
