//! Tests for the evaluator, the simplifier and the canonical printer:
//! single-rule semantics, edge cases that must not panic, the laws on
//! concrete values, and the print-then-parse round trip.

use trans_engine::lang::{RejectRule, Rotation, Rule, TransformRule, Truncate};
use trans_engine::parser::parse_line;
use trans_engine::serialize::{serialize_line, serialize_rule};
use trans_engine::RulesAndWords;

fn chars(s: &str) -> Vec<char> {
    s.chars().collect()
}

fn t(rule: TransformRule, word: &str) -> String {
    rule.run(word.to_string())
}

fn keep(rule: RejectRule, word: &str) -> Option<String> {
    rule.run(word.to_string())
}

#[test]
fn transform_rules_on_words() {
    assert_eq!(t(TransformRule::Lowercase, "Password123"), "password123");
    assert_eq!(t(TransformRule::Uppercase, "mixed"), "MIXED");
    assert_eq!(t(TransformRule::Capitalize, "hELLO"), "Hello");
    assert_eq!(t(TransformRule::InvertCapitalize, "Hello"), "hELLO");
    assert_eq!(t(TransformRule::ToggleCase(None), "aBc1"), "AbC1");
    assert_eq!(t(TransformRule::ToggleCase(Some(0)), "password"), "Password");
    assert_eq!(t(TransformRule::Reverse, "abc"), "cba");
    assert_eq!(t(TransformRule::Duplicate(None), "abc"), "abcabc");
    assert_eq!(t(TransformRule::Duplicate(Some(2)), "abc"), "abcabcabc");
    assert_eq!(t(TransformRule::Reflect, "abc"), "abccba");
    assert_eq!(t(TransformRule::Rotate(Rotation::Left), "abc"), "bca");
    assert_eq!(t(TransformRule::Rotate(Rotation::Right), "abc"), "cab");
    assert_eq!(t(TransformRule::Append("1".to_string()), "password"), "password1");
    assert_eq!(t(TransformRule::Prepend("A".to_string()), "password"), "Apassword");
    assert_eq!(t(TransformRule::Delete(1), "password"), "pssword");
    assert_eq!(t(TransformRule::Extract(1, 3), "password"), "ass");
    assert_eq!(t(TransformRule::Omit(2, 4), "password"), "pard");
    assert_eq!(t(TransformRule::Insert(1, "X".to_string()), "abc"), "aXbc");
    assert_eq!(t(TransformRule::Overwrite(0, "l".to_string()), "assword"), "lssword");
    assert_eq!(t(TransformRule::Truncate(Truncate::Left), "password"), "assword");
    assert_eq!(t(TransformRule::Truncate(Truncate::Right), "password"), "passwor");
    assert_eq!(t(TransformRule::Truncate(Truncate::To(3)), "password"), "pas");
    assert_eq!(t(TransformRule::Replace("a".to_string(), "b".to_string()), "banana"), "bbnbnb");
    assert_eq!(t(TransformRule::Purge("a".to_string()), "banana"), "bnn");
    assert_eq!(t(TransformRule::DuplicateFirst(2), "password"), "pppassword");
    assert_eq!(t(TransformRule::DuplicateLast(1), "password"), "passwordd");
    assert_eq!(t(TransformRule::DuplicateAll, "abc"), "aabbcc");
    assert_eq!(t(TransformRule::SwapFront, "abc"), "bac");
    assert_eq!(t(TransformRule::SwapBack, "abc"), "acb");
    assert_eq!(t(TransformRule::Swap(0, 5), "password"), "oasswprd");
    assert_eq!(t(TransformRule::ReplaceWithNext(0), "abc"), "bbc");
    assert_eq!(t(TransformRule::ReplaceWithPrev(2), "abc"), "abb");
    assert_eq!(t(TransformRule::DuplicateFirstBlock(2), "abc"), "ababc");
    assert_eq!(t(TransformRule::DuplicateLastBlock(1), "abc"), "abcc");
}

#[test]
fn byte_arithmetic_rules() {
    // Per-byte wrapping arithmetic: one exact value for each formula.
    assert_eq!(t(TransformRule::AsciiIncrement(1), "abc"), "bcd");
    assert_eq!(t(TransformRule::AsciiDecrement(1), "bcd"), "abc");
    assert_eq!(t(TransformRule::BitwiseShiftRight(1), "ab"), "01");
    assert_eq!(t(TransformRule::BitwiseShiftLeft(1), "ab"), "\u{c2}\u{c4}");
    // Shift amounts wrap modulo the byte width.
    assert_eq!(t(TransformRule::BitwiseShiftRight(9), "ab"), "01");
    // Additions wrap modulo 256.
    assert_eq!(t(TransformRule::AsciiIncrement(257), "abc"), "bcd");
}

#[test]
fn out_of_range_positions_never_panic() {
    assert_eq!(t(TransformRule::Delete(9), "abc"), "abc");
    assert_eq!(t(TransformRule::ToggleCase(Some(9)), "abc"), "abc");
    assert_eq!(t(TransformRule::Extract(5, 9), "abc"), "");
    assert_eq!(t(TransformRule::Extract(1, 9), "abc"), "bc");
    assert_eq!(t(TransformRule::Omit(9, 2), "abc"), "abc");
    assert_eq!(t(TransformRule::Insert(9, "X".to_string()), "abc"), "abcX");
    assert_eq!(t(TransformRule::Overwrite(9, "X".to_string()), "abc"), "abcX");
    assert_eq!(t(TransformRule::Swap(1, 9), "abc"), "abc");
    assert_eq!(t(TransformRule::ReplaceWithNext(2), "abc"), "abc");
    assert_eq!(t(TransformRule::ReplaceWithPrev(0), "abc"), "abc");
    assert_eq!(t(TransformRule::DuplicateFirstBlock(9), "abc"), "abcabc");
    assert_eq!(t(TransformRule::DuplicateLastBlock(9), "abc"), "abcabc");
    assert_eq!(t(TransformRule::Truncate(Truncate::To(9)), "abc"), "abc");
}

#[test]
fn empty_words_never_panic() {
    assert_eq!(t(TransformRule::Rotate(Rotation::Left), ""), "");
    assert_eq!(t(TransformRule::Rotate(Rotation::Right), ""), "");
    assert_eq!(t(TransformRule::SwapFront, ""), "");
    assert_eq!(t(TransformRule::SwapBack, "x"), "x");
    assert_eq!(t(TransformRule::Truncate(Truncate::Right), ""), "");
    assert_eq!(t(TransformRule::Capitalize, ""), "");
    assert_eq!(t(TransformRule::DuplicateFirst(3), ""), "");
    assert_eq!(t(TransformRule::DuplicateLast(3), ""), "");
    assert_eq!(t(TransformRule::Duplicate(Some(0)), "abc"), "abc");
}

#[test]
fn empty_search_strings_leave_the_word() {
    assert_eq!(t(TransformRule::Replace("".to_string(), "x".to_string()), "ab"), "ab");
    assert_eq!(t(TransformRule::Purge("".to_string()), "ab"), "ab");
}

#[test]
fn reject_rules_on_words() {
    assert_eq!(keep(RejectRule::ShorterThan(5), "pass"), None);
    assert_eq!(keep(RejectRule::ShorterThan(4), "pass"), Some("pass".to_string()));
    assert_eq!(keep(RejectRule::LongerThan(5), "password"), None);
    assert_eq!(keep(RejectRule::LongerThan(8), "password"), Some("password".to_string()));
    assert_eq!(keep(RejectRule::NotEqualTo(4), "pass"), Some("pass".to_string()));
    assert_eq!(keep(RejectRule::NotEqualTo(4), "passw"), None);
    assert_eq!(keep(RejectRule::Contains("a".to_string()), "test"), Some("test".to_string()));
    assert_eq!(keep(RejectRule::Contains("a".to_string()), "pass"), None);
    assert_eq!(keep(RejectRule::NotContains("p".to_string()), "pass"), Some("pass".to_string()));
    assert_eq!(keep(RejectRule::NotContains("p".to_string()), "test"), None);
    assert_eq!(keep(RejectRule::NotStartsWith("a".to_string()), "apple"), Some("apple".to_string()));
    assert_eq!(keep(RejectRule::NotStartsWith("a".to_string()), "pear"), None);
    assert_eq!(keep(RejectRule::NotEndsWith("e".to_string()), "apple"), Some("apple".to_string()));
    assert_eq!(keep(RejectRule::NotEndsWith("e".to_string()), "pear"), None);
    assert_eq!(keep(RejectRule::NotEqualAt(1, "b".to_string()), "abc"), Some("abc".to_string()));
    assert_eq!(keep(RejectRule::NotEqualAt(1, "x".to_string()), "abc"), None);
    assert_eq!(
        keep(RejectRule::ContainsLessThan(2, "l".to_string()), "hello"),
        Some("hello".to_string())
    );
    assert_eq!(keep(RejectRule::ContainsLessThan(2, "l".to_string()), "helo"), None);
}

#[test]
fn run_all_short_circuits_on_rejection() {
    let rules = vec![
        Rule::Transform(TransformRule::Lowercase),
        Rule::Reject(RejectRule::LongerThan(3)),
        Rule::Transform(TransformRule::Append("!".to_string())),
    ];
    assert_eq!(Rule::run_all(&rules, "ABC".to_string()), Some("abc!".to_string()));
    assert_eq!(Rule::run_all(&rules, "ABCD".to_string()), None);
    assert_eq!(Rule::run_all(&Vec::new(), "x".to_string()), Some("x".to_string()));
}

#[test]
fn multi_line_rules_apply_line_by_line() {
    let input = chars("lu\nc");
    let (first, rest) = parse_line(&input, 0).unwrap();
    let (second, _) = parse_line(&input, rest).unwrap();
    assert_eq!(Rule::run_all(&first, "HeLLo".to_string()), Some("HELLO".to_string()));
    assert_eq!(Rule::run_all(&second, "HeLLo".to_string()), Some("Hello".to_string()));
}

#[test]
fn simplify_strips_noops_and_coalesces() {
    let merged = Rule::simplify(vec![
        Rule::NoOp,
        Rule::Transform(TransformRule::Append("a".to_string())),
        Rule::NoOp,
        Rule::Transform(TransformRule::Append("b".to_string())),
    ]);
    assert_eq!(merged, vec![Rule::Transform(TransformRule::Append("ab".to_string()))]);

    let merged = Rule::simplify(vec![
        Rule::Transform(TransformRule::Prepend("a".to_string())),
        Rule::Transform(TransformRule::Prepend("b".to_string())),
    ]);
    assert_eq!(merged, vec![Rule::Transform(TransformRule::Prepend("ba".to_string()))]);

    let merged = Rule::simplify(vec![
        Rule::Transform(TransformRule::DuplicateLast(2)),
        Rule::Transform(TransformRule::DuplicateLast(3)),
    ]);
    assert_eq!(merged, vec![Rule::Transform(TransformRule::DuplicateLast(5))]);

    let merged = Rule::simplify(vec![
        Rule::Transform(TransformRule::DuplicateFirst(1)),
        Rule::Transform(TransformRule::DuplicateLast(2)),
    ]);
    assert_eq!(merged, vec![Rule::Transform(TransformRule::DuplicateFirst(3))]);

    let merged = Rule::simplify(vec![
        Rule::Transform(TransformRule::Lowercase),
        Rule::Transform(TransformRule::Lowercase),
    ]);
    assert_eq!(merged, vec![Rule::Transform(TransformRule::Lowercase)]);

    let merged = Rule::simplify(vec![
        Rule::Transform(TransformRule::ToggleCase(Some(2))),
        Rule::Transform(TransformRule::ToggleCase(Some(2))),
    ]);
    assert_eq!(merged, vec![Rule::NoOp]);

    let merged = Rule::simplify(vec![
        Rule::Transform(TransformRule::Reverse),
        Rule::Transform(TransformRule::Reverse),
    ]);
    assert_eq!(merged, vec![Rule::NoOp]);

    let kept = vec![
        Rule::Transform(TransformRule::Lowercase),
        Rule::Transform(TransformRule::Reverse),
    ];
    assert_eq!(Rule::simplify(kept.clone()), kept);
}

#[test]
fn simplify_preserves_what_a_chain_produces() {
    let rules = vec![
        Rule::NoOp,
        Rule::Transform(TransformRule::Lowercase),
        Rule::Transform(TransformRule::Lowercase),
        Rule::Transform(TransformRule::Append("1".to_string())),
        Rule::Transform(TransformRule::Append("2".to_string())),
        Rule::Transform(TransformRule::Reverse),
        Rule::Transform(TransformRule::Reverse),
    ];
    let simplified = Rule::simplify(rules.clone());
    assert!(simplified.len() < rules.len());
    for word in ["Password", "A", ""] {
        assert_eq!(
            Rule::run_all(&simplified, word.to_string()),
            Rule::run_all(&rules, word.to_string())
        );
    }
}

#[test]
fn involution_laws_on_words() {
    for word in ["Password123", "", "a", "MiXeD"] {
        let twice = t(TransformRule::Reverse, &t(TransformRule::Reverse, word));
        assert_eq!(twice, word);
        let twice = t(TransformRule::ToggleCase(None), &t(TransformRule::ToggleCase(None), word));
        assert_eq!(twice, word);
        let twice = t(
            TransformRule::ToggleCase(Some(1)),
            &t(TransformRule::ToggleCase(Some(1)), word),
        );
        assert_eq!(twice, word);
        let once = t(TransformRule::Lowercase, word);
        assert_eq!(t(TransformRule::Lowercase, &once), once);
        let once = t(TransformRule::Uppercase, word);
        assert_eq!(t(TransformRule::Uppercase, &once), once);
        let once = t(TransformRule::Capitalize, word);
        assert_eq!(t(TransformRule::Capitalize, &once), once);
        let once = t(TransformRule::InvertCapitalize, word);
        assert_eq!(t(TransformRule::InvertCapitalize, &once), once);
    }
}

#[test]
fn canonical_print_parse_round_trip() {
    let line = chars("luct$1^A[D2x1:3O45sa!z2Z3=2e%3f'7i.5o4X");
    let (rules, _) = parse_line(&line, 0).unwrap();
    let printed = serialize_line(&rules);
    let printed_chars: Vec<char> = printed.chars().collect();
    let (again, rest) = parse_line(&printed_chars, 0).unwrap();
    assert_eq!(again, rules);
    assert_eq!(rest, printed_chars.len());
}

#[test]
fn canonical_print_normalizes_raw_ranges() {
    let (rules, _) = parse_line(&chars("x12"), 0).unwrap();
    assert_eq!(serialize_line(&rules), "x1:2");
    let (again, _) = parse_line(&chars("x1:2"), 0).unwrap();
    assert_eq!(again, rules);
}

#[test]
fn serialize_single_rules() {
    assert_eq!(serialize_rule(&Rule::NoOp), ":");
    assert_eq!(serialize_rule(&Rule::Transform(TransformRule::Append("1".to_string()))), "$1");
    assert_eq!(serialize_rule(&Rule::Transform(TransformRule::ToggleCase(Some(10)))), "T10");
    assert_eq!(serialize_rule(&Rule::Transform(TransformRule::Swap(11, 14))), "*11:14");
    assert_eq!(serialize_rule(&Rule::Reject(RejectRule::ShorterThan(3))), ">3");
    assert_eq!(serialize_rule(&Rule::Reject(RejectRule::LongerThan(8))), "<8");
    assert_eq!(
        serialize_rule(&Rule::Transform(TransformRule::Insert(5, "x".to_string()))),
        "ix5"
    );
}

#[test]
fn parse_errors_carry_the_stall_position() {
    let err = parse_line(&chars("luc|"), 0).unwrap_err();
    assert_eq!(err.position, 3);
    assert_eq!(err.to_string(), "Parsing Error at position 3");

    let err = parse_line(&chars("T"), 0).unwrap_err();
    assert_eq!(err.position, 0);

    let err = parse_line(&chars("x"), 0).unwrap_err();
    assert_eq!(err.position, 0);

    let err = parse_line(&chars("o5"), 0).unwrap_err();
    assert_eq!(err.position, 0);
}

#[test]
fn batch_inputs_pair_rules_with_words() {
    let batch = RulesAndWords {
        rules: vec!["l".to_string()],
        words: vec!["ABC".to_string()],
    };
    let out = trans_engine::engine::run(batch.rules, batch.words).unwrap();
    assert_eq!(out, vec!["abc".to_string()]);
}
