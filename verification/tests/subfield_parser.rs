use pica_record::matcher::subfield::{
    CardinalityMatcher, ContainsMatcher, ExistsMatcher, InMatcher, RegexMatcher, RegexSetMatcher,
    RelationMatcher, SingletonMatcher, SubfieldMatcher,
};
use pica_record::matcher::{BooleanOp, MatcherOptions};
use pica_record::primitives::SubfieldRef;

const SUBFIELD_CODES: &str = "0123456789\
    abcdefghijklmnopqrstuvwxyzABCDEFGHIJKLMNOPQRSTUVWXYZ";

fn has(c: char) -> Vec<SubfieldRef<'static>> {
    vec![SubfieldRef::new(c, "x").unwrap()]
}

#[test]
fn parser_test_parse_exists_matcher() {
    let options = MatcherOptions::default();
    let cases = [
        ("a?", "a"),
        ("[ab]?", "ab"),
        ("[abc]?", "abc"),
        ("[a-c]?", "abc"),
        ("[a-cd]?", "abcd"),
        ("[a-cde]?", "abcde"),
        ("[a-cde-f]?", "abcdef"),
        ("[a-cde-fx]?", "abcdefx"),
        ("*?", SUBFIELD_CODES),
    ];
    for (input, codes) in cases {
        let matcher = ExistsMatcher::new(input).unwrap();
        assert_eq!(matcher.to_string(), input);
        for c in SUBFIELD_CODES.chars() {
            assert_eq!(matcher.is_match(&has(c), &options), codes.contains(c), "{input} {c}");
        }
    }

    assert!(ExistsMatcher::new("=?").is_err());
    assert!(ExistsMatcher::new("[a-a]?").is_err());
    assert!(ExistsMatcher::new("[b-a]?").is_err());
    assert!(ExistsMatcher::new("[a-c=]?").is_err());
    assert!(ExistsMatcher::new("ALL a?").is_err());
    assert!(ExistsMatcher::new("ANY a?").is_err());
}

#[test]
fn parser_test_parse_relation_matcher() {
    let options = MatcherOptions::default();
    let sf = |c: char, v: &'static str| SubfieldRef::new(c, v).unwrap();
    let cases = [
        "0 == 'abc'",
        "ALL 0 != 'abc'",
        "ANY [ab] == 'abc'",
        "a =^ 'abc'",
        "a !^ 'abc'",
        "a =$ 'abc'",
        "a !$ 'abc'",
        "a =* 'abc'",
    ];
    for input in cases {
        assert_eq!(RelationMatcher::new(input).unwrap().to_string(), input);
    }
    let m = RelationMatcher::new("ANY [ab] == 'abc'").unwrap();
    assert!(m.is_match(&[sf('b', "abc")], &options));
    assert!(!m.is_match(&[sf('c', "abc")], &options));
    let m = RelationMatcher::new("ALL 0 != 'abc'").unwrap();
    assert!(m.is_match(&[sf('0', "x"), sf('0', "y")], &options));
    assert!(!m.is_match(&[sf('0', "x"), sf('0', "abc")], &options));
    let m = RelationMatcher::new("a =^ 'abc'").unwrap();
    assert!(m.is_match(&[sf('a', "abcd")], &options));
    let m = RelationMatcher::new("a !$ 'abc'").unwrap();
    assert!(m.is_match(&[sf('a', "abcd")], &options));
}

#[test]
fn parser_test_parse_regex_matcher() {
    let options = MatcherOptions::default();
    let sf = |c: char, v: &'static str| SubfieldRef::new(c, v).unwrap();
    for input in [
        "ALL [ab] =~ \"foo\"",
        "[ab] =~ 'foo'",
        "ANY 0 =~ '^Tp'",
        "ALL 0 =~ '^Tp'",
        "0 =~ '^Tp'",
        "0 !~ '^Tp'",
    ] {
        assert_eq!(RegexMatcher::new(input).unwrap().to_string(), input);
    }
    assert!(RegexMatcher::new("0 =~ '^Tp'").unwrap().is_match(&[sf('0', "Tp1")], &options));
    assert!(!RegexMatcher::new("0 !~ '^Tp'").unwrap().is_match(&[sf('0', "Tp1")], &options));
    assert!(RegexMatcher::new("0 =~ '[[ab]'").is_err());
    assert!(RegexMatcher::new("0 !~ '[[ab]'").is_err());
}

#[test]
fn parser_test_parse_regex_set_matcher() {
    let options = MatcherOptions::default();
    let sf = |c: char, v: &'static str| SubfieldRef::new(c, v).unwrap();
    for input in [
        "ALL [ab] =~ [\"^foo\", \"bar$\"]",
        "[ab] =~ ['foo', 'bar']",
        "ANY 0 =~ ['^Tp', '^Ts']",
        "ALL 0 =~ ['^Tp', '^Ts']",
        "0 =~ ['^Tp', '^Ts']",
        "0 !~ ['^Tp', '^Ts']",
    ] {
        assert_eq!(RegexSetMatcher::new(input).unwrap().to_string(), input);
    }
    let m = RegexSetMatcher::new("0 =~ ['^Tp', '^Ts']").unwrap();
    assert!(m.is_match(&[sf('0', "Ts1")], &options));
    assert!(!m.is_match(&[sf('0', "Tu1")], &options));
    assert!(RegexSetMatcher::new("0 =~ ['[[ab]', 'Ts1']").is_err());
    assert!(RegexSetMatcher::new("0 !~ ['Tp3', '[[ab]']").is_err());
}

#[test]
fn parser_test_parse_in_matcher() {
    let options = MatcherOptions::default();
    let sf = |c: char, v: &'static str| SubfieldRef::new(c, v).unwrap();
    for input in [
        "0 in ['Tp1']",
        "0 in ['Tp1', 'Tpz']",
        "a not in 'adimnt'",
        "ANY [ab] in ['Tp1', 'Tpz']",
        "ALL 0 in ['Tp1', 'Tpz']",
        "0 not in ['Tp1', 'Tpz']",
    ] {
        assert_eq!(InMatcher::new(input).unwrap().to_string(), input);
    }
    let m = InMatcher::new("a not in 'adimnt'").unwrap();
    assert!(!m.is_match(&[sf('a', "m")], &options));
    assert!(m.is_match(&[sf('a', "x")], &options));
    let m = InMatcher::new("0 in ['Tp1', 'Tpz']").unwrap();
    assert!(m.is_match(&[sf('0', "Tpz")], &options));
    assert!(InMatcher::new("a in []").is_err());
    assert!(InMatcher::new("a in ''").is_err());
}

#[test]
fn parser_test_parse_cardinality_matcher() {
    let options = MatcherOptions::default();
    let two = vec![SubfieldRef::new('a', "x").unwrap(), SubfieldRef::new('a', "y").unwrap()];
    for (input, expected) in [
        ("#a == 1", false),
        ("#a != 2", false),
        ("#a >= 3", false),
        ("#a > 4", false),
        ("#a <= 5", true),
        ("#a < 6", true),
    ] {
        let m = CardinalityMatcher::new(input).unwrap();
        assert_eq!(m.to_string(), input);
        assert_eq!(m.is_match(&two, &options), expected, "{input}");
    }
    for input in ["#a > -1", "#a > '2'", "#a =^ 5", "#a !^ 5", "#a =$ 5", "#a !$ 5", "#a =* 5", "#a =? 5"] {
        assert!(CardinalityMatcher::new(input).is_err(), "{input}");
    }
}

#[test]
fn parser_test_parse_singleton_matcher() {
    let o = SingletonMatcher::new("ALL a == 'foo'").unwrap();
    assert_eq!(o.to_string(), "ALL a == 'foo'");
    assert!(matches!(o, SingletonMatcher::Relation(_)));
    let o = SingletonMatcher::new("a?").unwrap();
    assert!(matches!(o, SingletonMatcher::Exists(_)));
    let o = SingletonMatcher::new("a not in ['Tp1', 'Tsz']").unwrap();
    assert!(matches!(o, SingletonMatcher::In(_)));
    let o = SingletonMatcher::new("#a > 3").unwrap();
    assert!(matches!(o, SingletonMatcher::Cardinality(_)));
    let o = SingletonMatcher::new("a !~ '^Tp'").unwrap();
    assert!(matches!(o, SingletonMatcher::Regex(_)));
    let o = SingletonMatcher::new("a =~ ['^Tp', '^Ts']").unwrap();
    assert!(matches!(o, SingletonMatcher::RegexSet(_)));
}

#[test]
fn parser_test_parse_subfield_singleton_matcher() {
    let cases: Vec<(&str, fn(&SubfieldMatcher) -> bool)> = vec![
        ("a == 'foo'", |o| matches!(o, SubfieldMatcher::Singleton(SingletonMatcher::Relation(_)))),
        ("a != 'foo'", |o| matches!(o, SubfieldMatcher::Singleton(SingletonMatcher::Relation(_)))),
        ("a =^ 'foo'", |o| matches!(o, SubfieldMatcher::Singleton(SingletonMatcher::Relation(_)))),
        ("a !^ 'foo'", |o| matches!(o, SubfieldMatcher::Singleton(SingletonMatcher::Relation(_)))),
        ("a =$ 'foo'", |o| matches!(o, SubfieldMatcher::Singleton(SingletonMatcher::Relation(_)))),
        ("a !$ 'foo'", |o| matches!(o, SubfieldMatcher::Singleton(SingletonMatcher::Relation(_)))),
        ("a =* 'foo'", |o| matches!(o, SubfieldMatcher::Singleton(SingletonMatcher::Relation(_)))),
        ("a =? ['foo', 'bar']", |o| matches!(o, SubfieldMatcher::Singleton(SingletonMatcher::Contains(_)))),
        ("a =? 'foo'", |o| matches!(o, SubfieldMatcher::Singleton(SingletonMatcher::Contains(_)))),
        ("#a == 1", |o| matches!(o, SubfieldMatcher::Singleton(SingletonMatcher::Cardinality(_)))),
        ("#a != 1", |o| matches!(o, SubfieldMatcher::Singleton(SingletonMatcher::Cardinality(_)))),
        ("#a >= 1", |o| matches!(o, SubfieldMatcher::Singleton(SingletonMatcher::Cardinality(_)))),
        ("#a > 1", |o| matches!(o, SubfieldMatcher::Singleton(SingletonMatcher::Cardinality(_)))),
        ("#a <= 1", |o| matches!(o, SubfieldMatcher::Singleton(SingletonMatcher::Cardinality(_)))),
        ("#a < 1", |o| matches!(o, SubfieldMatcher::Singleton(SingletonMatcher::Cardinality(_)))),
        ("a in ['foo', 'bar']", |o| matches!(o, SubfieldMatcher::Singleton(SingletonMatcher::In(_)))),
        ("a not in ['foo', 'bar']", |o| matches!(o, SubfieldMatcher::Singleton(SingletonMatcher::In(_)))),
        ("a =~ ['^Tp1', '^Ts']", |o| matches!(o, SubfieldMatcher::Singleton(SingletonMatcher::RegexSet(_)))),
        ("a !~ ['^Tp1', '^Ts']", |o| matches!(o, SubfieldMatcher::Singleton(SingletonMatcher::RegexSet(_)))),
        ("a =~ '^Tp1'", |o| matches!(o, SubfieldMatcher::Singleton(SingletonMatcher::Regex(_)))),
        ("a !~ '^Tp1'", |o| matches!(o, SubfieldMatcher::Singleton(SingletonMatcher::Regex(_)))),
        ("a?", |o| matches!(o, SubfieldMatcher::Singleton(SingletonMatcher::Exists(_)))),
    ];
    for (input, check) in cases {
        let o = SubfieldMatcher::new(input).unwrap();
        assert_eq!(o.to_string(), input);
        assert!(check(&o), "{input}");
    }
}

#[test]
fn parser_test_parse_subfield_not_matcher() {
    for input in ["!(a? && b == 'foo')", "!!a?", "!a?"] {
        let o = SubfieldMatcher::new(input).unwrap();
        assert_eq!(o.to_string(), input);
        assert!(matches!(o, SubfieldMatcher::Not(_)));
    }
    assert!(SubfieldMatcher::new("!a == 'foo'").is_err());
}

#[test]
fn parser_test_parse_subfield_group_matcher() {
    for input in ["(a? && b?)", "(a == 'foo')", "(!(a == 'foo'))", "((a == 'foo'))"] {
        let o = SubfieldMatcher::new(input).unwrap();
        assert!(matches!(o, SubfieldMatcher::Group(_)));
        assert_eq!(o.to_string(), input);
    }
}

fn check_composite(inputs: &[&str], op: BooleanOp) {
    for input in inputs {
        let o = SubfieldMatcher::new(input).unwrap();
        assert_eq!(o.to_string(), *input);
        match o {
            SubfieldMatcher::Composite { op: found, .. } => assert_eq!(found, op, "{input}"),
            _ => panic!("{input}"),
        }
    }
}

#[test]
fn test_parse_subfield_and_matcher() {
    check_composite(
        &[
            "a? && b?",
            "a? && b? && c?",
            "a? && b? && c? && d?",
            "a? && (b?)",
            "a? && (b? && c?)",
            "(a? && b?) && c?",
            "a? && (b? && (c? && d?))",
            "a? && !b?",
            "a? && !(b? && c?)",
            "!(a? && !(b? && c?)) && d?",
        ],
        BooleanOp::And,
    );
}

#[test]
fn test_parse_subfield_xor_matcher() {
    check_composite(
        &[
            "a? ^ b?",
            "a? ^ b? ^ c?",
            "a? ^ b? ^ c? ^ d?",
            "!a? ^ b? ^ c? ^ d?",
            "!a? ^ !b? ^ c? ^ d?",
            "!a? ^ !b? ^ !c? ^ d?",
            "!a? ^ !b? ^ !c? ^ !d?",
            "a? ^ b? && c? && d?",
            "a? && b? ^ c? && d?",
            "a? && b? && c? ^ d?",
            "a? ^ (b? ^ c?) ^ d?",
            "a? ^ ((b? ^ c?) ^ d?)",
        ],
        BooleanOp::Xor,
    );
}

#[test]
fn test_parse_subfield_or_matcher() {
    check_composite(
        &[
            "a? || b?",
            "a? || b? || c?",
            "a? || b? || c? || d?",
            "a? || !b?",
            "a? || !(b? || c?)",
            "!a? || !(b? || c?)",
            "a? || b? && c?",
            "a? && b? || c? && d?",
            "a? || b? ^ c?",
            "a? ^ b? || c? ^ d?",
            "a? || (b? && c?)",
            "(a? && b?) || (c? ^ d?)",
        ],
        BooleanOp::Or,
    );
}

#[test]
fn parser_test_parse_subfield_matcher() {
    for input in [
        "(a? && b?) || (c == 'foo' ^ d == 'bar')",
        "0 in [\"Olfo\",\"Oaf\",\"Oa\"]",
        "0 =^ \"A\" || 0 =^ \"O\"",
        "c == '01' && d == 'MVB'",
        "p =~ '^\\\\[publtype\\\\]([bB]ookPart|[cC]onferencePaper)$'",
        "a =~ '(?i)(Zeitschrift|Journal)' && \
            a !~ '(?i)(Abdr|Sonderdr|Diss(\\\\.|ertation)|Teile)'",
    ] {
        let o = SubfieldMatcher::new(input).unwrap();
        assert_eq!(o.to_string(), input);
    }
}

fn sf<'a>(c: char, v: &'a str) -> SubfieldRef<'a> {
    SubfieldRef::new(c, v).unwrap()
}

/// Checks a contains-matcher read from `input` by what it does: its text,
/// its quantifier, its codes and its values.
fn check_contains(input: &str, all: bool, codes: &str, values: &[&str]) {
    let options = MatcherOptions::default();
    let m = ContainsMatcher::new(input).unwrap();
    assert_eq!(m.to_string(), input);
    for c in SUBFIELD_CODES.chars() {
        assert_eq!(m.is_match(&[sf(c, values[0])], &options), codes.contains(c), "{input} {c}");
    }
    let c = codes.chars().next().unwrap();
    assert_eq!(m.is_match(&[sf(c, values[0]), sf(c, "zzz")], &options), !all, "{input}");
    for v in values {
        let padded = format!("x{v}y");
        assert!(m.is_match(&[sf(c, &padded)], &options), "{input} {v}");
    }
    assert!(!m.is_match(&[sf(c, "zzz")], &options), "{input}");
}

#[test]
fn test_parse_contains_matcher() {
    check_contains("a =? ['foo']", false, "a", &["foo"]);
    check_contains("a =? 'foo'", false, "a", &["foo"]);
    check_contains("ANY a =? ['foo']", false, "a", &["foo"]);
    check_contains("ANY a =? 'foo'", false, "a", &["foo"]);
    check_contains("ALL a =? ['foo']", true, "a", &["foo"]);
    check_contains("ALL a =? 'foo'", true, "a", &["foo"]);
    check_contains("[a-c] =? ['foo']", false, "abc", &["foo"]);
    check_contains("[a-c] =? 'foo'", false, "abc", &["foo"]);
    check_contains("ANY [ab] =? ['foo']", false, "ab", &["foo"]);
    check_contains("ANY [ab] =? 'foo'", false, "ab", &["foo"]);
    check_contains("ALL [a-d] =? ['foo']", true, "abcd", &["foo"]);
    check_contains("ALL [a-d] =? 'foo'", true, "abcd", &["foo"]);
    check_contains("a =? ['foo','bar']", false, "a", &["foo", "bar"]);
    assert!(ContainsMatcher::new("a =? []").is_err());
    assert!(ContainsMatcher::new("a == 'foo'").is_err());
}
