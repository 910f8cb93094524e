use pica_record::matcher::field::{CardinalityMatcher, ExistsMatcher, FieldMatcher, SingletonMatcher};
use pica_record::matcher::MatcherOptions;
use pica_record::primitives::FieldRef;

#[test]
fn field_test_exists_matcher() {
    let options = MatcherOptions::default();
    let field = FieldRef::new("012A", None, vec![('a', "abc")]).unwrap();

    let matcher = ExistsMatcher::new("012A?").unwrap();
    assert!(matcher.is_match(std::slice::from_ref(&field), &options));

    let matcher = ExistsMatcher::new("013A?").unwrap();
    assert!(!matcher.is_match(std::slice::from_ref(&field), &options));
}

#[test]
fn test_singleton_matcher() {
    let options = MatcherOptions::default();
    let field = FieldRef::new(
        "012A",
        None,
        vec![('a', "abc"), ('a', "def"), ('b', "hij")],
    ).unwrap();

    let matcher = SingletonMatcher::new("012A.a == 'def'").unwrap();
    assert!(matcher.is_match(std::slice::from_ref(&field), &options));

    let matcher = SingletonMatcher::new("012A.a == 'hij'").unwrap();
    assert!(!matcher.is_match(std::slice::from_ref(&field), &options));

    let matcher =
        SingletonMatcher::new("012A{ b? && a == 'def' }").unwrap();
    assert!(matcher.is_match(std::slice::from_ref(&field), &options));

    let field =
        FieldRef::new("012A", Some("03"), vec![('a', "abc")]).unwrap();

    let matcher = SingletonMatcher::new("012A/03.a == 'abc'").unwrap();
    assert!(matcher.is_match(std::slice::from_ref(&field), &options));

    let matcher = SingletonMatcher::new("012A/*.a == 'abc'").unwrap();
    assert!(matcher.is_match(std::slice::from_ref(&field), &options));

    let matcher = SingletonMatcher::new("012A/02-04.a == 'abc'").unwrap();
    assert!(matcher.is_match(std::slice::from_ref(&field), &options));
}

#[test]
fn field_test_cardinality_matcher() {
    let options = MatcherOptions::default();
    let field = FieldRef::new(
        "012A",
        None,
        vec![('a', "abc"), ('a', "def"), ('b', "hij")],
    ).unwrap();

    let matcher = CardinalityMatcher::new("#013A == 0").unwrap();
    assert!(matcher.is_match(std::slice::from_ref(&field), &options));

    let matcher = CardinalityMatcher::new("#012A == 1").unwrap();
    assert!(matcher.is_match(std::slice::from_ref(&field), &options));

    let matcher = CardinalityMatcher::new("#012A != 2").unwrap();
    assert!(matcher.is_match(std::slice::from_ref(&field), &options));

    let matcher = CardinalityMatcher::new("#012A >= 1").unwrap();
    assert!(matcher.is_match(std::slice::from_ref(&field), &options));

    let matcher = CardinalityMatcher::new("#012A > 0").unwrap();
    assert!(matcher.is_match(std::slice::from_ref(&field), &options));

    let matcher = CardinalityMatcher::new("#012A <= 100").unwrap();
    assert!(matcher.is_match(std::slice::from_ref(&field), &options));

    let matcher = CardinalityMatcher::new("#012A < 100").unwrap();
    assert!(matcher.is_match(std::slice::from_ref(&field), &options));

    let matcher = CardinalityMatcher::new("#012A{ c? } == 0").unwrap();
    assert!(matcher.is_match(std::slice::from_ref(&field), &options));

    let matcher = CardinalityMatcher::new("#012A{ b? } == 1").unwrap();
    assert!(matcher.is_match(std::slice::from_ref(&field), &options));

    let matcher = CardinalityMatcher::new("#012A{ b? } != 2").unwrap();
    assert!(matcher.is_match(std::slice::from_ref(&field), &options));

    let matcher = CardinalityMatcher::new("#012A{ b? } >= 1").unwrap();
    assert!(matcher.is_match(std::slice::from_ref(&field), &options));

    let matcher = CardinalityMatcher::new("#012A{ b? } > 0").unwrap();
    assert!(matcher.is_match(std::slice::from_ref(&field), &options));

    let matcher = CardinalityMatcher::new("#012A{ b? } <= 1").unwrap();
    assert!(matcher.is_match(std::slice::from_ref(&field), &options));

    let matcher = CardinalityMatcher::new("#012A{ b? } < 100").unwrap();
    assert!(matcher.is_match(std::slice::from_ref(&field), &options));
}

#[test]
fn test_field_matcher_singleton() {
    let options = MatcherOptions::default();
    let field =
        FieldRef::new("012A", None, vec![('a', "A"), ('b', "B")]).unwrap();

    let matcher = FieldMatcher::new("012A.a == 'A'").unwrap();
    assert!(matcher.is_match(std::slice::from_ref(&field), &options));

    let matcher = FieldMatcher::new("012A.[a-d] == 'B'").unwrap();
    assert!(matcher.is_match(std::slice::from_ref(&field), &options));

    let options = MatcherOptions::default();
    let fields = vec![
        FieldRef::new("012A", None, vec![('a', "A"), ('b', "B")]).unwrap(),
        FieldRef::new("012A", None, vec![('c', "C"), ('d', "D")]).unwrap(),
    ];

    let matcher = FieldMatcher::new("012A.[df] == 'D'").unwrap();
    assert!(matcher.is_match(&fields, &options));

    let matcher =
        FieldMatcher::new("ALL 012A.[a-d] in ['B', 'D']").unwrap();
    assert!(matcher.is_match(&fields, &options));
}

#[test]
fn test_field_matcher_cardinality() {
    let options = MatcherOptions::default();
    let field =
        FieldRef::new("012A", None, vec![('a', "A"), ('b', "B")]).unwrap();

    let matcher = FieldMatcher::new("#012A{a == 'A'} == 1").unwrap();
    assert!(matcher.is_match(std::slice::from_ref(&field), &options));

    let matcher = FieldMatcher::new("#012A{ [a-d] == 'B'} >= 1").unwrap();
    assert!(matcher.is_match(std::slice::from_ref(&field), &options));

    let options = MatcherOptions::default();
    let fields = vec![
        FieldRef::new("012A", None, vec![('a', "A"), ('b', "B")]).unwrap(),
        FieldRef::new("012A", None, vec![('c', "C"), ('d', "D")]).unwrap(),
    ];

    let matcher = FieldMatcher::new("#012A{ [df] == 'D' } == 1").unwrap();
    assert!(matcher.is_match(&fields, &options));

    let matcher =
        FieldMatcher::new("#012A{ [a-d] in ['B', 'D']} <= 2").unwrap();
    assert!(matcher.is_match(&fields, &options));
}

#[test]
fn test_field_matcher_group() {
    let options = MatcherOptions::default();
    let field =
        FieldRef::new("012A", None, vec![('a', "A"), ('b', "B")]).unwrap();

    let matcher = FieldMatcher::new("(012A.a?)").unwrap();
    assert!(matcher.is_match(std::slice::from_ref(&field), &options));

    let matcher = FieldMatcher::new("((012A.b?))").unwrap();
    assert!(matcher.is_match(std::slice::from_ref(&field), &options));
}

#[test]
fn test_field_matcher_not() {
    let options = MatcherOptions::default();
    let field =
        FieldRef::new("012A", None, vec![('a', "A"), ('b', "B")]).unwrap();

    let matcher = FieldMatcher::new("!(012A.c?)").unwrap();
    assert!(matcher.is_match(std::slice::from_ref(&field), &options));

    let matcher = FieldMatcher::new("!012A{ a? && c? }").unwrap();
    assert!(matcher.is_match(std::slice::from_ref(&field), &options));

    let matcher = FieldMatcher::new("!012A.c?").unwrap();
    assert!(matcher.is_match(std::slice::from_ref(&field), &options));

    let matcher = FieldMatcher::new("!!012A.a?").unwrap();
    assert!(matcher.is_match(std::slice::from_ref(&field), &options));
}

#[test]
fn test_field_matcher_and() {
    let options = MatcherOptions::default();
    let fields = vec![
        FieldRef::new("012A", None, vec![('a', "A"), ('b', "B")]).unwrap(),
        FieldRef::new("013A", None, vec![('c', "C")]).unwrap(),
    ];

    let matcher = FieldMatcher::new("012A.a? && 013A.c?").unwrap();
    assert!(matcher.is_match(&fields, &options));

    let matcher =
        FieldMatcher::new("012A.a? && 012A.b? && 012A.c?").unwrap();
    assert!(!matcher.is_match(&fields, &options));

    let matcher =
        FieldMatcher::new("012A.a? && 012A.b? || 014A.c?").unwrap();
    assert!(matcher.is_match(&fields, &options));

    let matcher =
        FieldMatcher::new("014A.c? || 012A.b? && 013A.c?").unwrap();
    assert!(matcher.is_match(&fields, &options));

    let matcher =
        FieldMatcher::new("012A.c? || 012A.b? && 012A.c?").unwrap();
    assert!(!matcher.is_match(&fields, &options));

    let matcher =
        FieldMatcher::new("012A.b? && 012A.c? || 012A.c?").unwrap();
    assert!(!matcher.is_match(&fields, &options));
}

#[test]
fn test_field_matcher_or() {
    let options = MatcherOptions::default();
    let fields = vec![
        FieldRef::new("012A", None, vec![('a', "A"), ('b', "B")]).unwrap(),
        FieldRef::new("013A", None, vec![('c', "C")]).unwrap(),
    ];

    let matcher = FieldMatcher::new("013A.a? || 012A.b?").unwrap();
    assert!(matcher.is_match(&fields, &options));

    let matcher =
        FieldMatcher::new("014A.a? || 013A.b? || 012A.b?").unwrap();
    assert!(matcher.is_match(&fields, &options));

    let matcher =
        FieldMatcher::new("(012A.a? && 012A.b?) || 012A.c?").unwrap();
    assert!(matcher.is_match(&fields, &options));

    let matcher =
        FieldMatcher::new("013A.a? || (012A.b? && 013A.c?)").unwrap();
    assert!(matcher.is_match(&fields, &options));

    let matcher = FieldMatcher::new(
        "(012A.a? || 012A.b?) && 012A.c? || 013A.d?",
    ).unwrap();
    assert!(!matcher.is_match(&fields, &options));

    let matcher = FieldMatcher::new(
        "012A.a? && (012A.b? || 012A.c?) || 013A.c?",
    ).unwrap();
    assert!(matcher.is_match(&fields, &options));
}

#[test]
fn test_field_matcher_xor() {
    let options = MatcherOptions::default();
    let fields = vec![
        FieldRef::new("012A", None, vec![('a', "A"), ('b', "B")]).unwrap(),
        FieldRef::new("013A", None, vec![('c', "C")]).unwrap(),
    ];

    let matcher = FieldMatcher::new("012A.a? ^ 012A.b?").unwrap();
    assert!(!matcher.is_match(&fields, &options));

    let matcher = FieldMatcher::new("012A.a? ^ 012A.b? ^ 012A.c?").unwrap();
    assert!(!matcher.is_match(&fields, &options));

    let matcher = FieldMatcher::new("012A.a? ^ 012A.c?").unwrap();
    assert!(matcher.is_match(&fields, &options));

    let matcher = FieldMatcher::new("012A.c? ^ 012A.a?").unwrap();
    assert!(matcher.is_match(&fields, &options));

    let matcher = FieldMatcher::new("012A.c? ^ 012A.d?").unwrap();
    assert!(!matcher.is_match(&fields, &options));
}

#[test]
fn test_field_matcher_bitand() {
    let expected = FieldMatcher::new("012A.a? && 012A.b?").unwrap();
    let lhs = FieldMatcher::new("012A.a?").unwrap();
    let rhs = FieldMatcher::new("012A.b?").unwrap();
    assert_eq!(lhs & rhs, expected);

    let expected =
        FieldMatcher::new("(012A.a? || 012A.b?) && 012A.c?").unwrap();
    let lhs = FieldMatcher::new("012A.a? || 012A.b?").unwrap();
    let rhs = FieldMatcher::new("012A.c?").unwrap();
    assert_eq!(lhs & rhs, expected);

    let expected =
        FieldMatcher::new("012A.a? && (012A.b? || 012A.c?)").unwrap();
    let lhs = FieldMatcher::new("012A.a?").unwrap();
    let rhs = FieldMatcher::new("(012A.b? || 012A.c?)").unwrap();
    assert_eq!(lhs & rhs, expected);

    let expected =
        FieldMatcher::new("(012A.a? ^ 012A.b?) && 012A.c?").unwrap();
    let lhs = FieldMatcher::new("012A.a? ^ 012A.b?").unwrap();
    let rhs = FieldMatcher::new("012A.c?").unwrap();
    assert_eq!(lhs & rhs, expected);

    let expected =
        FieldMatcher::new("012A.a? && (012A.b? ^ 012A.c?)").unwrap();
    let lhs = FieldMatcher::new("012A.a?").unwrap();
    let rhs = FieldMatcher::new("(012A.b? ^ 012A.c?)").unwrap();
    assert_eq!(lhs & rhs, expected);

    let expected =
        FieldMatcher::new("012A.a? && 012A.b? && 012A.c?").unwrap();
    let lhs = FieldMatcher::new("012A.a? && 012A.b?").unwrap();
    let rhs = FieldMatcher::new("012A.c?").unwrap();
    assert_eq!(lhs & rhs, expected);
}

#[test]
fn test_field_matcher_bitand_assign() {
    let expected = FieldMatcher::new("012A.a? && 012A.b?").unwrap();
    let mut matcher = FieldMatcher::new("012A.a?").unwrap();
    matcher &= FieldMatcher::new("012A.b?").unwrap();
    assert_eq!(matcher, expected);

    let expected =
        FieldMatcher::new("(012A.a? || 012A.b?) && 012A.c?").unwrap();
    let mut matcher = FieldMatcher::new("012A.a? || 012A.b?").unwrap();
    matcher &= FieldMatcher::new("012A.c?").unwrap();
    assert_eq!(matcher, expected);

    let expected =
        FieldMatcher::new("012A.a? && (012A.b? || 012A.c?)").unwrap();
    let mut matcher = FieldMatcher::new("012A.a?").unwrap();
    matcher &= FieldMatcher::new("(012A.b? || 012A.c?)").unwrap();
    assert_eq!(matcher, expected);

    let expected =
        FieldMatcher::new("(012A.a? ^ 012A.b?) && 012A.c?").unwrap();
    let mut matcher = FieldMatcher::new("012A.a? ^ 012A.b?").unwrap();
    matcher &= FieldMatcher::new("012A.c?").unwrap();
    assert_eq!(matcher, expected);

    let expected =
        FieldMatcher::new("012A.a? && (012A.b? ^ 012A.c?)").unwrap();
    let mut matcher = FieldMatcher::new("012A.a?").unwrap();
    matcher &= FieldMatcher::new("(012A.b? ^ 012A.c?)").unwrap();
    assert_eq!(matcher, expected);
}

#[test]
fn test_field_matcher_bitxor() {
    let expected = FieldMatcher::new("012A.a? ^ 012A.b?").unwrap();
    let lhs = FieldMatcher::new("012A.a?").unwrap();
    let rhs = FieldMatcher::new("012A.b?").unwrap();
    assert_eq!(lhs ^ rhs, expected);

    let expected =
        FieldMatcher::new("(012A.a? || 012A.b?) ^ 012A.c?").unwrap();
    let lhs = FieldMatcher::new("012A.a? || 012A.b?").unwrap();
    let rhs = FieldMatcher::new("012A.c?").unwrap();
    assert_eq!(lhs ^ rhs, expected);

    let expected =
        FieldMatcher::new("012A.a? ^ (012A.b? || 012A.c?)").unwrap();
    let lhs = FieldMatcher::new("012A.a?").unwrap();
    let rhs = FieldMatcher::new("(012A.b? || 012A.c?)").unwrap();
    assert_eq!(lhs ^ rhs, expected);

    let expected =
        FieldMatcher::new("012A.a? ^ 012A.b? ^ 012A.c?").unwrap();
    let lhs = FieldMatcher::new("012A.a? ^ 012A.b?").unwrap();
    let rhs = FieldMatcher::new("012A.c?").unwrap();
    assert_eq!(lhs ^ rhs, expected);
}

#[test]
fn test_field_matcher_bitxor_assign() {
    let expected = FieldMatcher::new("012A.a? ^ 012A.b?").unwrap();
    let mut matcher = FieldMatcher::new("012A.a?").unwrap();
    matcher ^= FieldMatcher::new("012A.b?").unwrap();
    assert_eq!(matcher, expected);

    let expected =
        FieldMatcher::new("(012A.a? || 012A.b?) ^ 012A.c?").unwrap();
    let mut matcher = FieldMatcher::new("012A.a? || 012A.b?").unwrap();
    matcher ^= FieldMatcher::new("012A.c?").unwrap();
    assert_eq!(matcher, expected);

    let expected =
        FieldMatcher::new("012A.a? ^ (012A.b? || 012A.c?)").unwrap();
    let mut matcher = FieldMatcher::new("012A.a?").unwrap();
    matcher ^= FieldMatcher::new("(012A.b? || 012A.c?)").unwrap();
    assert_eq!(matcher, expected);

    let expected =
        FieldMatcher::new("012A.a? ^ 012A.b? ^ 012A.c?").unwrap();
    let mut matcher = FieldMatcher::new("012A.a? ^ 012A.b?").unwrap();
    matcher ^= FieldMatcher::new("012A.c?").unwrap();
    assert_eq!(matcher, expected);
}

#[test]
fn test_field_matcher_bitor() {
    let expected = FieldMatcher::new("012A.a? || 012A.b?").unwrap();
    let lhs = FieldMatcher::new("012A.a?").unwrap();
    let rhs = FieldMatcher::new("012A.b?").unwrap();
    assert_eq!(lhs | rhs, expected);

    let expected =
        FieldMatcher::new("012A.a? || 012A.b? || 012A.c?").unwrap();
    let lhs = FieldMatcher::new("012A.a? || 012A.b?").unwrap();
    let rhs = FieldMatcher::new("012A.c?").unwrap();
    assert_eq!(lhs | rhs, expected);
}

#[test]
fn test_field_matcher_bitor_assign() {
    let expected = FieldMatcher::new("012A.a? || 012A.b?").unwrap();
    let mut matcher = FieldMatcher::new("012A.a?").unwrap();
    matcher |= FieldMatcher::new("012A.b?").unwrap();
    assert_eq!(matcher, expected);

    let expected =
        FieldMatcher::new("012A.a? || 012A.b? || 012A.c?").unwrap();
    let mut matcher = FieldMatcher::new("012A.a? || 012A.b?").unwrap();
    matcher |= FieldMatcher::new("012A.c?").unwrap();
    assert_eq!(matcher, expected);
}

#[test]
fn test_field_matcher_bitnot() {
    let expected = FieldMatcher::new("!(012A.a?)").unwrap();
    let matcher = !FieldMatcher::new("(012A.a?)").unwrap();
    assert_eq!(matcher, expected);

    let expected = FieldMatcher::new("!012A.a?").unwrap();
    let matcher = !FieldMatcher::new("012A.a?").unwrap();
    assert_eq!(matcher, expected);

    let expected = FieldMatcher::new("!!012A.a?").unwrap();
    let matcher = !FieldMatcher::new("!012A.a?").unwrap();
    assert_eq!(matcher, expected);

    let expected = FieldMatcher::new("!(012A.a == 'foo')").unwrap();
    let matcher = !FieldMatcher::new("012A.a == 'foo'").unwrap();
    assert_eq!(matcher, expected);

    let expected = FieldMatcher::new("!(012A.a? && 012A.b?)").unwrap();
    let matcher = !FieldMatcher::new("012A.a? && 012A.b?").unwrap();
    assert_eq!(matcher, expected);

    let expected = FieldMatcher::new("!(012A.a? || 012A.b?)").unwrap();
    let matcher = !FieldMatcher::new("012A.a? || 012A.b?").unwrap();
    assert_eq!(matcher, expected);

    let expected = FieldMatcher::new("!(012A.a? ^ 012A.b?)").unwrap();
    let matcher = !FieldMatcher::new("012A.a? ^ 012A.b?").unwrap();
    assert_eq!(matcher, expected);
}
