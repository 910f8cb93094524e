use pica_record::matcher::subfield::{
    CardinalityMatcher, ContainsMatcher, ExistsMatcher, InMatcher, RegexMatcher, RegexSetMatcher,
    RelationMatcher, SubfieldMatcher,
};
use pica_record::matcher::MatcherOptions;
use pica_record::primitives::SubfieldRef;

#[test]
fn mod_test_cardinality_matcher() {
    let subfields = vec![
        SubfieldRef::new('a', "foo").unwrap(),
        SubfieldRef::new('a', "bar").unwrap(),
        SubfieldRef::new('b', "baz").unwrap(),
    ];

    let options = MatcherOptions::default();

    let matcher = CardinalityMatcher::new("#c == 0").unwrap();
    assert!(matcher.is_match(&subfields, &options));

    let matcher = CardinalityMatcher::new("#a != 1").unwrap();
    assert!(matcher.is_match(&subfields, &options));

    let matcher = CardinalityMatcher::new("#a >= 2").unwrap();
    assert!(matcher.is_match(&subfields, &options));

    let matcher = CardinalityMatcher::new("#a > 1").unwrap();
    assert!(matcher.is_match(&subfields, &options));

    let matcher = CardinalityMatcher::new("#b <= 2").unwrap();
    assert!(matcher.is_match(&subfields, &options));

    let matcher = CardinalityMatcher::new("#c < 1").unwrap();
    assert!(matcher.is_match(&subfields, &options));

}

#[test]
fn test_regex_matcher() {
    let subfields = vec![
        SubfieldRef::new('a', "foo").unwrap(),
        SubfieldRef::new('a', "bar").unwrap(),
        SubfieldRef::new('b', "baz").unwrap(),
    ];

    let options = MatcherOptions::default();
    let matcher = RegexMatcher::new("a =~ '^f.o$'").unwrap();
    assert!(matcher.is_match(&subfields, &options));

    let matcher = RegexMatcher::new("ANY a =~ '^f.o$'").unwrap();
    assert!(matcher.is_match(&subfields, &options));

    let matcher = RegexMatcher::new("ALL a =~ '^f.o$'").unwrap();
    assert!(!matcher.is_match(&subfields, &options));

    let matcher = RegexMatcher::new("a !~ '^f.o$'").unwrap();
    assert!(matcher.is_match(&subfields, &options));

    let matcher = RegexMatcher::new("ANY a !~ '^f.o$'").unwrap();
    assert!(matcher.is_match(&subfields, &options));

    let matcher = RegexMatcher::new("ALL a !~ '^f.o$'").unwrap();
    assert!(!matcher.is_match(&subfields, &options));

    let matcher = RegexMatcher::new("b !~ '^b.z$'").unwrap();
    assert!(!matcher.is_match(&subfields, &options));

    let options = MatcherOptions::default().case_ignore(true);
    let matcher = RegexMatcher::new("a =~ '^F.O$'").unwrap();
    assert!(matcher.is_match(&subfields, &options));

}

#[test]
fn test_regex_set_matcher() {
    let subfields = vec![
        SubfieldRef::new('a', "foo").unwrap(),
        SubfieldRef::new('a', "bar").unwrap(),
        SubfieldRef::new('b', "baz").unwrap(),
    ];

    let options = MatcherOptions::default();
    let matcher = RegexSetMatcher::new("a =~ ['^f.o$', '^bar']").unwrap();
    assert!(matcher.is_match(&subfields, &options));

    let matcher =
        RegexSetMatcher::new("ANY a =~ ['^f.o$', '^bar']").unwrap();
    assert!(matcher.is_match(&subfields, &options));

    let matcher =
        RegexSetMatcher::new("ALL a =~ ['^f.o$', '^bar']").unwrap();
    assert!(matcher.is_match(&subfields, &options));

    let matcher = RegexSetMatcher::new("a !~ ['^f.o$', '^bar']").unwrap();
    assert!(!matcher.is_match(&subfields, &options));

    let matcher =
        RegexSetMatcher::new("ANY a !~ ['^f.o$', '^bar']").unwrap();
    assert!(!matcher.is_match(&subfields, &options));

    let matcher =
        RegexSetMatcher::new("ALL a !~ ['^f.o$', '^bar']").unwrap();
    assert!(!matcher.is_match(&subfields, &options));

    let options = MatcherOptions::default().case_ignore(true);
    let matcher = RegexSetMatcher::new("a =~ ['^F.O$', '^BAR']").unwrap();
    assert!(matcher.is_match(&subfields, &options));

}

#[test]
fn test_relation_matcher() {
    let subfields = vec![
        SubfieldRef::new('a', "foo").unwrap(),
        SubfieldRef::new('a', "bar").unwrap(),
        SubfieldRef::new('b', "baz").unwrap(),
    ];

    let options = MatcherOptions::default();
    let matcher = RelationMatcher::new("a == 'foo'").unwrap();
    assert!(matcher.is_match(&subfields, &options));

    let matcher = RelationMatcher::new("a == 'baz'").unwrap();
    assert!(!matcher.is_match(&subfields, &options));

    let matcher = RelationMatcher::new("a != 'foo'").unwrap();
    assert!(matcher.is_match(&subfields, &options));

    let matcher = RelationMatcher::new("b != 'baz'").unwrap();
    assert!(!matcher.is_match(&subfields, &options));

    let matcher = RelationMatcher::new("a =^ 'fo'").unwrap();
    assert!(matcher.is_match(&subfields, &options));

    let matcher = RelationMatcher::new("a =^ 'FO'").unwrap();
    assert!(!matcher.is_match(&subfields, &options));

    let matcher = RelationMatcher::new("a !^ 'fo'").unwrap();
    assert!(matcher.is_match(&subfields, &options));

    let matcher = RelationMatcher::new("b !^ 'b'").unwrap();
    assert!(!matcher.is_match(&subfields, &options));

    let matcher = RelationMatcher::new("a =$ 'o'").unwrap();
    assert!(matcher.is_match(&subfields, &options));

    let matcher = RelationMatcher::new("a =$ 'O'").unwrap();
    assert!(!matcher.is_match(&subfields, &options));

    let matcher = RelationMatcher::new("a !$ 'o'").unwrap();
    assert!(matcher.is_match(&subfields, &options));

    let matcher = RelationMatcher::new("b !$ 'z'").unwrap();
    assert!(!matcher.is_match(&subfields, &options));

    let matcher = RelationMatcher::new("a =* 'foo'").unwrap();
    assert!(matcher.is_match(&subfields, &options));

    let matcher = RelationMatcher::new("a =* 'foO'").unwrap();
    assert!(!matcher.is_match(&subfields, &options));

    let matcher = RelationMatcher::new("a =? 'oo'").unwrap();
    assert!(matcher.is_match(&subfields, &options));

    let matcher = RelationMatcher::new("a =? 'frob'").unwrap();
    assert!(!matcher.is_match(&subfields, &options));

    let options = MatcherOptions::default().case_ignore(true);
    let matcher = RelationMatcher::new("a == 'FOO'").unwrap();
    assert!(matcher.is_match(&subfields, &options));

    let options = MatcherOptions::default().case_ignore(true);
    let matcher = RelationMatcher::new("a =* 'foO'").unwrap();
    assert!(matcher.is_match(&subfields, &options));

    let options = MatcherOptions::default().strsim_threshold(650);
    let matcher = RelationMatcher::new("a =* 'foO'").unwrap();
    assert!(matcher.is_match(&subfields, &options));

}

#[test]
fn mod_test_exists_matcher() {
    let subfields = vec![
        SubfieldRef::new('a', "foo").unwrap(),
        SubfieldRef::new('a', "bar").unwrap(),
        SubfieldRef::new('b', "baz").unwrap(),
    ];

    let options = MatcherOptions::default();
    let matcher = ExistsMatcher::new("a?").unwrap();
    assert!(matcher.is_match(&subfields, &options));

    let matcher = ExistsMatcher::new("c?").unwrap();
    assert!(!matcher.is_match(&subfields, &options));

}

#[test]
fn test_in_matcher() {
    let subfields = vec![
        SubfieldRef::new('a', "foo").unwrap(),
        SubfieldRef::new('a', "bar").unwrap(),
        SubfieldRef::new('b', "baz").unwrap(),
    ];

    let options = MatcherOptions::default();
    let matcher = InMatcher::new("a in ['foo', 'baz']").unwrap();
    assert!(matcher.is_match(&subfields, &options));

    let matcher = InMatcher::new("a in ['frob', 'baz']").unwrap();
    assert!(!matcher.is_match(&subfields, &options));

    let matcher = InMatcher::new("a not in ['foo', 'baz']").unwrap();
    assert!(matcher.is_match(&subfields, &options));

    let matcher = InMatcher::new("b not in ['frob', 'baz']").unwrap();
    assert!(!matcher.is_match(&subfields, &options));

    let options = MatcherOptions::default().case_ignore(true);
    let matcher = InMatcher::new("a in ['FOO', 'BAZ']").unwrap();
    assert!(matcher.is_match(&subfields, &options));

}

#[test]
fn test_subfield_matcher_group() {
    let options = MatcherOptions::default();
    let subfields = vec![
        SubfieldRef::new('a', "foo").unwrap(),
        SubfieldRef::new('b', "bar").unwrap(),
        SubfieldRef::new('c', "baz").unwrap(),
    ];

    let matcher = SubfieldMatcher::new("(a?)").unwrap();
    assert!(matcher.is_match(&subfields, &options));

    let matcher = SubfieldMatcher::new("(a? && b == 'bar')").unwrap();
    assert!(matcher.is_match(&subfields, &options));

}

#[test]
fn test_subfield_matcher_not() {
    let options = MatcherOptions::default();
    let subfields = vec![
        SubfieldRef::new('a', "foo").unwrap(),
        SubfieldRef::new('b', "bar").unwrap(),
        SubfieldRef::new('c', "baz").unwrap(),
    ];

    let matcher = SubfieldMatcher::new("!d?").unwrap();
    assert!(matcher.is_match(&subfields, &options));

    let matcher = SubfieldMatcher::new("!a?").unwrap();
    assert!(!matcher.is_match(&subfields, &options));

    let matcher = SubfieldMatcher::new("!(d? || a?)").unwrap();
    assert!(!matcher.is_match(&subfields, &options));

}

#[test]
fn test_subfield_matcher_and() {
    let options = MatcherOptions::default();
    let subfields = vec![
        SubfieldRef::new('a', "foo").unwrap(),
        SubfieldRef::new('a', "bar").unwrap(),
        SubfieldRef::new('b', "baz").unwrap(),
    ];

    let matcher = SubfieldMatcher::new("a? && b?").unwrap();
    assert!(matcher.is_match(&subfields, &options));

    let matcher = SubfieldMatcher::new("a? && b? && c?").unwrap();
    assert!(!matcher.is_match(&subfields, &options));

    let matcher = SubfieldMatcher::new("a? && b? || c?").unwrap();
    assert!(matcher.is_match(&subfields, &options));

    let matcher = SubfieldMatcher::new("a? || b? && c?").unwrap();
    assert!(matcher.is_match(&subfields, &options));

    let matcher = SubfieldMatcher::new("c? || b? && c?").unwrap();
    assert!(!matcher.is_match(&subfields, &options));

    let matcher = SubfieldMatcher::new("b? && c? || c?").unwrap();
    assert!(!matcher.is_match(&subfields, &options));

}

#[test]
fn test_subfield_matcher_or() {
    let options = MatcherOptions::default();
    let subfields = vec![
        SubfieldRef::new('a', "foo").unwrap(),
        SubfieldRef::new('a', "bar").unwrap(),
        SubfieldRef::new('b', "baz").unwrap(),
    ];

    let matcher = SubfieldMatcher::new("a? || b?").unwrap();
    assert!(matcher.is_match(&subfields, &options));

    let matcher = SubfieldMatcher::new("a? || b? || c?").unwrap();
    assert!(matcher.is_match(&subfields, &options));

    let matcher = SubfieldMatcher::new("(a? && b?) || c?").unwrap();
    assert!(matcher.is_match(&subfields, &options));

    let matcher = SubfieldMatcher::new("a? || (b? && c?)").unwrap();
    assert!(matcher.is_match(&subfields, &options));

    let matcher = SubfieldMatcher::new("(a? || b?) && c? || d?").unwrap();
    assert!(!matcher.is_match(&subfields, &options));

    let matcher = SubfieldMatcher::new("a? && (b? || c?) || d?").unwrap();
    assert!(matcher.is_match(&subfields, &options));

}

#[test]
fn test_subfield_matcher_xor() {
    let options = MatcherOptions::default();
    let subfields = vec![
        SubfieldRef::new('a', "foo").unwrap(),
        SubfieldRef::new('a', "bar").unwrap(),
        SubfieldRef::new('b', "baz").unwrap(),
    ];

    let matcher = SubfieldMatcher::new("a? ^ b?").unwrap();
    assert!(!matcher.is_match(&subfields, &options));

    let matcher = SubfieldMatcher::new("a? ^ b? ^ c?").unwrap();
    assert!(!matcher.is_match(&subfields, &options));

    let matcher = SubfieldMatcher::new("a? ^ c?").unwrap();
    assert!(matcher.is_match(&subfields, &options));

    let matcher = SubfieldMatcher::new("c? ^ a?").unwrap();
    assert!(matcher.is_match(&subfields, &options));

    let matcher = SubfieldMatcher::new("c? ^ d?").unwrap();
    assert!(!matcher.is_match(&subfields, &options));

}

#[test]
fn test_subfield_matcher_bitand() {
    let expected = SubfieldMatcher::new("a? && b?").unwrap();
    let lhs = SubfieldMatcher::new("a?").unwrap();
    let rhs = SubfieldMatcher::new("b?").unwrap();
    assert_eq!(lhs & rhs, expected);

    let expected = SubfieldMatcher::new("(a? || b?) && c?").unwrap();
    let lhs = SubfieldMatcher::new("a? || b?").unwrap();
    let rhs = SubfieldMatcher::new("c?").unwrap();
    assert_eq!(lhs & rhs, expected);

    let expected = SubfieldMatcher::new("a? && (b? || c?)").unwrap();
    let lhs = SubfieldMatcher::new("a?").unwrap();
    let rhs = SubfieldMatcher::new("(b? || c?)").unwrap();
    assert_eq!(lhs & rhs, expected);

    let expected = SubfieldMatcher::new("(a? ^ b?) && c?").unwrap();
    let lhs = SubfieldMatcher::new("a? ^ b?").unwrap();
    let rhs = SubfieldMatcher::new("c?").unwrap();
    assert_eq!(lhs & rhs, expected);

    let expected = SubfieldMatcher::new("a? && (b? ^ c?)").unwrap();
    let lhs = SubfieldMatcher::new("a?").unwrap();
    let rhs = SubfieldMatcher::new("(b? ^ c?)").unwrap();
    assert_eq!(lhs & rhs, expected);

    let expected = SubfieldMatcher::new("a? && b? && c?").unwrap();
    let lhs = SubfieldMatcher::new("a? && b?").unwrap();
    let rhs = SubfieldMatcher::new("c?").unwrap();
    assert_eq!(lhs & rhs, expected);

}

#[test]
fn test_subfield_matcher_bitand_assign() {
    let expected = SubfieldMatcher::new("a? && b?").unwrap();
    let mut matcher = SubfieldMatcher::new("a?").unwrap();
    matcher &= SubfieldMatcher::new("b?").unwrap();
    assert_eq!(matcher, expected);

    let expected = SubfieldMatcher::new("(a? || b?) && c?").unwrap();
    let mut matcher = SubfieldMatcher::new("a? || b?").unwrap();
    matcher &= SubfieldMatcher::new("c?").unwrap();
    assert_eq!(matcher, expected);

    let expected = SubfieldMatcher::new("a? && (b? || c?)").unwrap();
    let mut matcher = SubfieldMatcher::new("a?").unwrap();
    matcher &= SubfieldMatcher::new("(b? || c?)").unwrap();
    assert_eq!(matcher, expected);

    let expected = SubfieldMatcher::new("(a? ^ b?) && c?").unwrap();
    let mut matcher = SubfieldMatcher::new("a? ^ b?").unwrap();
    matcher &= SubfieldMatcher::new("c?").unwrap();
    assert_eq!(matcher, expected);

    let expected = SubfieldMatcher::new("a? && (b? ^ c?)").unwrap();
    let mut matcher = SubfieldMatcher::new("a?").unwrap();
    matcher &= SubfieldMatcher::new("(b? ^ c?)").unwrap();
    assert_eq!(matcher, expected);

}

#[test]
fn test_subfield_matcher_bitxor() {
    let expected = SubfieldMatcher::new("a? ^ b?").unwrap();
    let lhs = SubfieldMatcher::new("a?").unwrap();
    let rhs = SubfieldMatcher::new("b?").unwrap();
    assert_eq!(lhs ^ rhs, expected);

    let expected = SubfieldMatcher::new("(a? || b?) ^ c?").unwrap();
    let lhs = SubfieldMatcher::new("a? || b?").unwrap();
    let rhs = SubfieldMatcher::new("c?").unwrap();
    assert_eq!(lhs ^ rhs, expected);

    let expected = SubfieldMatcher::new("a? ^ (b? || c?)").unwrap();
    let lhs = SubfieldMatcher::new("a?").unwrap();
    let rhs = SubfieldMatcher::new("(b? || c?)").unwrap();
    assert_eq!(lhs ^ rhs, expected);

    let expected = SubfieldMatcher::new("a? ^ b? ^ c?").unwrap();
    let lhs = SubfieldMatcher::new("a? ^ b?").unwrap();
    let rhs = SubfieldMatcher::new("c?").unwrap();
    assert_eq!(lhs ^ rhs, expected);

}

#[test]
fn test_subfield_matcher_bitxor_assign() {
    let expected = SubfieldMatcher::new("a? ^ b?").unwrap();
    let mut matcher = SubfieldMatcher::new("a?").unwrap();
    matcher ^= SubfieldMatcher::new("b?").unwrap();
    assert_eq!(matcher, expected);

    let expected = SubfieldMatcher::new("(a? || b?) ^ c?").unwrap();
    let mut matcher = SubfieldMatcher::new("a? || b?").unwrap();
    matcher ^= SubfieldMatcher::new("c?").unwrap();
    assert_eq!(matcher, expected);

    let expected = SubfieldMatcher::new("a? ^ (b? || c?)").unwrap();
    let mut matcher = SubfieldMatcher::new("a?").unwrap();
    matcher ^= SubfieldMatcher::new("(b? || c?)").unwrap();
    assert_eq!(matcher, expected);

    let expected = SubfieldMatcher::new("a? ^ b? ^ c?").unwrap();
    let mut matcher = SubfieldMatcher::new("a? ^ b?").unwrap();
    matcher ^= SubfieldMatcher::new("c?").unwrap();
    assert_eq!(matcher, expected);

}

#[test]
fn test_subfield_matcher_bitor() {
    let expected = SubfieldMatcher::new("a? || b?").unwrap();
    let lhs = SubfieldMatcher::new("a?").unwrap();
    let rhs = SubfieldMatcher::new("b?").unwrap();
    assert_eq!(lhs | rhs, expected);

    let expected = SubfieldMatcher::new("a? || b? || c?").unwrap();
    let lhs = SubfieldMatcher::new("a? || b?").unwrap();
    let rhs = SubfieldMatcher::new("c?").unwrap();
    assert_eq!(lhs | rhs, expected);

}

#[test]
fn test_subfield_matcher_bitor_assign() {
    let expected = SubfieldMatcher::new("a? || b?").unwrap();
    let mut matcher = SubfieldMatcher::new("a?").unwrap();
    matcher |= SubfieldMatcher::new("b?").unwrap();
    assert_eq!(matcher, expected);

    let expected = SubfieldMatcher::new("a? || b? || c?").unwrap();
    let mut matcher = SubfieldMatcher::new("a? || b?").unwrap();
    matcher |= SubfieldMatcher::new("c?").unwrap();
    assert_eq!(matcher, expected);

}

#[test]
fn test_subfield_matcher_bitnot() {
    let expected = SubfieldMatcher::new("!(a?)").unwrap();
    let matcher = !SubfieldMatcher::new("(a?)").unwrap();
    assert_eq!(matcher, expected);

    let expected = SubfieldMatcher::new("!a?").unwrap();
    let matcher = !SubfieldMatcher::new("a?").unwrap();
    assert_eq!(matcher, expected);

    let expected = SubfieldMatcher::new("!!a?").unwrap();
    let matcher = !SubfieldMatcher::new("!a?").unwrap();
    assert_eq!(matcher, expected);

    let expected = SubfieldMatcher::new("!(a == 'foo')").unwrap();
    let matcher = !SubfieldMatcher::new("a == 'foo'").unwrap();
    assert_eq!(matcher, expected);

    let expected = SubfieldMatcher::new("!(a? && b?)").unwrap();
    let matcher = !SubfieldMatcher::new("a? && b?").unwrap();
    assert_eq!(matcher, expected);

    let expected = SubfieldMatcher::new("!(a? || b?)").unwrap();
    let matcher = !SubfieldMatcher::new("a? || b?").unwrap();
    assert_eq!(matcher, expected);

    let expected = SubfieldMatcher::new("!(a? ^ b?)").unwrap();
    let matcher = !SubfieldMatcher::new("a? ^ b?").unwrap();
    assert_eq!(matcher, expected);

}

#[test]
fn all_needs_a_subfield_with_a_listed_code() {
    let options = MatcherOptions::default();
    let baz = vec![SubfieldRef::new('b', "baz").unwrap()];
    let matcher = RelationMatcher::new("ALL a == 'foo'").unwrap();
    assert!(!matcher.is_match(&baz, &options));
    let matcher = SubfieldMatcher::new("ALL a =^ 'f'").unwrap();
    assert!(!matcher.is_match(&baz, &options));
    let foo = vec![SubfieldRef::new('a', "foo").unwrap(), SubfieldRef::new('b', "baz").unwrap()];
    assert!(RelationMatcher::new("ALL a == 'foo'").unwrap().is_match(&foo, &options));
    let matcher = InMatcher::new("ALL a in ['foo', 'bar']").unwrap();
    assert!(!matcher.is_match(&baz, &options));
    assert!(matcher.is_match(&foo, &options));
}

#[test]
fn case_ignoring_compares_lower_case() {
    let options = MatcherOptions::default().case_ignore(true);
    let sharp_s = vec![SubfieldRef::new('a', "\u{1e9e}").unwrap()];
    let matcher = RelationMatcher::new("a == '\u{df}'").unwrap();
    assert!(matcher.is_match(&sharp_s, &options));
    assert!(!matcher.is_match(&sharp_s, &MatcherOptions::default()));
}

#[test]
fn contains_matcher_matches_any_value() {
    let options = MatcherOptions::default();
    let values = vec![SubfieldRef::new('a', "Ada Lovelace").unwrap(), SubfieldRef::new('b', "x").unwrap()];
    let matcher = ContainsMatcher::new("a =? ['Love', 'Byron']").unwrap();
    assert!(matcher.is_match(&values, &options));
    let matcher = ContainsMatcher::new("a =? ['love', 'Byron']").unwrap();
    assert!(!matcher.is_match(&values, &options));
    assert!(matcher.is_match(&values, &MatcherOptions::default().case_ignore(true)));
    let matcher = ContainsMatcher::new("ALL [ab] =? ['a', 'x']").unwrap();
    assert!(matcher.is_match(&values, &options));
    let matcher = ContainsMatcher::new("ALL c =? ['a']").unwrap();
    assert!(!matcher.is_match(&values, &options));
}

#[test]
fn code_ranges_stay_within_one_class() {
    assert!(ExistsMatcher::new("[9-A]?").is_err());
    assert!(ExistsMatcher::new("[Z-a]?").is_err());
    assert!(ExistsMatcher::new("[0-9]?").is_ok());
}
