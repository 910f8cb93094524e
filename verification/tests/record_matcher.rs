use pica_record::matcher::{MatcherOptions, RecordMatcher};
use pica_record::primitives::RecordRef;

/// The fields of the Ada Lovelace record that the matchers below read.
const ADA: &[u8] = b"003@ \x1f0119232022\x1e\
002@ \x1f0Tp1\x1e\
003U \x1fahttp://d-nb.info/gnd/119232022\x1e\
004B \x1fapik\x1e\
028A \x1fdAda King\x1fcof\x1faLovelace\x1e\
028@ \x1fdAda\x1faLovelace\x1e\
028@ \x1fdAda Augusta\x1faLovelace\x1e\
028@ \x1fdAda Byron\x1faLovelace\x1e\
028@ \x1fdAda Augusta\x1faByron\x1e\
028@ \x1fdAda King\x1faLovelace\x1e\
028@ \x1fdAugusta Ada\x1faLovelace\x1e\
042A \x1fa28p\x1fa9.5p\x1e\
042B \x1faXA-GB\x1e\
047A/03 \x1feDE-1016\x1frDE-1016\x1e\n";

#[test]
fn test_record_matcher_new() {
    let matcher = RecordMatcher::new("003@.0?").unwrap();
    assert!(matcher.is_match(
        &RecordRef::from_bytes(ADA).unwrap(),
        &MatcherOptions::default()
    ));
}

#[test]
#[should_panic]
fn test_record_matcher_new_panic() {
    let _ = RecordMatcher::new("003@.!?").unwrap();
}

#[test]
fn test_record_matcher_exists() {
    let record = RecordRef::from_bytes(ADA).unwrap();

    let matcher = RecordMatcher::new("004B?").unwrap();
    assert!(matcher.is_match(&record, &Default::default()));

    let matcher = RecordMatcher::new("028A.a?").unwrap();
    assert!(matcher.is_match(&record, &Default::default()));
}

#[test]
fn test_record_matcher_cardinality() {
    let record = RecordRef::from_bytes(ADA).unwrap();
    let matcher = RecordMatcher::new(
        "#028[A@]{d =^ 'Ada' && a == 'Lovelace'} == 5",
    ).unwrap();

    assert!(matcher.is_match(&record, &Default::default()));
}

#[test]
fn test_record_matcher_in() {
    let record = RecordRef::from_bytes(ADA).unwrap();
    let matcher = RecordMatcher::new("002@.0 in ['Tpz', 'Tp1']").unwrap();
    assert!(matcher.is_match(&record, &Default::default()));
}

#[test]
fn test_record_matcher_not_in() {
    let record = RecordRef::from_bytes(ADA).unwrap();
    let matcher =
        RecordMatcher::new("002@.0 not in ['Tuz', 'Tu1']").unwrap();
    assert!(matcher.is_match(&record, &Default::default()));
}

#[test]
fn test_record_matcher_regex() {
    let record = RecordRef::from_bytes(ADA).unwrap();
    let matcher =
        RecordMatcher::new("047A/03.[er] =~ '^DE-\\\\d+6'").unwrap();

    assert!(matcher.is_match(&record, &Default::default()));

    let record = RecordRef::from_bytes(ADA).unwrap();
    let matcher =
        RecordMatcher::new("047A/03.[er] !~ '^EN-\\\\d+6'").unwrap();

    assert!(matcher.is_match(&record, &Default::default()));
}

#[test]
fn test_record_matcher_regex_set() {
    let record = RecordRef::from_bytes(ADA).unwrap();
    let matcher = RecordMatcher::new(
        "047A/03.[er] =~ ['^DE-\\\\d+6', '^EN-.*']",
    ).unwrap();

    assert!(matcher.is_match(&record, &Default::default()));
}

#[test]
fn test_record_matcher_equal() {
    let record = RecordRef::from_bytes(ADA).unwrap();
    let matcher = RecordMatcher::new("003@.0 == '119232022'").unwrap();
    assert!(matcher.is_match(&record, &Default::default()));
}

#[test]
fn test_record_matcher_not_equal() {
    let record = RecordRef::from_bytes(ADA).unwrap();
    let matcher = RecordMatcher::new("002@.0 != 'Ts1'").unwrap();
    assert!(matcher.is_match(&record, &Default::default()));
}

#[test]
fn test_record_matcher_starts_with() {
    let record = RecordRef::from_bytes(ADA).unwrap();
    let matcher =
        RecordMatcher::new("003U.a =^ 'http://d-nb.info/gnd/'").unwrap();
    assert!(matcher.is_match(&record, &Default::default()));
}

#[test]
fn test_record_matcher_starts_not_with() {
    let record = RecordRef::from_bytes(ADA).unwrap();
    let matcher = RecordMatcher::new("002@.0 !^ 'Ts'").unwrap();
    assert!(matcher.is_match(&record, &Default::default()));
}

#[test]
fn test_record_matcher_ends_with() {
    let record = RecordRef::from_bytes(ADA).unwrap();
    let matcher = RecordMatcher::new("042B.a =$ '-GB'").unwrap();
    assert!(matcher.is_match(&record, &Default::default()));
}

#[test]
fn test_record_matcher_ends_not_with() {
    let record = RecordRef::from_bytes(ADA).unwrap();
    let matcher = RecordMatcher::new("002@.0 !$ '3'").unwrap();
    assert!(matcher.is_match(&record, &Default::default()));
}

#[test]
fn test_record_matcher_group() {
    let record = RecordRef::from_bytes(ADA).unwrap();
    let matcher =
        RecordMatcher::new("(002@.0 == 'Tp1' && 004B.a == 'pik')").unwrap();
    assert!(matcher.is_match(&record, &Default::default()));
}

#[test]
fn test_record_matcher_not() {
    let record = RecordRef::from_bytes(ADA).unwrap();
    let matcher =
        RecordMatcher::new("!(002@.0 == 'Ts1' || 002@.0 =^ 'Tu')").unwrap();
    assert!(matcher.is_match(&record, &Default::default()));

    let matcher = RecordMatcher::new("!012A.0?").unwrap();
    assert!(matcher.is_match(&record, &Default::default()));
}

#[test]
fn test_record_matcher_and() {
    let record = RecordRef::from_bytes(ADA).unwrap();
    let matcher =
        RecordMatcher::new("002@.0 == 'Tp1' && 004B.a == 'pik'").unwrap();
    assert!(matcher.is_match(&record, &Default::default()));
}

#[test]
fn test_record_matcher_or() {
    let record = RecordRef::from_bytes(ADA).unwrap();
    let matcher =
        RecordMatcher::new("002@.0 == 'Ts1' || 004B.a == 'pik'").unwrap();
    assert!(matcher.is_match(&record, &Default::default()));
}

#[test]
fn test_record_matcher_xor() {
    let record = RecordRef::from_bytes(ADA).unwrap();

    let matcher =
        RecordMatcher::new("042A.a == '28p' ^ 042A.a == '9.5p'").unwrap();
    assert!(!matcher.is_match(&record, &Default::default()));

    let matcher =
        RecordMatcher::new("042A.a == '28p' XOR 042A.a == '9.5p'").unwrap();
    assert!(!matcher.is_match(&record, &Default::default()));
}

#[test]
fn record_matcher_doc_examples() {
    assert!(RecordMatcher::new("#003@ > 1").is_ok());
    assert!(RecordMatcher::new("010@.a == 'ger'").is_ok());

    let record = RecordRef::new(vec![
        ("003@", None, vec![('0', "123456789X")]),
        ("002@", None, vec![('0', "Tp1")]),
    ])
    .unwrap();
    let options = MatcherOptions::default();
    let matcher = RecordMatcher::new("002@.0 == 'Tp1'").unwrap();
    assert!(matcher.is_match(&record, &options));
    assert_eq!(matcher.to_string(), "002@.0 == 'Tp1'");

    let lhs = RecordMatcher::new("003@?").unwrap();
    let rhs = RecordMatcher::new("002@.0 == 'Tp1'").unwrap();
    assert!((lhs & rhs).is_match(&record, &options));
    let lhs = RecordMatcher::new("003@?").unwrap();
    let rhs = RecordMatcher::new("002@.0 == 'Tp1'").unwrap();
    assert!(!(lhs ^ rhs).is_match(&record, &options));
    let lhs = RecordMatcher::new("004@?").unwrap();
    let rhs = RecordMatcher::new("002@.0 == 'Tp1'").unwrap();
    assert!((lhs | rhs).is_match(&record, &options));
    assert!(!(!RecordMatcher::new("003@?").unwrap()).is_match(&record, &options));
}

#[test]
fn record_matcher_error_message() {
    let err = RecordMatcher::new("003@.!?").unwrap_err();
    assert_eq!(err.to_string(), "invalid field matcher '003@.!?'");
}
