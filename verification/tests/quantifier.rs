use pica_record::matcher::quantifier::parse_quantifier;
use pica_record::matcher::Quantifier;

#[test]
fn quantifier_test_parse_quantifier() {
    assert_eq!(parse_quantifier(b"ALL", 0).unwrap().0, Quantifier::All);
    assert_eq!(parse_quantifier(b"ANY", 0).unwrap().0, Quantifier::Any);
}
