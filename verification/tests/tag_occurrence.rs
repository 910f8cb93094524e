use pica_record::matcher::field::{CardinalityMatcher, ExistsMatcher, SingletonMatcher, SubfieldsMatcher};
use pica_record::matcher::{MatcherOptions, OccurrenceMatcher, TagMatcher};
use pica_record::primitives::{FieldRef, Occurrence, Tag, TagRef};

#[test]
fn test_parse_tag_matcher() {
    assert_eq!(TagMatcher::new("003@").unwrap(), TagMatcher::Tag(Tag::new("003@").unwrap()));
    assert_eq!(TagMatcher::new("002@").unwrap(), TagMatcher::Tag(Tag::new("002@").unwrap()));
    assert_eq!(
        TagMatcher::new(".0[2-4]@").unwrap(),
        TagMatcher::Pattern(
            [
                vec![b'0', b'1', b'2'],
                vec![b'0'],
                vec![b'2', b'3', b'4'],
                vec![b'@']
            ],
            ".0[2-4]@".to_string()
        )
    );
    assert_eq!(
        TagMatcher::new("00[23]@").unwrap(),
        TagMatcher::Pattern(
            [vec![b'0'], vec![b'0'], vec![b'2', b'3'], vec![b'@']],
            "00[23]@".to_string()
        )
    );
}

#[test]
fn test_parse_occurrence_matcher() {
    let cases = [
        ("/*", OccurrenceMatcher::Any),
        ("/01", OccurrenceMatcher::Exact(Occurrence::new("01").unwrap())),
        ("/999", OccurrenceMatcher::Exact(Occurrence::new("999").unwrap())),
        (
            "/01-99",
            OccurrenceMatcher::Range(Occurrence::new("01").unwrap(), Occurrence::new("99").unwrap()),
        ),
    ];
    for (input, expected) in cases {
        let o = OccurrenceMatcher::new(input).unwrap();
        assert_eq!(o.to_string(), input);
        assert_eq!(o, expected);
    }
    assert_eq!(OccurrenceMatcher::new("").unwrap(), OccurrenceMatcher::Absent);
    assert_eq!(OccurrenceMatcher::new("/00").unwrap(), OccurrenceMatcher::Absent);
}

#[test]
fn parser_test_parse_exists_matcher_field() {
    let options = MatcherOptions::default();
    let o = ExistsMatcher::new("003@?").unwrap();
    assert_eq!(o.to_string(), "003@?");
    let field = FieldRef::new("003@", None, vec![('0', "1")]).unwrap();
    assert!(o.is_match(std::slice::from_ref(&field), &options));
    let o = ExistsMatcher::new("041A/*?").unwrap();
    assert_eq!(o.to_string(), "041A/*?");
    let field = FieldRef::new("041A", Some("09"), vec![('9', "1")]).unwrap();
    assert!(o.is_match(std::slice::from_ref(&field), &options));
}

#[test]
fn test_parse_subfields_matcher() {
    let options = MatcherOptions::default();
    let field = FieldRef::new("003@", None, vec![('0', "0123456789X")]).unwrap();
    for input in ["003@.0 == '0123456789X'", "003@{0 == '0123456789X'}"] {
        let o = SubfieldsMatcher::new(input).unwrap();
        assert_eq!(o.to_string(), input);
        assert!(o.is_match(std::slice::from_ref(&field), &options));
    }
}

#[test]
fn parser_test_parse_singleton_matcher_field() {
    let o = SingletonMatcher::new("041A/*?").unwrap();
    assert_eq!(o.to_string(), "041A/*?");
    assert!(matches!(o, SingletonMatcher::Exists(_)));
    let o = SingletonMatcher::new("003@.0 == '0123456789X'").unwrap();
    assert_eq!(o.to_string(), "003@.0 == '0123456789X'");
    assert!(matches!(o, SingletonMatcher::Subfields(_)));
}

#[test]
fn parser_test_parse_cardinality_matcher_field() {
    let options = MatcherOptions::default();
    let o = CardinalityMatcher::new("#010@ > 5").unwrap();
    assert_eq!(o.to_string(), "#010@ > 5");
    let field = FieldRef::new("010@", None, vec![('a', "ger")]).unwrap();
    let fields: Vec<_> = (0..6).map(|_| field.clone()).collect();
    assert!(o.is_match(&fields, &options));
    assert!(!o.is_match(&fields[..5], &options));
}

fn tag(t: &str) -> TagRef<'_> {
    TagRef::new(t).unwrap()
}

#[test]
fn test_tag_matcher() {
    let matcher = TagMatcher::new("012A").unwrap();
    assert!(matcher.is_match(&tag("012A")));
    assert!(!matcher.is_match(&tag("012@")));

    let matcher = TagMatcher::new("[01][34][56][AB]").unwrap();
    assert!(matcher.is_match(&tag("035A")));
    assert!(matcher.is_match(&tag("146B")));

    let matcher = TagMatcher::new(".12A").unwrap();
    assert!(matcher.is_match(&tag("012A")));
    assert!(matcher.is_match(&tag("112A")));
    assert!(matcher.is_match(&tag("212A")));

    let matcher = TagMatcher::new("0.2A").unwrap();
    assert!(matcher.is_match(&tag("002A")));
    assert!(matcher.is_match(&tag("012A")));
    assert!(matcher.is_match(&tag("022A")));
    assert!(matcher.is_match(&tag("032A")));
    assert!(matcher.is_match(&tag("042A")));
    assert!(matcher.is_match(&tag("052A")));
    assert!(matcher.is_match(&tag("062A")));
    assert!(matcher.is_match(&tag("072A")));
    assert!(matcher.is_match(&tag("082A")));
    assert!(matcher.is_match(&tag("092A")));

    let matcher = TagMatcher::new("01.A").unwrap();
    assert!(matcher.is_match(&tag("010A")));
    assert!(matcher.is_match(&tag("011A")));
    assert!(matcher.is_match(&tag("012A")));
    assert!(matcher.is_match(&tag("013A")));
    assert!(matcher.is_match(&tag("014A")));
    assert!(matcher.is_match(&tag("015A")));
    assert!(matcher.is_match(&tag("016A")));
    assert!(matcher.is_match(&tag("017A")));
    assert!(matcher.is_match(&tag("018A")));
    assert!(matcher.is_match(&tag("019A")));

    let matcher = TagMatcher::new("012.").unwrap();
    assert!(matcher.is_match(&tag("012A")));
    assert!(matcher.is_match(&tag("012B")));
    assert!(matcher.is_match(&tag("012C")));
    assert!(matcher.is_match(&tag("012@")));

    let matcher = TagMatcher::new("0...").unwrap();
    assert!(matcher.is_match(&tag("012A")));
    assert!(matcher.is_match(&tag("023B")));

    assert!(TagMatcher::new("412A").is_err());
    assert!(TagMatcher::new("0A2A").is_err());
    assert!(TagMatcher::new("01AA").is_err());
    assert!(TagMatcher::new("0123").is_err());
}

#[test]
fn tag_matcher_from_tag_matches_it() {
    for t in ["003@", "012A", "209Z", "145S"] {
        let matcher = TagMatcher::from(Tag::new(t).unwrap());
        assert!(matcher.is_match(&tag(t)));
        assert!(!matcher.is_match(&tag("000@")));
        assert_eq!(TagMatcher::new(t).unwrap(), matcher);
    }
}

#[test]
fn tag_pattern_accepts_only_tags_bytes() {
    let matcher = TagMatcher::new("[0-2][0-9][0-9][@-Z]").unwrap();
    assert!(matcher.is_match(&tag("000@")));
    assert!(matcher.is_match(&tag("299Z")));
    assert!(TagMatcher::new("[0-3]00@").is_err());
}
