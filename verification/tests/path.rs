use pica_record::matcher::subfield::SubfieldMatcher;
use pica_record::matcher::{OccurrenceMatcher, TagMatcher};
use pica_record::path::{parse_path_curly, parse_path_simple};
use pica_record::primitives::SubfieldCode;
use pica_record::matcher::MatcherOptions;
use pica_record::path::Path;
use pica_record::primitives::RecordRef;
use pica_record::{ByteRecord, StringRecord};

/// The fields of the Ada Lovelace record that the paths below read.
const ADA: &[u8] = b"003@ \x1f0119232022\x1e\
007K \x1fapnd\x1f0172642531\x1e\
007N \x1faswd\x1f04370325-2\x1e\
008A \x1fas\x1faz\x1faf\x1e\
008B \x1faw\x1fak\x1fav\x1e\n";

#[test]
fn test_path_new() {
    let record = ByteRecord::from_bytes(ADA).unwrap();
    let options = MatcherOptions::default();
    let path = Path::new("008B.a").unwrap();

    let values: Vec<_> = record.path(&path, &options);
    assert_eq!(values, vec![b"w" as &[u8], b"k", b"v"]);
}

#[test]
#[should_panic]
fn test_path_new_panic() {
    let _ = Path::new("003@.!").unwrap();
}

#[test]
fn test_byte_record_path() {
    let record = ByteRecord::from_bytes(ADA).unwrap();
    let options = MatcherOptions::default();
    let path = Path::new("008A.a").unwrap();

    let values = record.path(&path, &options);
    assert_eq!(values, vec![b"s" as &[u8], b"z", b"f"]);
}

#[test]
fn test_string_record_path() {
    let record = ByteRecord::from_bytes(ADA).unwrap();
    let record = StringRecord::try_from(record).unwrap();
    let options = MatcherOptions::default();

    let path = Path::new("008A.a").unwrap();

    let values: Vec<&str> = record.path(&path, &options);
    assert_eq!(values, vec!["s", "z", "f"]);
}

#[test]
fn test_path_with_predicate() {
    let record = ByteRecord::from_bytes(ADA).unwrap();
    let options = MatcherOptions::default();
    let path = Path::new("007N{ 0 | a == 'swd'}").unwrap();

    let values = record.path(&path, &options);
    assert_eq!(values, vec![b"4370325-2" as &[u8]]);
}

#[test]
fn test_path_first() {
    let record = ByteRecord::from_bytes(ADA).unwrap();
    let options = MatcherOptions::default();
    let path = Path::new("007[KN]{0 | a in ['pnd','swd']}").unwrap();
    assert_eq!(record.first(&path, &options).unwrap(), b"172642531");
}

#[test]
fn test_path_ppn() {
    let record = ByteRecord::from_bytes(ADA).unwrap();
    assert_eq!(record.ppn(), b"119232022");
}

#[test]
fn path_to_string_keeps_text() {
    assert_eq!(Path::new("003@.0").unwrap().to_string(), "003@.0");
    assert_eq!(
        Path::new("045E{ (e, f) | E == 'm' }").unwrap().to_string(),
        "045E{ (e, f) | E == 'm' }"
    );
    assert_eq!(
        Path::new("041A/*{ 9 | 9? }").unwrap().to_string(),
        "041A/*{ 9 | 9? }"
    );
}

#[test]
fn path_curly_lists_and_matcher() {
    let data = b"045E \x1fem\x1ffx\x1fEm\x1e045E \x1fen\x1fEk\x1e\n";
    let record = RecordRef::from_bytes(data).unwrap();
    let options = MatcherOptions::default();
    let path = Path::new("045E{ (e, f) | E == 'm' }").unwrap();
    assert_eq!(record.path(&path, &options), vec![b"m" as &[u8], b"x"]);
    let path = Path::new("045E{ e }").unwrap();
    assert_eq!(record.path(&path, &options), vec![b"m" as &[u8], b"n"]);
    assert_eq!(record.first(&Path::new("046E.e").unwrap(), &options), None);
}

#[test]
fn path_errors() {
    let err = Path::new("003@.!").unwrap_err();
    assert_eq!(err.to_string(), "invalid path '003@.!'");
    assert!(Path::new("003@").is_err());
    assert!(Path::new("003@.0 x").is_err());
}

#[test]
fn test_parse_path_simple() {

    let (path, end) = parse_path_simple(b"003@.0", 0).unwrap();
    assert_eq!(end, 6);
    assert_eq!(
        path,
        Path::from_parts(
            TagMatcher::new("003@").unwrap(),
            OccurrenceMatcher::Absent,
            None,
            vec![vec![SubfieldCode::new('0').unwrap()]],
            "003@.0".to_string(),
        )
    );
}

#[test]
fn test_parse_path_curly() {

    let input = b"045E{ (e, f) | E == 'm' }";
    let (path, end) = parse_path_curly(input, 0).unwrap();
    assert_eq!(end, input.len());
    assert_eq!(
        path,
        Path::from_parts(
            TagMatcher::new("045E").unwrap(),
            OccurrenceMatcher::Absent,
            Some(SubfieldMatcher::new("E == 'm'").unwrap()),
            vec![vec![SubfieldCode::new('e').unwrap()], vec![SubfieldCode::new('f').unwrap()]],
            "045E{ (e, f) | E == 'm' }".to_string(),
        )
    );
}
