use pica_record::primitives::subfield::{parse_subfield_value_ref, SubfieldValueRef};
use pica_record::primitives::{
    Field, FieldRef, Level, Occurrence, OccurrenceRef, RecordRef, SubfieldCode, SubfieldRef, Tag, TagRef,
};

#[test]
fn field_ref_accessors() {
    let field = FieldRef::new("003@", None, vec![('0', "123456789X")]).unwrap();
    assert_eq!(field.tag().as_bytes(), b"003@");
    assert!(field.occurrence().is_none());
    assert_eq!(field.subfields().len(), 1);
    assert!(!field.contains('a'));
    assert!(field.contains('0'));

    let field = FieldRef::new("012A", Some("01"), vec![('a', "b")]).unwrap();
    assert_eq!(field.occurrence().unwrap().as_bytes(), b"01");
    assert_eq!(field.subfields()[0], SubfieldRef::new('a', "b").unwrap());
    assert!(FieldRef::new("12A", None, vec![]).is_err());
}

#[test]
fn field_ref_level_validate_write() {
    let field = FieldRef::from_bytes(b"012A/01 \x1fab\x1fcd\x1e").unwrap();
    assert_eq!(field.level(), Level::Main);
    let field = FieldRef::from_bytes(b"101@ \x1fa1\x1e").unwrap();
    assert_eq!(field.level(), Level::Local);
    let field = FieldRef::from_bytes(b"203@/01 \x1f01\x1e").unwrap();
    assert_eq!(field.level(), Level::Copy);

    assert!(FieldRef::from_bytes(b"003@ \x1f0123\x1e").unwrap().validate().is_ok());
    assert!(FieldRef::from_bytes(b"003@ \x1f0\x00\x9F\x1e").unwrap().validate().is_err());

    let mut out = Vec::new();
    FieldRef::from_bytes(b"012A/01 \x1fab\x1fcd\x1e").unwrap().write_to(&mut out);
    assert_eq!(String::from_utf8(out).unwrap(), "012A/01 \x1fab\x1fcd\x1e");

    let mut out = Vec::new();
    Field::new("012A", Some("01"), vec![('a', "b"), ('c', "d")]).unwrap().write_to(&mut out);
    assert_eq!(String::from_utf8(out).unwrap(), "012A/01 \x1fab\x1fcd\x1e");
}

#[test]
fn occurrences_and_tags() {
    assert_eq!(OccurrenceRef::new("001").unwrap().as_bytes(), b"001");
    assert_eq!(OccurrenceRef::from_bytes(b"00").unwrap().as_bytes(), b"00");
    assert!(OccurrenceRef::new("0").is_err());
    assert!(OccurrenceRef::new("0001").is_err());
    let mut out = Vec::new();
    OccurrenceRef::new("01").unwrap().write_to(&mut out);
    assert_eq!(out, b"/01");
    let occ = Occurrence::new("001").unwrap();
    assert_eq!(occ.as_bytes(), b"001");
    assert_eq!(occ.len(), 3);
    let mut out = Vec::new();
    Occurrence::new("01").unwrap().write_to(&mut out);
    assert_eq!(out, b"/01");
    assert_eq!(Occurrence::from_ref(OccurrenceRef::new("999").unwrap()), Occurrence::new("999").unwrap());

    assert_eq!(TagRef::new("003@").unwrap().as_bytes(), b"003@");
    assert!(TagRef::new("303@").is_err());
    assert!(TagRef::new("003").is_err());
    assert_eq!(Tag::new("041A").unwrap().as_bytes(), b"041A");
    assert_eq!(TagRef::new("209A").unwrap().level(), Level::Copy);
}

#[test]
fn subfield_codes_and_values() {
    assert_eq!(SubfieldCode::new('a').unwrap().as_byte(), b'a');
    assert!(SubfieldCode::new('!').is_err());
    let sf = SubfieldRef::new('0', "123").unwrap();
    assert_eq!(sf.code().as_byte(), b'0');
    assert_eq!(sf.value().as_bytes(), b"123");
    assert!(SubfieldRef::new('0', "a\x1fb").is_err());
    assert!(SubfieldRef::new('0', "a\x1eb").is_err());
    let mut out = Vec::new();
    sf.write_to(&mut out);
    assert_eq!(out, b"\x1f0123");
}

#[test]
fn records() {
    let record = RecordRef::new(vec![
        ("003@", None, vec![('0', "123456789X")]),
        ("002@", None, vec![('0', "Tp1")]),
    ])
    .unwrap();
    assert_eq!(record.fields().len(), 2);

    let record = RecordRef::from_bytes(b"012A \x1f0abc\x1e\n").unwrap();
    assert_eq!(record.fields().len(), 1);
    assert_eq!(record.fields()[0], FieldRef::from_bytes(b"012A \x1f0abc\x1e").unwrap());
    assert!(!record.is_empty());

    let mut record = RecordRef::new(vec![
        ("003@", None, vec![('0', "123456789X")]),
        ("002@", None, vec![('0', "Oaf")]),
    ])
    .unwrap();
    record.retain(|field| field.tag().as_bytes() == b"003@");
    assert_eq!(record.fields().len(), 1);

    let record = RecordRef::from_bytes(b"003@ \x1f0a\x1e\n").unwrap();
    assert!(record.validate().is_ok());
    let mut out = Vec::new();
    record.write_to(&mut out);
    assert_eq!(String::from_utf8(out).unwrap(), "003@ \x1f0a\x1e\n");
}

#[test]
fn test_parse_subfield_value_ref() {

    for (input, expected, rest) in [
        (&b"abc"[..], &b"abc"[..], &b""[..]),
        (b"a\x1ebc", b"a", b"\x1ebc"),
        (b"a\x1fbc", b"a", b"\x1fbc"),
        (b"", b"", b""),
    ] {
        let value = SubfieldValueRef::from_unchecked(expected);
        assert_eq!(parse_subfield_value_ref(input), (rest, value));
    }
}

#[test]
fn error_messages_name_the_input() {
    let err = SubfieldCode::new('!').unwrap_err();
    assert_eq!(err.to_string(), "'!' is not a valid subfield code");
    let err = TagRef::new("303").unwrap_err();
    assert_eq!(err.to_string(), "invalid tag '[51, 48, 51]'");
    let err = OccurrenceRef::new("/0").unwrap_err();
    assert_eq!(err.to_string(), "invalid occurrence '[47, 48]'");
    let err = SubfieldRef::from_bytes(b"\x1f!x").unwrap_err();
    assert_eq!(err.to_string(), "invalid subfield [31, 33, 120]");
}

#[test]
fn field_ref_find() {
    let field = FieldRef::new("012A", None, vec![('a', "b"), ('c', "d"), ('a', "e")]).unwrap();
    assert!(field.find(|subfield| *subfield.code() == 'b').is_none());
    let subfield = field.find(|subfield| *subfield.code() == 'a').unwrap();
    assert_eq!(subfield, &SubfieldRef::new('a', "b").unwrap());
    let subfield = field.find(|subfield| subfield.value().as_bytes() == b"e").unwrap();
    assert_eq!(subfield, &SubfieldRef::new('a', "e").unwrap());
}
