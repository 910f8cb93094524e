use pica_record::fmt::{Format, FormatExt, FormatOptions};
use pica_record::primitives::RecordRef;
use pica_record::{ByteRecord, StringRecord};

/// The field of the Ada Lovelace record that the formats below read.
const ADA: &[u8] = b"003@ \x1f0119232022\x1e028A \x1fdAda King\x1fcof\x1faLovelace\x1e\n";

fn formatted(format: &str) -> Vec<String> {
    let record = RecordRef::from_bytes(ADA).unwrap();
    let format = Format::new(format).unwrap();
    record
        .format(&format, &FormatOptions::default())
        .into_iter()
        .map(|v| String::from_utf8(v).unwrap())
        .collect()
}

#[test]
fn test_format_value() {
    assert_eq!(formatted("028A{ a }"), vec!["Lovelace"]);
    assert_eq!(formatted("028A{ ?t *..2 ' ' }"), vec!["Ada King of"]);
}

#[test]
fn test_format_list() {
    assert_eq!(formatted("028A{ d ' ' <$> a }"), vec!["Ada King Lovelace"]);
    assert!(formatted("028A{ x  <$> ' ' a }").is_empty());
    assert_eq!(formatted("028A{ d ' ' <*> a }"), vec!["Ada King Lovelace"]);
    assert_eq!(formatted("028A{ x <*> ' 'a }"), vec![" Lovelace"]);
    assert_eq!(
        formatted("028A{ d ' ' <$> c ' ' <*> a }"),
        vec!["Ada King of Lovelace"]
    );
}

#[test]
fn test_format_group() {
    assert_eq!(
        formatted("028A{ a <$> ( ', ' d <*> ' (' c ')' ) }"),
        vec!["Lovelace, Ada King (of)"]
    );
    assert_eq!(
        formatted("028A{ (a <$> ( ', ' d <*> ' (' c ')' )) }"),
        vec!["Lovelace, Ada King (of)"]
    );
}

#[test]
fn parser_test_parse_format() {
    let inputs = vec![
        "028[A@]{[aP] <$> (', ' d <*> ' ' c) | !U? || U == 'Latn'}",
        "042A{'https://d-nb.info/standards/vocab/gnd/gnd-sc#' a }",
        "006Y{(?w 'https://isni.org/isni/' 0) | S == 'isni' }",
        "029A{a <$> (' (' g ')' <*> ' / ' [xb] <*> ', ' n)..1}",
        "029A{a <$> (' (' g ')' <*> ' / ' [xb] <*> ', ' n)..2}",
        "029A{a <$> (' (' g ')' <*> ' / ' [xb] <*> ', ' n)..3}",
        "029A{a <$> (' (' g ')' <*> ' / ' [xb] <*> ', ' n)..}",
        "029A{a <$> (' (' g ')' <*> ' / ' [xb] <*> ', ' n)}",
        "041A{ x.. <$> (a <*> b)..2 <$> (c <*> d).. | a? }",
    ];

    for i in inputs {
        assert!(Format::new(i).is_ok(), "{i}");
    }
}

#[test]
fn test_invalid_byte_seq() {
    let input = vec![
        48, 50, 50, 88, 13, 13, 13, 13, 13, 10, 123, 40, 40, 40, 40, 40, 40, 40, 40, 40, 40, 40,
        40, 40, 40, 40, 40, 40, 40, 40, 40, 40, 40, 40, 40, 40, 40, 40, 40, 40, 40, 40, 40, 40,
        40, 40, 40, 40, 40, 40, 40, 40, 40, 40, 40, 40, 40, 40, 40, 40, 40, 40, 40, 40, 40, 40,
        40, 40, 40, 40, 40, 40, 40, 40, 40, 40, 40, 40, 40, 40, 40, 40, 40, 40, 40, 40, 40, 40,
        40, 40, 40, 40, 40, 40, 40, 40, 40, 40, 40, 40, 40, 40, 40, 40, 40, 40, 40,
    ];
    assert!(Format::new(std::str::from_utf8(&input).unwrap()).is_err());

    let input = vec![
        48, 50, 50, 88, 13, 13, 13, 13, 13, 13, 10, 123, 13, 40, 40, 40, 40, 40, 40, 40, 40, 40,
        40, 40, 40, 40, 40, 40, 40, 40, 40, 40, 40, 40, 40, 40, 40, 40, 40, 40, 40, 40, 40, 40,
        40, 40, 40, 40, 13, 13, 13, 88, 13, 13, 19, 13, 34, 10, 49, 50, 46, 48, 50, 50, 88, 13,
        13, 10, 13, 13, 13, 123, 13, 13, 34, 10, 9, 10, 13, 13, 13, 13, 13, 88,
    ];
    assert!(Format::new(std::str::from_utf8(&input).unwrap()).is_err());
}

#[test]
fn format_to_string_and_error() {
    let format = Format::new("028@{ a <$> d }").unwrap();
    assert_eq!(format.to_string(), "028@{ a <$> d }");
    let format = Format::new("028@{ a <$> d }  \n").unwrap();
    assert_eq!(format.to_string(), "028@{ a <$> d }");
    let err = Format::new("028@{ a <$> }").unwrap_err();
    assert_eq!(err.to_string(), "invalid format '028@{ a <$> }'");
}

#[test]
fn format_string_record_example() {
    let record = ByteRecord::from_bytes(b"021A \x1fafoo\x1fdbar\x1e\n").unwrap();
    let record = StringRecord::try_from(record).unwrap();
    let format = Format::new("021A{ a <$> ' ' d }").unwrap();
    let values = record.format(&format, &FormatOptions::default());
    assert_eq!(values, vec!["foo bar".to_string()]);
}

#[test]
fn format_strips_first_overread_char() {
    let record = RecordRef::from_bytes(b"021A \x1faDie @Mausefalle @x\x1e\n").unwrap();
    let format = Format::new("021A{ a }").unwrap();
    let values = record.format(&format, &FormatOptions::new());
    assert_eq!(values, vec![b"Die Mausefalle @x".to_vec()]);
    let options = FormatOptions::new().strip_overread_char(false);
    let values = record.format(&format, &options);
    assert_eq!(values, vec![b"Die @Mausefalle @x".to_vec()]);
}

#[test]
fn format_modifiers() {
    let record = RecordRef::from_bytes(b"021A \x1fa  Foo Bar \x1e\n").unwrap();
    let run = |f: &str| -> Vec<u8> {
        let format = Format::new(f).unwrap();
        record.format(&format, &FormatOptions::new()).remove(0)
    };
    assert_eq!(run("021A{ ?l a }"), b"  foo bar ".to_vec());
    assert_eq!(run("021A{ ?u a }"), b"  FOO BAR ".to_vec());
    assert_eq!(run("021A{ ?t a }"), b"Foo Bar".to_vec());
    assert_eq!(run("021A{ ?w a }"), b"FooBar".to_vec());
    assert_eq!(run("021A{ ?wu a }"), b"FOOBAR".to_vec());
    assert_eq!(run("021A{ (?tl a) }"), b"foo bar".to_vec());
}

#[test]
fn format_subfield_matcher_and_bounds() {
    let data = b"021A \x1fa1\x1fa2\x1fa3\x1fbx\x1e021A \x1fa4\x1fby\x1e\n";
    let record = RecordRef::from_bytes(data).unwrap();
    let format = Format::new("021A{ a..2 '-' | b == 'x' }").unwrap();
    let values = record.format(&format, &FormatOptions::new());
    assert_eq!(values, vec![b"1-2-".to_vec()]);
    let format = Format::new("021A{ a.. }").unwrap();
    let values = record.format(&format, &FormatOptions::new());
    assert_eq!(values, vec![b"123".to_vec(), b"4".to_vec()]);
}

#[test]
fn format_nested_groups_are_limited() {
    let nested = |depth: usize| -> String {
        let mut s = "b".to_string();
        for _ in 0..depth {
            s = format!("(a <*> {s})");
        }
        format!("021A{{ {s} }}")
    };
    assert!(Format::new(&nested(5)).is_ok());
    assert!(Format::new(&nested(10)).is_ok());
    let open = format!("021A{{ {}a <*> b }}", "(".repeat(40));
    assert!(Format::new(&open).is_err());
}
