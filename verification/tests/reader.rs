use pica_record::io::{ReadPicaError, ReaderBuilder};

#[test]
fn reader_counts_lines_and_names_them_in_errors() {
    let mut reader = ReaderBuilder::new().from_reader((), Some("-".to_string()));
    assert_eq!(reader.line_number(), 0);
    reader.begin_line();
    assert!(reader.byte_record(b"002@ \x1f0Abvz\x1e\n").is_ok());
    reader.begin_line();
    match reader.byte_record(b"002@ \x1f0Abvz\x1e") {
        Err(ReadPicaError::Parse { msg, .. }) => {
            assert_eq!(msg, "invalid record on line 2 (<stdin>).")
        }
        _ => panic!("expected a parse error"),
    }
    assert_eq!(reader.line_number(), 2);
}

#[test]
fn reader_without_source() {
    let mut reader = ReaderBuilder::new().from_reader((), None);
    for _ in 0..12 {
        reader.begin_line();
    }
    match reader.byte_record(b"x") {
        Err(e) => {
            assert!(e.skip_parse_err(true));
            assert!(!e.skip_parse_err(false));
            match e {
                ReadPicaError::Parse { msg, .. } => assert_eq!(msg, "invalid record on line 12."),
                _ => panic!("expected a parse error"),
            }
        }
        Ok(_) => panic!("expected an error"),
    }
}

#[test]
fn reader_string_records() {
    let mut reader = ReaderBuilder::new().from_reader((), Some("ada.dat".to_string()));
    reader.begin_line();
    assert!(reader.string_record(b"002@ \x1f0Abvz\x1e\n").is_ok());
    reader.begin_line();
    match reader.string_record(b"002@ \x1f0Abvz\xff\xfd\x1e\n") {
        Err(ReadPicaError::Utf8 { msg, .. }) => assert_eq!(msg, "invalid record on line 1."),
        _ => panic!("expected a UTF-8 error"),
    }
    match reader.string_record(b"002@") {
        Err(ReadPicaError::Parse { msg, .. }) => {
            assert_eq!(msg, "invalid record on line 2 (ada.dat).")
        }
        _ => panic!("expected a parse error"),
    }
}

#[test]
fn reader_gives_back_its_source() {
    let reader = ReaderBuilder::new().from_reader(vec![1u8, 2, 3], None);
    assert_eq!(reader.into_inner(), vec![1u8, 2, 3]);
}
