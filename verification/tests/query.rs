use pica_record::query::{squash_separator_collides, Query, QueryExt, QueryOptions};
use pica_record::{ByteRecord, StringRecord};

/// The fields of the Ada Lovelace record that the queries below read.
const ADA: &[u8] = b"003@ \x1f0119232022\x1e002@ \x1f0Tp1\x1e\
008A \x1fas\x1faz\x1faf\x1e008B \x1faw\x1fak\x1fav\x1e\
028A \x1fdAda\x1faKing\x1e\n";

fn rows(record: &ByteRecord, query: &str, options: &QueryOptions) -> Vec<Vec<String>> {
    let query = Query::new(query).unwrap();
    record
        .query(&query, options)
        .into_inner()
        .into_iter()
        .map(|row| row.into_iter().map(|c| String::from_utf8(c).unwrap()).collect())
        .collect()
}

#[test]
fn test_query_literal() {
    let record = ByteRecord::from_bytes(ADA).unwrap();
    let options = QueryOptions::new();
    assert_eq!(rows(&record, "'foo'", &options), vec![vec!["foo"]]);
    assert_eq!(rows(&record, "'foo','bar'", &options), vec![vec!["foo", "bar"]]);
}

#[test]
fn test_query_path() {
    let record = ByteRecord::from_bytes(ADA).unwrap();
    let options = QueryOptions::new();

    assert_eq!(rows(&record, "003@.0", &options), vec![vec!["119232022"]]);
    assert_eq!(
        rows(&record, "003@.0, 002@.0", &options),
        vec![vec!["119232022", "Tp1"]]
    );
    assert_eq!(
        rows(&record, "003@.0, 008A.a", &options),
        vec![
            vec!["119232022", "s"],
            vec!["119232022", "z"],
            vec!["119232022", "f"]
        ]
    );
    assert_eq!(
        rows(&record, "003@.0, 008X.a", &options),
        vec![vec!["119232022", ""]]
    );
    assert_eq!(rows(&record, "008X.a,008Y.a", &options), vec![vec!["", ""]]);
    assert_eq!(
        rows(&record, "008A.a,008B.a", &options),
        vec![
            vec!["s", "w"],
            vec!["s", "k"],
            vec!["s", "v"],
            vec!["z", "w"],
            vec!["z", "k"],
            vec!["z", "v"],
            vec!["f", "w"],
            vec!["f", "k"],
            vec!["f", "v"],
        ]
    );
}

#[test]
fn test_query_path_squash() {
    let record = ByteRecord::from_bytes(ADA).unwrap();

    let options = QueryOptions::new().squash(true);
    assert_eq!(
        rows(&record, "003@.0, 008A.a", &options),
        vec![vec!["119232022", "s|z|f"]]
    );

    let options = QueryOptions::new().squash(true);
    assert_eq!(
        rows(&record, "008A.a,008B.a", &options),
        vec![vec!["s|z|f", "w|k|v"]]
    );

    let options = QueryOptions::new().squash(true).separator("+++".to_string());
    assert_eq!(
        rows(&record, "003@.0, 008A.a", &options),
        vec![vec!["119232022", "s+++z+++f"]]
    );

    let data = b"012A \x1faX\x1fb1\x1fb2\x1e012A \x1faX\x1fb3\x1e\n";
    let record = ByteRecord::from_bytes(data).unwrap();
    let options = QueryOptions::new().squash(true);
    assert_eq!(
        rows(&record, "012A{ a, b }", &options),
        vec![vec!["X", "1|2"], vec!["X", "3"]]
    );
}

#[test]
fn test_query_path_merge() {
    let record = ByteRecord::from_bytes(ADA).unwrap();

    let options = QueryOptions::new().merge(true);
    assert_eq!(
        rows(&record, "003@.0, 008A.a", &options),
        vec![vec!["119232022", "s|z|f"]]
    );

    let options = QueryOptions::new().merge(true);
    assert_eq!(
        rows(&record, "008A.a,008B.a", &options),
        vec![vec!["s|z|f", "w|k|v"]]
    );

    let data = b"012A \x1faX\x1fb1\x1fb2\x1e012A \x1faX\x1fb3\x1e\n";
    let record = ByteRecord::from_bytes(data).unwrap();
    let options = QueryOptions::new().merge(true);
    assert_eq!(
        rows(&record, "012A{ a, b }", &options),
        vec![vec!["X|X|X", "1|2|3"]]
    );
}

#[test]
fn query_doc_example_byte_record() {
    let record = ByteRecord::from_bytes(b"002@ \x1f0Abvz\x1e\n").unwrap();
    let query = Query::new("002@.0").unwrap();
    let outcome = record.query(&query, &QueryOptions::default());
    assert_eq!(outcome.into_inner(), vec![vec![b"Abvz".to_vec()]]);
}

#[test]
fn query_doc_example_string_record() {
    let record = ByteRecord::from_bytes(b"002@ \x1f0Abvz\x1e\n").unwrap();
    let record = StringRecord::try_from(record).unwrap();
    let query = Query::new("002@.0").unwrap();
    let outcome = record.query(&query, &QueryOptions::default());
    assert_eq!(outcome.into_inner(), vec![vec!["Abvz".to_string()]]);
}

#[test]
fn query_to_string_keeps_text() {
    let query = Query::new("'X', 002@{ 0 | 0 =^ 'O'}").unwrap();
    assert_eq!(query.to_string(), "'X', 002@{ 0 | 0 =^ 'O'}");
    let query = Query::new("041A/*{ 9 | 9? }").unwrap();
    assert_eq!(query.to_string(), "041A/*{ 9 | 9? }");
}

#[test]
fn query_invalid() {
    let err = Query::new("003@.0,").unwrap_err();
    assert_eq!(err.to_string(), "invalid query '003@.0,'");
    assert!(Query::new("").is_err());
    assert!(Query::new("003@").is_err());
    assert!(Query::new("'foo' 'bar'").is_err());
}

#[test]
fn query_with_subfield_matcher() {
    let data = b"002@ \x1f0Olfo\x1e002@ \x1f0Tp1\x1e\n";
    let record = ByteRecord::from_bytes(data).unwrap();
    let options = QueryOptions::new();
    assert_eq!(
        rows(&record, "'X', 002@{ 0 | 0 =^ 'O'}", &options),
        vec![vec!["X", "Olfo"]]
    );
    let options = QueryOptions::new().case_ignore(true);
    assert_eq!(
        rows(&record, "002@{ 0 | 0 =^ 'o'}", &options),
        vec![vec!["Olfo"]]
    );
}

#[test]
fn query_string_record_with_literal() {
    let record = ByteRecord::from_bytes(b"002@ \x1f0Abvz\x1e\n").unwrap();
    let record = StringRecord::try_from(record).unwrap();
    let query = Query::new("002@.0, 'x'").unwrap();
    let outcome = record.query(&query, &QueryOptions::new().strsim_threshold(650));
    assert_eq!(outcome.into_inner(), vec![vec!["Abvz".to_string(), "x".to_string()]]);
}

#[test]
fn query_rows_have_one_cell_per_list_and_literal() {
    let data = b"012A \x1faX\x1fb1\x1fb2\x1e012A \x1faY\x1e013A \x1fcZ\x1e\n";
    let record = ByteRecord::from_bytes(data).unwrap();
    let options = QueryOptions::new();
    let table = rows(&record, "012A{ a, b }, 'lit', 013A.c", &options);
    assert_eq!(
        table,
        vec![
            vec!["X", "1", "lit", "Z"],
            vec!["X", "2", "lit", "Z"],
            vec!["Y", "", "lit", "Z"],
        ]
    );
    assert!(table.iter().all(|row| row.len() == 4));

    let options = QueryOptions::new().merge(true).separator(";".to_string());
    let table = rows(&record, "012A{ a, b }, 'lit', 013A.c", &options);
    assert_eq!(table, vec![vec!["X;X;Y", "1;2;", "lit", "Z"]]);
}

#[test]
fn squash_separator_collisions() {
    let values = vec![b"a|b".to_vec(), b"c".to_vec()];
    assert!(squash_separator_collides(&values, "|"));
    assert!(!squash_separator_collides(&values, ""));
    assert!(!squash_separator_collides(&values, "#"));
    assert!(!squash_separator_collides(&values[..1], "|"));
    assert!(!squash_separator_collides(&[], "|"));
}
