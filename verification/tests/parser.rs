use pica_record::parser::parse_string;
use pica_record::matcher::operator::parse_relational_operator;
use pica_record::matcher::subfield::ExistsMatcher;
use pica_record::matcher::{MatcherOptions, RelationalOp};
use pica_record::primitives::{RecordRef, SubfieldRef};
use pica_record::query::{Query, QueryExt, QueryOptions};

const SUBFIELD_CODES: &str = "0123456789\
    abcdefghijklmnopqrstuvwxyzABCDEFGHIJKLMNOPQRSTUVWXYZ";

/// The codes an exists matcher on the code list accepts.
fn accepted(codes: &str) -> String {
    let matcher = ExistsMatcher::new(&format!("{codes}?")).unwrap();
    let options = MatcherOptions::default();
    SUBFIELD_CODES
        .chars()
        .filter(|c| matcher.is_match(&[SubfieldRef::new(*c, "x").unwrap()], &options))
        .collect()
}

/// The bytes of a quoted string, read as a query literal.
fn literal(input: &str) -> Vec<u8> {
    let record = RecordRef::from_bytes(b"003@ \x1f01\x1e\n").unwrap();
    let query = Query::new(input).unwrap();
    let mut rows = record.query(&query, &QueryOptions::new()).into_inner();
    rows.remove(0).remove(0)
}

#[test]
fn operator_test_parse_relational_operator() {
    let cases = [
        ("==", RelationalOp::Eq),
        ("!=", RelationalOp::Ne),
        (">=", RelationalOp::Ge),
        (">", RelationalOp::Gt),
        ("<=", RelationalOp::Le),
        ("<", RelationalOp::Lt),
        ("=^", RelationalOp::StartsWith),
        ("!^", RelationalOp::StartsNotWith),
        ("=$", RelationalOp::EndsWith),
        ("!$", RelationalOp::EndsNotWith),
        ("=*", RelationalOp::Similar),
        ("=?", RelationalOp::Contains),
    ];
    for (input, expected) in cases {
        let (op, end) = parse_relational_operator(input.as_bytes(), 0).unwrap();
        assert_eq!(op, expected);
        assert_eq!(end, input.len());
    }
}

#[test]
fn parser_test_parse_subfield_code_range() {
    assert_eq!(accepted("[a-b]"), "ab");
    assert_eq!(accepted("[a-c]"), "abc");
    assert_eq!(accepted("[a-z]"), "abcdefghijklmnopqrstuvwxyz");
    assert_eq!(accepted("[0-9]"), "0123456789");
    assert_eq!(accepted("[A-Z]"), "ABCDEFGHIJKLMNOPQRSTUVWXYZ");
    assert!(ExistsMatcher::new("[a-a]?").is_err());
    assert!(ExistsMatcher::new("[a-!]?").is_err());
    assert!(ExistsMatcher::new("[c-a]?").is_err());
}

#[test]
fn parser_test_parse_subfield_code_list() {
    assert_eq!(accepted("[ab]"), "ab");
    assert_eq!(accepted("[abc]"), "abc");
    assert_eq!(accepted("[a-z]"), "abcdefghijklmnopqrstuvwxyz");
    assert_eq!(accepted("[0-9]"), "0123456789");
    assert_eq!(accepted("[A-Z]"), "ABCDEFGHIJKLMNOPQRSTUVWXYZ");
    assert_eq!(accepted("[0a-cz]"), "0abcz");
    assert!(ExistsMatcher::new("[ab!]?").is_err());
    assert!(ExistsMatcher::new("[a-a]?").is_err());
    assert!(ExistsMatcher::new("[a-!]?").is_err());
    assert!(ExistsMatcher::new("[c-a]?").is_err());
}

#[test]
fn parser_test_parse_subfield_code_all() {
    assert_eq!(accepted("*"), SUBFIELD_CODES);
}

#[test]
fn parser_test_parse_string_single_quoted() {
    assert_eq!(literal("'abc'"), b"abc");
    assert_eq!(literal("'a\\nbc'"), b"a\nbc");
    assert_eq!(literal("'a\\rbc'"), b"a\rbc");
    assert_eq!(literal("'a\\tbc'"), b"a\tbc");
    assert_eq!(literal("'a\\bbc'"), b"a\x08bc");
    assert_eq!(literal("'a\\fbc'"), b"a\x0Cbc");
    assert_eq!(literal("'a\\\\c'"), b"a\\c");
    assert_eq!(literal("'a\\'c'"), b"a\'c");
    assert_eq!(literal("'a\"c'"), b"a\"c");
    assert_eq!(literal("'a\\/bc'"), b"a/bc");
    assert_eq!(literal("'a\\ bc'"), b"abc");
}

#[test]
fn parser_test_parse_string_double_quoted() {
    assert_eq!(literal("\"abc\""), b"abc");
    assert_eq!(literal("\"a\\nbc\""), b"a\nbc");
    assert_eq!(literal("\"a\\rbc\""), b"a\rbc");
    assert_eq!(literal("\"a\\tbc\""), b"a\tbc");
    assert_eq!(literal("\"a\\bbc\""), b"a\x08bc");
    assert_eq!(literal("\"a\\fbc\""), b"a\x0Cbc");
    assert_eq!(literal("\"a\\\\c\""), b"a\\c");
    assert_eq!(literal("\"a'c\""), b"a'c");
    assert_eq!(literal("\"a\\/bc\""), b"a/bc");
    assert_eq!(literal("\"a\\ bc\""), b"abc");
}

#[test]
fn test_parse_subfield_code() {
    for code in u8::MIN..=u8::MAX {
        let result = pica_record::primitives::SubfieldCode::new(code as char);
        if !code.is_ascii_alphanumeric() {
            assert!(result.is_err());
        } else {
            assert_eq!(result.unwrap().as_byte(), code);
        }
    }
}

#[test]
fn test_parse_invalid_byte_seq() {

    let input: [u8; 31] = [
        39, 255, 255, 255, 255, 255, 255, 255, 255, 255, 255, 255, 255, 255, 255, 255, 255, 255,
        255, 255, 255, 255, 255, 255, 255, 255, 61, 92, 92, 4, 39,
    ];
    assert!(parse_string(&input, 0).is_none());
}
