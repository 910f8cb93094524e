use pica_record::fmt::parser::{parse_and_then, parse_cons, parse_group, parse_modifier, parse_value};
use pica_record::fmt::{Fragments, Group, Modifier, Value};
use pica_record::primitives::SubfieldCode;

fn none() -> Modifier {
    Modifier::none()
}

fn value(code: char, bounds: usize, prefix: Option<&str>, suffix: Option<&str>) -> Value {
    Value {
        codes: vec![SubfieldCode::new(code).unwrap()],
        prefix: prefix.map(|p| p.as_bytes().to_vec()),
        suffix: suffix.map(|s| s.as_bytes().to_vec()),
        bounds,
        modifier: none(),
    }
}

fn single(code: char) -> Fragments {
    Fragments::Value(value(code, 1, None, None))
}

fn whole_modifier(input: &[u8]) -> Modifier {
    let (m, end) = parse_modifier(input, 0);
    assert_eq!(end, input.len());
    m
}

fn whole_value(input: &[u8]) -> Value {
    let (v, end) = parse_value(input, 0).unwrap();
    assert_eq!(end, input.len());
    v
}

fn check_modifiers(with_strip: bool) {
    if with_strip {
        assert_eq!(whole_modifier(b"?o"), Modifier { strip_overread_char: true, ..none() });
    }
    assert_eq!(whole_modifier(b"?l"), Modifier { lowercase: true, ..none() });
    assert_eq!(whole_modifier(b"?u"), Modifier { uppercase: true, ..none() });
    assert_eq!(whole_modifier(b"?w"), Modifier { remove_ws: true, ..none() });
    assert_eq!(whole_modifier(b"?t"), Modifier { trim: true, ..none() });
    let all = Modifier {
        strip_overread_char: with_strip,
        lowercase: true,
        uppercase: true,
        remove_ws: true,
        trim: true,
    };
    if with_strip {
        assert_eq!(whole_modifier(b"?luwto"), all);
        assert_eq!(whole_modifier(b"?luwtoluwto"), all);
    } else {
        assert_eq!(whole_modifier(b"?luwt"), all);
        assert_eq!(whole_modifier(b"?luwtluwt"), all);
    }
}

fn check_values() {
    assert_eq!(whole_value(b"a"), value('a', 1, None, None));
    assert_eq!(whole_value(b"a..2"), value('a', 2, None, None));
    assert_eq!(whole_value(b"a.."), value('a', usize::MAX, None, None));
    assert_eq!(whole_value(b"a..2 'def'"), value('a', 2, None, Some("def")));
    assert_eq!(whole_value(b"'abc' a..2 'def'"), value('a', 2, Some("abc"), Some("def")));
}

fn check_group() {
    let input = b"(a)";
    let (g, end) = parse_group(input, 0, &mut 0).unwrap();
    assert_eq!(end, input.len());
    assert_eq!(
        g,
        Fragments::Group(Group { fragments: Box::new(single('a')), bounds: usize::MAX, modifier: none() })
    );
}

fn group_of(inner: Fragments) -> Fragments {
    Fragments::Group(Group { fragments: Box::new(inner), bounds: usize::MAX, modifier: none() })
}

fn check_cons() {
    let (l, _) = parse_cons(b"a <*> b", 0, &mut 0).unwrap();
    assert_eq!(l, Fragments::Cons(vec![single('a'), single('b')]));
    let (l, _) = parse_cons(b"a <*> b <*> c", 0, &mut 0).unwrap();
    assert_eq!(l, Fragments::Cons(vec![single('a'), single('b'), single('c')]));
    let (l, _) = parse_cons(b"a <*> (b <*> c)", 0, &mut 0).unwrap();
    assert_eq!(
        l,
        Fragments::Cons(vec![single('a'), group_of(Fragments::Cons(vec![single('b'), single('c')]))])
    );
}

fn check_and_then() {
    let (l, _) = parse_and_then(b"a <$> b", 0, &mut 0).unwrap();
    assert_eq!(l, Fragments::AndThen(vec![single('a'), single('b')]));
    let (l, _) = parse_and_then(b"a <$> (b <*> c)", 0, &mut 0).unwrap();
    assert_eq!(
        l,
        Fragments::AndThen(vec![single('a'), group_of(Fragments::Cons(vec![single('b'), single('c')]))])
    );
}

#[test]
fn parser_test_parse_modifier() {
    check_modifiers(true);
}

#[test]
fn fmt_test_parse_modifier() {
    check_modifiers(false);
}

#[test]
fn parser_test_parse_value() {
    check_values();
}

#[test]
fn fmt_test_parse_value() {
    check_values();
}

#[test]
fn parser_test_parse_group() {
    check_group();
}

#[test]
fn fmt_test_parse_group() {
    check_group();
}

#[test]
fn parser_test_parse_list_cons() {
    check_cons();
}

#[test]
fn fmt_test_parse_list_cons() {
    check_cons();
}

#[test]
fn parser_test_parse_list_and_then() {
    check_and_then();
}

#[test]
fn fmt_test_parse_list_and_then() {
    check_and_then();
}
