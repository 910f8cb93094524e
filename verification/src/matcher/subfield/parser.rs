//! Reading subfield matchers from their text.
use vstd::prelude::*;
use vstd::string::{StrSliceExecFns, StringSliceAdditionalSpecFns};
use vstd::utf8::{decode_utf8, encode_scalar};

use super::{
    codes_from_bytes, value_views, CardinalityMatcher, CardinalitySpec, ContainsMatcher,
    ContainsSpec, ExistsMatcher, InMatcher, InSpec, RegexMatcher, RegexSetMatcher, RegexSetSpec, RegexSpec, RelationMatcher,
    RelationSpec, SingletonMatcher, SubfieldMatcher,
};
use crate::matcher::error::invalid_message;
use crate::matcher::{BooleanOp, ParseMatcherError};
use crate::matcher::operator::{
    op_at, parse_relational_operator, str_applicable, text_at, usize_applicable,
};
use crate::matcher::quantifier::{parse_quantifier, quantifier_at};
use crate::matcher::Quantifier;
use crate::parser::{
    byte_at, byte_is, codes_at, is_space, is_space_byte, lemma_skip_ws, lemma_skip_ws_mono, parse_codes, parse_string,
    skip_ws, skip_ws_at, string_at,
};
use crate::primitives::model::{is_digit, is_subfield_code};
use crate::primitives::parse::slice_range;
use crate::primitives::subfield::copy_bytes;
use crate::text::{
    build_regex, build_regex_set, char_utf8, lossy_chars, regex_builds, regex_set_builds,
    string_from_utf8, string_views, to_str_lossy,
};

verus! {

/// The text read from `s` to `e`, invalid UTF-8 replaced.
pub open spec fn raw_chars(b: Seq<u8>, s: int, e: int) -> Seq<char> {
    lossy_chars(b.subrange(s, e))
}

/// The end of the text from `s` to `e` once white space at its end is cut.
pub open spec fn trim_end(b: Seq<u8>, s: int, e: int) -> int
    decreases e - s,
{
    if s < e && is_space(b[e - 1]) {
        trim_end(b, s, e - 1)
    } else {
        e
    }
}

/// An optional quantifier followed by white space, after optional white
/// space; `ANY` where there is none.
pub open spec fn quant_space_at(b: Seq<u8>, i: int) -> (Quantifier, int) {
    match quantifier_at(b, skip_ws(b, i)) {
        Some((q, e)) => if 0 <= e < b.len() && is_space(b[e]) {
            (q, skip_ws(b, e))
        } else {
            (Quantifier::Any, i)
        },
        None => (Quantifier::Any, i),
    }
}

/// An optional quantifier between optional white space; `ANY` where there
/// is none.
pub open spec fn quant_at(b: Seq<u8>, i: int) -> (Quantifier, int) {
    match quantifier_at(b, skip_ws(b, i)) {
        Some((q, e)) => (q, skip_ws(b, e)),
        None => (Quantifier::Any, i),
    }
}

/// Subfield codes between optional white space.
pub open spec fn ws_codes_at(b: Seq<u8>, i: int) -> Option<(Seq<u8>, int)> {
    match codes_at(b, skip_ws(b, i)) {
        Some((c, e)) => Some((c, skip_ws(b, e))),
        None => None,
    }
}

/// An exists matcher at `i`: subfield codes and `?`.
pub open spec fn exists_at(b: Seq<u8>, i: int) -> Option<(Seq<u8>, int)> {
    match codes_at(b, i) {
        Some((c, e)) => if byte_at(b, e, 0x3f) {
            Some((c, e + 1))
        } else {
            None
        },
        None => None,
    }
}

/// A relation matcher at `i`: an optional quantifier, subfield codes, an
/// operator that applies to strings and a string, with white space
/// between and around them.
pub open spec fn relation_at(b: Seq<u8>, i: int) -> Option<(RelationSpec, int)> {
    let (q, p1) = quant_space_at(b, i);
    match ws_codes_at(b, p1) {
        Some((codes, p2)) => match op_at(b, skip_ws(b, p2)) {
            Some((op, e)) => if str_applicable(op) {
                match string_at(b, skip_ws(b, e)) {
                    Some((v, e2)) => Some(
                        (RelationSpec { quantifier: q, codes, op, value: v }, skip_ws(b, e2)),
                    ),
                    None => None,
                }
            } else {
                None
            },
            None => None,
        },
        None => None,
    }
}

/// The text of a relation matcher read from `i` to `e`, without the white
/// space around it.
pub open spec fn relation_raw(b: Seq<u8>, i: int, e: int) -> Seq<char> {
    raw_chars(b, skip_ws(b, i), trim_end(b, skip_ws(b, i), e))
}

/// `=~` (not inverted) or `!~` (inverted) at `i`.
pub open spec fn regex_op_at(b: Seq<u8>, i: int) -> Option<(bool, int)> {
    if byte_at(b, i, 0x3d) && byte_at(b, i + 1, 0x7e) {
        Some((false, i + 2))
    } else if byte_at(b, i, 0x21) && byte_at(b, i + 1, 0x7e) {
        Some((true, i + 2))
    } else {
        None
    }
}

/// The pattern of a string, which builds with either case setting.
pub open spec fn pattern_ok(s: Seq<u8>) -> bool {
    regex_builds(decode_utf8(s), false) && regex_builds(decode_utf8(s), true)
}

/// A regex matcher at `i`: an optional quantifier, subfield codes, `=~` or
/// `!~` and a string whose pattern builds.
pub open spec fn regex_at(b: Seq<u8>, i: int) -> Option<(RegexSpec, int)> {
    let (q, p1) = quant_at(b, i);
    match ws_codes_at(b, p1) {
        Some((codes, p2)) => match regex_op_at(b, skip_ws(b, p2)) {
            Some((invert, e)) => match string_at(b, skip_ws(b, e)) {
                Some((s, e2)) => if pattern_ok(s) {
                    Some(
                        (
                            RegexSpec { quantifier: q, codes, regex: decode_utf8(s), invert },
                            e2,
                        ),
                    )
                } else {
                    None
                },
                None => None,
            },
            None => None,
        },
        None => None,
    }
}

/// The rest of a list of strings after its first item: `,` and a string,
/// as often as they follow, then `]`, with white space around the commas
/// and the bracket.
pub open spec fn strings_rest(b: Seq<u8>, i: int) -> Option<(Seq<Seq<u8>>, int)>
    decreases b.len() - i,
{
    let p = skip_ws(b, i);
    if byte_at(b, p, 0x2c) {
        match string_at(b, skip_ws(b, p + 1)) {
            Some((s, e)) => if i < e <= b.len() {
                match strings_rest(b, e) {
                    Some((rest, k)) => Some((seq![s] + rest, k)),
                    None => None,
                }
            } else {
                None
            },
            None => None,
        }
    } else if byte_at(b, p, 0x5d) {
        Some((Seq::empty(), skip_ws(b, p + 1)))
    } else {
        None
    }
}

/// A list of at least one string in brackets, with white space around the
/// brackets and commas.
pub open spec fn strings_at(b: Seq<u8>, i: int) -> Option<(Seq<Seq<u8>>, int)> {
    let p = skip_ws(b, i);
    if byte_at(b, p, 0x5b) {
        match string_at(b, skip_ws(b, p + 1)) {
            Some((s, e)) => match strings_rest(b, e) {
                Some((rest, k)) => Some((seq![s] + rest, k)),
                None => None,
            },
            None => None,
        }
    } else {
        None
    }
}

/// The patterns of the strings.
pub open spec fn patterns_of(v: Seq<Seq<u8>>) -> Seq<Seq<char>> {
    v.map_values(|s: Seq<u8>| decode_utf8(s))
}

/// Each pattern builds, and the set of them builds with either case
/// setting.
pub open spec fn patterns_ok(v: Seq<Seq<u8>>) -> bool {
    &&& forall|k: int| 0 <= k < v.len() ==> regex_builds(#[trigger] decode_utf8(v[k]), false)
    &&& regex_set_builds(patterns_of(v), false)
    &&& regex_set_builds(patterns_of(v), true)
}

/// A regex-set matcher at `i`: an optional quantifier, subfield codes, `=~`
/// or `!~` and a list of strings whose patterns build.
pub open spec fn regex_set_at(b: Seq<u8>, i: int) -> Option<(RegexSetSpec, int)> {
    let (q, p1) = quant_at(b, i);
    match ws_codes_at(b, p1) {
        Some((codes, p2)) => match regex_op_at(b, skip_ws(b, p2)) {
            Some((invert, e)) => match strings_at(b, skip_ws(b, e)) {
                Some((v, e2)) => if patterns_ok(v) {
                    Some(
                        (
                            RegexSetSpec { quantifier: q, codes, regex: patterns_of(v), invert },
                            e2,
                        ),
                    )
                } else {
                    None
                },
                None => None,
            },
            None => None,
        },
        None => None,
    }
}

/// The UTF-8 encoding of each char.
pub open spec fn char_encodings(s: Seq<char>) -> Seq<Seq<u8>> {
    s.map_values(|c: char| encode_scalar(c as u32))
}

/// The values of an in-matcher after `in`: a list of strings, or a string
/// of more than one char whose chars are the values.
pub open spec fn in_values_at(b: Seq<u8>, i: int) -> Option<(Seq<Seq<u8>>, int)> {
    match strings_at(b, i) {
        Some((v, e)) => Some((v, e)),
        None => match string_at(b, i) {
            Some((s, e)) => if decode_utf8(s).len() > 1 {
                Some((char_encodings(decode_utf8(s)), e))
            } else {
                None
            },
            None => None,
        },
    }
}

/// An in-matcher at `i`: an optional quantifier, subfield codes, an
/// optional `not`, `in` and its values.
pub open spec fn in_at(b: Seq<u8>, i: int) -> Option<(InSpec, int)> {
    let (q, p1) = quant_at(b, i);
    match ws_codes_at(b, p1) {
        Some((codes, p2)) => {
            let p3 = skip_ws(b, p2);
            let (invert, p4) = if text_at(b, p3, seq![0x6eu8, 0x6fu8, 0x74u8]) {
                (true, skip_ws(b, p3 + 3))
            } else {
                (false, p2)
            };
            let p5 = skip_ws(b, p4);
            if text_at(b, p5, seq![0x69u8, 0x6eu8]) {
                match in_values_at(b, skip_ws(b, p5 + 2)) {
                    Some((v, e)) => Some((InSpec { quantifier: q, codes, values: v, invert }, e)),
                    None => None,
                }
            } else {
                None
            }
        },
        None => None,
    }
}

/// A contains-matcher at `i`: an optional quantifier, subfield codes, `=?`
/// and a list of strings or one string, with white space between and
/// around them.
pub open spec fn contains_at(b: Seq<u8>, i: int) -> Option<(ContainsSpec, int)> {
    let (q, p1) = quant_at(b, i);
    match ws_codes_at(b, p1) {
        Some((codes, p2)) => {
            let p3 = skip_ws(b, p2);
            if text_at(b, p3, seq![0x3du8, 0x3fu8]) {
                let p4 = skip_ws(b, p3 + 2);
                match strings_at(b, p4) {
                    Some((v, e)) => Some((ContainsSpec { quantifier: q, codes, values: v }, e)),
                    None => match string_at(b, p4) {
                        Some((s, e)) => Some(
                            (ContainsSpec { quantifier: q, codes, values: seq![s] }, skip_ws(b, e)),
                        ),
                        None => None,
                    },
                }
            } else {
                None
            }
        },
        None => None,
    }
}

/// The first position from `i` on that does not hold a digit.
pub open spec fn digits_end(b: Seq<u8>, i: int) -> int
    decreases b.len() - i,
{
    if 0 <= i < b.len() && is_digit(b[i]) {
        digits_end(b, i + 1)
    } else {
        i
    }
}

/// The number that the decimal digits stand for.
pub open spec fn digits_value(s: Seq<u8>) -> nat
    decreases s.len(),
{
    if s.len() == 0 {
        0
    } else {
        digits_value(s.drop_last()) * 10 + (s.last() - 0x30) as nat
    }
}

/// A cardinality matcher at `i`: `#`, a subfield code, an operator that
/// applies to numbers and a number that fits in a `usize`, with white space
/// between and before them.
pub open spec fn cardinality_at(b: Seq<u8>, i: int) -> Option<(CardinalitySpec, int)> {
    let p = skip_ws(b, i);
    if byte_at(b, p, 0x23) {
        let c = skip_ws(b, p + 1);
        if 0 <= c < b.len() && is_subfield_code(b[c]) {
            match op_at(b, skip_ws(b, c + 1)) {
                Some((op, e)) => {
                    let d = skip_ws(b, e);
                    let de = digits_end(b, d);
                    if usize_applicable(op) && de > d && digits_value(b.subrange(d, de))
                        <= usize::MAX {
                        Some(
                            (
                                CardinalitySpec {
                                    code: b[c],
                                    op,
                                    value: digits_value(b.subrange(d, de)) as usize,
                                },
                                de,
                            ),
                        )
                    } else {
                        None
                    }
                },
                None => None,
            }
        } else {
            None
        }
    } else {
        None
    }
}

// ----------------------------------------------------------------------
// Reading the parts
// ----------------------------------------------------------------------

/// The text read from `s` to `e`.
pub(crate) fn raw_text_of(b: &[u8], s: usize, e: usize) -> (r: String)
    requires
        s <= e <= b@.len(),
    ensures
        r@ == raw_chars(b@, s as int, e as int),
{
    to_str_lossy(slice_range(b, s, e))
}

/// Cuts white space at the end of the text from `s` to `e`.
pub(crate) fn trim_end_at(b: &[u8], s: usize, e: usize) -> (r: usize)
    requires
        s <= e <= b@.len(),
    ensures
        r == trim_end(b@, s as int, e as int),
        s <= r <= e,
{
    let mut k = e;
    while k > s && is_space_byte(b[k - 1])
        invariant
            s <= k <= e,
            e <= b@.len(),
            trim_end(b@, s as int, e as int) == trim_end(b@, s as int, k as int),
        decreases k,
    {
        k = k - 1;
    }
    k
}

fn parse_quant_space(b: &[u8], i: usize) -> (r: (Quantifier, usize))
    requires
        i <= b@.len(),
    ensures
        r.0 == quant_space_at(b@, i as int).0,
        r.1 == quant_space_at(b@, i as int).1,
        i <= r.1 <= b@.len(),
{
    let p = skip_ws_at(b, i);
    match parse_quantifier(b, p) {
        Some((q, e)) => {
            if e < b.len() && is_space_byte(b[e]) {
                proof {
                    lemma_skip_ws(b@, e as int);
                }
                (q, skip_ws_at(b, e))
            } else {
                (Quantifier::Any, i)
            }
        },
        None => (Quantifier::Any, i),
    }
}

fn parse_quant(b: &[u8], i: usize) -> (r: (Quantifier, usize))
    requires
        i <= b@.len(),
    ensures
        r.0 == quant_at(b@, i as int).0,
        r.1 == quant_at(b@, i as int).1,
        i <= r.1 <= b@.len(),
{
    let p = skip_ws_at(b, i);
    match parse_quantifier(b, p) {
        Some((q, e)) => (q, skip_ws_at(b, e)),
        None => (Quantifier::Any, i),
    }
}

fn parse_ws_codes(b: &[u8], i: usize) -> (r: Option<(Vec<u8>, usize)>)
    requires
        i <= b@.len(),
    ensures
        match ws_codes_at(b@, i as int) {
            Some((c, e)) => r matches Some((v, k)) && v@ == c && k == e && k <= b@.len()
                && skip_ws(b@, i as int) < k,
            None => r is None,
        },
{
    let p = skip_ws_at(b, i);
    match parse_codes(b, p) {
        Some((v, e)) => {
            proof {
                lemma_codes_end(b@, p as int);
                lemma_skip_ws(b@, e as int);
            }
            Some((v, skip_ws_at(b, e)))
        },
        None => None,
    }
}

/// Codes end within the bytes.
pub(crate) proof fn lemma_codes_end(b: Seq<u8>, i: int)
    requires
        0 <= i,
    ensures
        codes_at(b, i) matches Some((c, e)) ==> i < e <= b.len(),
{
    if byte_at(b, i, 0x5b) {
        if let Some((first, j)) = crate::parser::code_item(b, i + 1) {
            lemma_code_items_end(b, j);
        }
    }
}

proof fn lemma_code_items_end(b: Seq<u8>, i: int)
    requires
        0 <= i <= b.len(),
    ensures
        i <= crate::parser::code_items(b, i).1 <= b.len(),
    decreases b.len() - i,
{
    if let Some((s, j)) = crate::parser::code_item(b, i) {
        if j > i {
            lemma_code_items_end(b, j);
        }
    }
}

/// Strings end within the bytes.
pub(crate) proof fn lemma_string_end(b: Seq<u8>, i: int)
    requires
        0 <= i,
    ensures
        string_at(b, i) matches Some((s, e)) ==> i < e <= b.len(),
{
    if byte_at(b, i, 0x27) {
        lemma_quoted_end(b, i + 1, 0x27);
    } else if byte_at(b, i, 0x22) {
        lemma_quoted_end(b, i + 1, 0x22);
    }
}

proof fn lemma_quoted_end(b: Seq<u8>, i: int, q: u8)
    requires
        0 <= i,
    ensures
        crate::parser::quoted_rest(b, i, q) matches Some((s, e)) ==> i < e <= b.len(),
    decreases b.len() - i,
{
    if 0 <= i < b.len() && b[i] != q {
        if b[i] == 0x5c {
            if i + 1 < b.len() && crate::parser::escape_byte(b[i + 1], q) is Some {
                lemma_quoted_end(b, i + 2, q);
            } else if i + 1 < b.len() && is_space(b[i + 1]) {
                lemma_skip_ws(b, i + 1);
                lemma_quoted_end(b, skip_ws(b, i + 1), q);
            }
        } else {
            lemma_quoted_end(b, i + 1, q);
        }
    }
}

/// Reads an exists matcher at `i`.
pub(crate) fn parse_exists(b: &[u8], i: usize) -> (r: Option<(ExistsMatcher, usize)>)
    requires
        i <= b@.len(),
    ensures
        r matches Some((m, k)) ==> i <= k <= b@.len(),
        match exists_at(b@, i as int) {
            Some((c, e)) => r matches Some((m, k)) && m@ == c && k == e && m.raw_text()
                == raw_chars(b@, i as int, e),
            None => r is None,
        },
{
    match parse_codes(b, i) {
        Some((v, e)) => {
            if byte_is(b, e, 0x3f) {
                proof {
                    lemma_codes_end(b@, i as int);
                }
                let raw = raw_text_of(b, i, e + 1);
                Some((ExistsMatcher::from_parts(codes_from_bytes(v.as_slice()), raw), e + 1))
            } else {
                None
            }
        },
        None => None,
    }
}

/// Reads a relation matcher at `i`.
pub(crate) fn parse_relation(b: &[u8], i: usize) -> (r: Option<(RelationMatcher, usize)>)
    requires
        i <= b@.len(),
    ensures
        r matches Some((m, k)) ==> i <= k <= b@.len(),
        match relation_at(b@, i as int) {
            Some((spec, e)) => r matches Some((m, k)) && m@ == spec && k == e && m.raw_text()
                == relation_raw(b@, i as int, e),
            None => r is None,
        },
{
    let (q, p1) = parse_quant_space(b, i);
    let (codes, p2) = match parse_ws_codes(b, p1) {
        Some(x) => x,
        None => return None,
    };
    let p3 = skip_ws_at(b, p2);
    let (op, e) = match parse_relational_operator(b, p3) {
        Some(x) => x,
        None => return None,
    };
    if !op.is_str_applicable() {
        return None;
    }
    proof {
        assert(e <= b@.len());
    }
    let p4 = skip_ws_at(b, e);
    let (value, e2) = match parse_string(b, p4) {
        Some(x) => x,
        None => return None,
    };
    proof {
        lemma_string_end(b@, p4 as int);
    }
    let end = skip_ws_at(b, e2);
    proof {
        lemma_skip_ws(b@, e2 as int);
        lemma_skip_ws(b@, e as int);
        lemma_skip_ws(b@, p2 as int);
        lemma_skip_ws_mono(b@, i as int, p1 as int);
    }
    let s = skip_ws_at(b, i);
    let t = trim_end_at(b, s, end);
    let raw = raw_text_of(b, s, t);
    Some((RelationMatcher::from_parts(q, codes_from_bytes(codes.as_slice()), op, value, raw), end))
}


/// Tells whether the pattern builds with the case setting.
fn regex_is_valid(pattern: &str, case_insensitive: bool) -> (r: bool)
    ensures
        r == regex_builds(pattern@, case_insensitive),
{
    build_regex(pattern, case_insensitive).is_some()
}

/// Tells whether the patterns build as a set with the case setting.
fn regex_set_is_valid(patterns: &[String], case_insensitive: bool) -> (r: bool)
    ensures
        r == regex_set_builds(string_views(patterns@), case_insensitive),
{
    build_regex_set(patterns, case_insensitive).is_some()
}

fn parse_regex_op(b: &[u8], i: usize) -> (r: Option<(bool, usize)>)
    ensures
        match regex_op_at(b@, i as int) {
            Some((v, e)) => r matches Some((w, k)) && w == v && k == e && k <= b@.len(),
            None => r is None,
        },
{
    if byte_is(b, i, 0x3d) && byte_is(b, i + 1, 0x7e) {
        Some((false, i + 2))
    } else if byte_is(b, i, 0x21) && byte_is(b, i + 1, 0x7e) {
        Some((true, i + 2))
    } else {
        None
    }
}

/// Reads a regex matcher at `i`.
pub(crate) fn parse_regex(b: &[u8], i: usize) -> (r: Option<(RegexMatcher, usize)>)
    requires
        i <= b@.len(),
    ensures
        r matches Some((m, k)) ==> i <= k <= b@.len(),
        match regex_at(b@, i as int) {
            Some((spec, e)) => r matches Some((m, k)) && m@ == spec && k == e && m.raw_text()
                == raw_chars(b@, i as int, e),
            None => r is None,
        },
{
    let (q, p1) = parse_quant(b, i);
    let (codes, p2) = match parse_ws_codes(b, p1) {
        Some(x) => x,
        None => return None,
    };
    let p3 = skip_ws_at(b, p2);
    let (invert, e) = match parse_regex_op(b, p3) {
        Some(x) => x,
        None => return None,
    };
    let p4 = skip_ws_at(b, e);
    let (bytes, e2) = match parse_string(b, p4) {
        Some(x) => x,
        None => return None,
    };
    proof {
        lemma_string_end(b@, p4 as int);
    }
    let ghost sb = bytes@;
    let pattern = match string_from_utf8(bytes) {
        Some(p) => p,
        None => return None,
    };
    if !(regex_is_valid(pattern.as_str(), false) && regex_is_valid(pattern.as_str(), true)) {
        return None;
    }
    proof {
        lemma_skip_ws(b@, p1 as int);
        lemma_skip_ws(b@, p2 as int);
        lemma_skip_ws(b@, e as int);
    }
    let raw = raw_text_of(b, i, e2);
    Some((RegexMatcher::from_parts(q, codes_from_bytes(codes.as_slice()), pattern, invert, raw), e2))
}

/// Reads the rest of a list of strings after its first item.
fn parse_strings_rest(b: &[u8], i: usize) -> (r: Option<(Vec<Vec<u8>>, usize)>)
    requires
        i <= b@.len(),
    ensures
        match strings_rest(b@, i as int) {
            Some((v, e)) => r matches Some((w, k)) && value_views(w@) == v && k == e && k <= b@.len()
                && i <= k,
            None => r is None,
        },
    decreases b@.len() - i,
{
    let p = skip_ws_at(b, i);
    if byte_is(b, p, 0x2c) {
        let q = skip_ws_at(b, p + 1);
        match parse_string(b, q) {
            Some((s, e)) => {
                proof {
                    lemma_string_end(b@, q as int);
                    lemma_skip_ws(b@, i as int);
                    lemma_skip_ws(b@, p + 1);
                }
                match parse_strings_rest(b, e) {
                    Some((rest, k)) => {
                        let mut out: Vec<Vec<u8>> = Vec::new();
                        let ghost sv = s@;
                        out.push(s);
                        let mut rest = rest;
                        out.append(&mut rest);
                        assert(value_views(out@) =~= seq![sv] + strings_rest(b@, e as int).unwrap().0);
                        Some((out, k))
                    },
                    None => None,
                }
            },
            None => None,
        }
    } else if byte_is(b, p, 0x5d) {
        proof {
            lemma_skip_ws(b@, p + 1);
        }
        let out: Vec<Vec<u8>> = Vec::new();
        assert(value_views(out@) =~= Seq::<Seq<u8>>::empty());
        Some((out, skip_ws_at(b, p + 1)))
    } else {
        None
    }
}

/// Reads a list of strings in brackets at `i`.
fn parse_strings(b: &[u8], i: usize) -> (r: Option<(Vec<Vec<u8>>, usize)>)
    requires
        i <= b@.len(),
    ensures
        match strings_at(b@, i as int) {
            Some((v, e)) => r matches Some((w, k)) && value_views(w@) == v && k == e && k <= b@.len()
                && i < k,
            None => r is None,
        },
{
    let p = skip_ws_at(b, i);
    if byte_is(b, p, 0x5b) {
        let q = skip_ws_at(b, p + 1);
        match parse_string(b, q) {
            Some((s, e)) => {
                proof {
                    lemma_string_end(b@, q as int);
                    lemma_skip_ws(b@, p + 1);
                }
                match parse_strings_rest(b, e) {
                    Some((rest, k)) => {
                        let mut out: Vec<Vec<u8>> = Vec::new();
                        let ghost sv = s@;
                        out.push(s);
                        let mut rest = rest;
                        out.append(&mut rest);
                        assert(value_views(out@) =~= seq![sv] + strings_rest(b@, e as int).unwrap().0);
                        Some((out, k))
                    },
                    None => None,
                }
            },
            None => None,
        }
    } else {
        None
    }
}

/// The patterns of the strings, which are valid UTF-8.
fn patterns_from(v: &Vec<Vec<u8>>) -> (r: Option<Vec<String>>)
    ensures
        r is Some <==> (forall|k: int| 0 <= k < v@.len() ==> vstd::utf8::valid_utf8(#[trigger] v@[k]@)),
        r matches Some(w) ==> string_views(w@) == patterns_of(value_views(v@)),
{
    let mut out: Vec<String> = Vec::new();
    let mut i: usize = 0;
    while i < v.len()
        invariant
            0 <= i <= v@.len(),
            out@.len() == i,
            forall|k: int| 0 <= k < i ==> vstd::utf8::valid_utf8(#[trigger] v@[k]@),
            forall|k: int| 0 <= k < i ==> (#[trigger] out@[k])@ == decode_utf8(v@[k]@),
        decreases v@.len() - i,
    {
        match string_from_utf8(copy_bytes(v[i].as_slice())) {
            Some(s) => out.push(s),
            None => return None,
        }
        i = i + 1;
    }
    assert(string_views(out@) =~= patterns_of(value_views(v@)));
    Some(out)
}

/// Tells whether each pattern builds case-sensitively.
fn each_pattern_valid(patterns: &Vec<String>) -> (r: bool)
    ensures
        r == forall|k: int| 0 <= k < patterns@.len() ==> regex_builds(#[trigger] patterns@[k]@, false),
{
    let mut k: usize = 0;
    while k < patterns.len()
        invariant
            0 <= k <= patterns@.len(),
            forall|j: int| 0 <= j < k ==> regex_builds(#[trigger] patterns@[j]@, false),
        decreases patterns@.len() - k,
    {
        if !regex_is_valid(patterns[k].as_str(), false) {
            return false;
        }
        k = k + 1;
    }
    true
}

/// Reads a regex-set matcher at `i`.
pub(crate) fn parse_regex_set(b: &[u8], i: usize) -> (r: Option<(RegexSetMatcher, usize)>)
    requires
        i <= b@.len(),
    ensures
        r matches Some((m, k)) ==> i <= k <= b@.len(),
        match regex_set_at(b@, i as int) {
            Some((spec, e)) => r matches Some((m, k)) && m@ == spec && k == e && m.raw_text()
                == raw_chars(b@, i as int, e),
            None => r is None,
        },
{
    let (q, p1) = parse_quant(b, i);
    let (codes, p2) = match parse_ws_codes(b, p1) {
        Some(x) => x,
        None => return None,
    };
    let p3 = skip_ws_at(b, p2);
    let (invert, e) = match parse_regex_op(b, p3) {
        Some(x) => x,
        None => return None,
    };
    let p4 = skip_ws_at(b, e);
    let (strings, e2) = match parse_strings(b, p4) {
        Some(x) => x,
        None => return None,
    };
    let ghost sv = value_views(strings@);
    proof {
        lemma_strings_utf8(b@, p4 as int);
        assert forall|k: int| 0 <= k < strings@.len() implies vstd::utf8::valid_utf8(
            #[trigger] strings@[k]@,
        ) by {
            assert(sv[k] == strings@[k]@);
        }
    }
    let patterns = match patterns_from(&strings) {
        Some(p) => p,
        None => return None,
    };
    assert(string_views(patterns@).len() == patterns@.len());
    if !each_pattern_valid(&patterns) {
        assert(exists|k: int| 0 <= k < patterns@.len() && !regex_builds(#[trigger] patterns@[k]@, false));
        proof {
            let k = choose|k: int| 0 <= k < patterns@.len() && !regex_builds(#[trigger] patterns@[k]@, false);
            assert(string_views(patterns@)[k] == patterns@[k]@);
            assert(!regex_builds(decode_utf8(sv[k]), false));
        }
        return None;
    }
    assert forall|k: int| 0 <= k < sv.len() implies regex_builds(#[trigger] decode_utf8(sv[k]), false) by {
        assert(string_views(patterns@)[k] == patterns@[k]@);
    }
    if !(regex_set_is_valid(patterns.as_slice(), false) && regex_set_is_valid(patterns.as_slice(), true)) {
        return None;
    }
    proof {
        lemma_skip_ws(b@, p1 as int);
        lemma_skip_ws(b@, p2 as int);
        lemma_skip_ws(b@, e as int);
    }
    let raw = raw_text_of(b, i, e2);
    Some((RegexSetMatcher::from_parts(q, codes_from_bytes(codes.as_slice()), patterns, invert, raw), e2))
}

/// The strings of a list are valid UTF-8.
proof fn lemma_strings_utf8(b: Seq<u8>, i: int)
    requires
        0 <= i,
    ensures
        strings_at(b, i) matches Some((v, e)) ==> forall|k: int|
            0 <= k < v.len() ==> vstd::utf8::valid_utf8(#[trigger] v[k]),
{
    let p = skip_ws(b, i);
    if byte_at(b, p, 0x5b) {
        if let Some((s, e)) = string_at(b, skip_ws(b, p + 1)) {
            lemma_strings_rest_utf8(b, e);
        }
    }
}

proof fn lemma_strings_rest_utf8(b: Seq<u8>, i: int)
    ensures
        strings_rest(b, i) matches Some((v, e)) ==> forall|k: int|
            0 <= k < v.len() ==> vstd::utf8::valid_utf8(#[trigger] v[k]),
    decreases b.len() - i,
{
    let p = skip_ws(b, i);
    if byte_at(b, p, 0x2c) {
        if let Some((s, e)) = string_at(b, skip_ws(b, p + 1)) {
            if i < e <= b.len() {
                lemma_strings_rest_utf8(b, e);
                if let Some((rest, k)) = strings_rest(b, e) {
                    assert forall|j: int| 0 <= j < (seq![s] + rest).len() implies vstd::utf8::valid_utf8(
                        #[trigger] (seq![s] + rest)[j],
                    ) by {
                        if j > 0 {
                            assert((seq![s] + rest)[j] == rest[j - 1]);
                        }
                    }
                }
            }
        }
    }
}


/// The UTF-8 encodings of the chars of a string of more than one char.
fn split_chars(s: &String) -> (r: Vec<Vec<u8>>)
    ensures
        value_views(r@) == char_encodings(s@),
{
    let n = s.as_str().unicode_len();
    let mut out: Vec<Vec<u8>> = Vec::new();
    let mut k: usize = 0;
    while k < n
        invariant
            n == s@.len(),
            0 <= k <= n,
            out@.len() == k,
            forall|j: int| 0 <= j < k ==> (#[trigger] out@[j])@ == encode_scalar(s@[j] as u32),
        decreases n - k,
    {
        let c = s.as_str().get_char(k);
        out.push(char_utf8(c));
        k = k + 1;
    }
    assert(value_views(out@) =~= char_encodings(s@));
    out
}

fn parse_in_values(b: &[u8], i: usize) -> (r: Option<(Vec<Vec<u8>>, usize)>)
    requires
        i <= b@.len(),
    ensures
        match in_values_at(b@, i as int) {
            Some((v, e)) => r matches Some((w, k)) && value_views(w@) == v && k == e && k <= b@.len()
                && i <= k,
            None => r is None,
        },
{
    match parse_strings(b, i) {
        Some(x) => Some(x),
        None => match parse_string(b, i) {
            Some((bytes, e)) => {
                proof {
                    lemma_string_end(b@, i as int);
                }
                match string_from_utf8(bytes) {
                    Some(s) => {
                        if s.as_str().unicode_len() > 1 {
                            Some((split_chars(&s), e))
                        } else {
                            None
                        }
                    },
                    None => None,
                }
            },
            None => None,
        },
    }
}

/// Tells whether the text `t` stands at position `i`.
pub(crate) fn text_is(b: &[u8], i: usize, t: &[u8]) -> (r: bool)
    ensures
        r == text_at(b@, i as int, t@),
        r ==> i + t@.len() <= b.len(),
{
    let n = b.len();
    if i > n || n - i < t.len() {
        return false;
    }
    let mut k: usize = 0;
    while k < t.len()
        invariant
            0 <= k <= t@.len(),
            n == b@.len(),
            i + t@.len() <= n,
            forall|j: int| 0 <= j < k ==> b@[i + j] == t@[j],
        decreases t@.len() - k,
    {
        if b[i + k] != t[k] {
            assert(b@.subrange(i as int, i + t@.len())[k as int] != t@[k as int]);
            return false;
        }
        k = k + 1;
    }
    assert(b@.subrange(i as int, i + t@.len()) =~= t@);
    true
}

/// Reads an in-matcher at `i`.
pub(crate) fn parse_in(b: &[u8], i: usize) -> (r: Option<(InMatcher, usize)>)
    requires
        i <= b@.len(),
    ensures
        r matches Some((m, k)) ==> i <= k <= b@.len(),
        match in_at(b@, i as int) {
            Some((spec, e)) => r matches Some((m, k)) && m@ == spec && k == e && m.raw_text()
                == raw_chars(b@, i as int, e),
            None => r is None,
        },
{
    let (q, p1) = parse_quant(b, i);
    let (codes, p2) = match parse_ws_codes(b, p1) {
        Some(x) => x,
        None => return None,
    };
    let p3 = skip_ws_at(b, p2);
    let not_text: [u8; 3] = [0x6e, 0x6f, 0x74];
    let in_text: [u8; 2] = [0x69, 0x6e];
    assert(not_text@ =~= seq![0x6eu8, 0x6fu8, 0x74u8]);
    assert(in_text@ =~= seq![0x69u8, 0x6eu8]);
    let (invert, p4) = if text_is(b, p3, not_text.as_slice()) {
        (true, skip_ws_at(b, p3 + 3))
    } else {
        (false, p2)
    };
    let p5 = skip_ws_at(b, p4);
    if !text_is(b, p5, in_text.as_slice()) {
        return None;
    }
    let p6 = skip_ws_at(b, p5 + 2);
    let (values, e) = match parse_in_values(b, p6) {
        Some(x) => x,
        None => return None,
    };
    proof {
        lemma_skip_ws(b@, p1 as int);
        lemma_skip_ws(b@, p2 as int);
        lemma_skip_ws(b@, p3 + 3);
        lemma_skip_ws(b@, p4 as int);
        lemma_skip_ws(b@, p5 + 2);
    }
    let raw = raw_text_of(b, i, e);
    Some((InMatcher::from_parts(q, codes_from_bytes(codes.as_slice()), values, invert, raw), e))
}

/// Reads a contains-matcher at `i`.
pub(crate) fn parse_contains(b: &[u8], i: usize) -> (r: Option<(ContainsMatcher, usize)>)
    requires
        i <= b@.len(),
    ensures
        r matches Some((m, k)) ==> i <= k <= b@.len(),
        match contains_at(b@, i as int) {
            Some((spec, e)) => r matches Some((m, k)) && m@ == spec && k == e && m.raw_text()
                == raw_chars(b@, i as int, e),
            None => r is None,
        },
{
    let (q, p1) = parse_quant(b, i);
    let (codes, p2) = match parse_ws_codes(b, p1) {
        Some(x) => x,
        None => return None,
    };
    let p3 = skip_ws_at(b, p2);
    let op_text: [u8; 2] = [0x3d, 0x3f];
    assert(op_text@ =~= seq![0x3du8, 0x3fu8]);
    if !text_is(b, p3, op_text.as_slice()) {
        return None;
    }
    let p4 = skip_ws_at(b, p3 + 2);
    proof {
        lemma_skip_ws(b@, p1 as int);
        lemma_skip_ws(b@, p2 as int);
        lemma_skip_ws(b@, p3 + 2);
    }
    let (values, e) = match parse_strings(b, p4) {
        Some(x) => x,
        None => match parse_string(b, p4) {
            Some((s, e)) => {
                proof {
                    lemma_string_end(b@, p4 as int);
                    lemma_skip_ws(b@, e as int);
                }
                let ghost sv = s@;
                let mut v: Vec<Vec<u8>> = Vec::new();
                v.push(s);
                assert(value_views(v@) =~= seq![sv]);
                (v, skip_ws_at(b, e))
            },
            None => return None,
        },
    };
    let raw = raw_text_of(b, i, e);
    Some((ContainsMatcher::from_parts(q, codes_from_bytes(codes.as_slice()), values, raw), e))
}

/// The value of the digits only grows as digits are added.
proof fn lemma_digits_value_prefix(s: Seq<u8>, k: int)
    requires
        0 <= k <= s.len(),
        forall|j: int| 0 <= j < s.len() ==> is_digit(#[trigger] s[j]),
    ensures
        digits_value(s.take(k)) <= digits_value(s),
    decreases s.len() - k,
{
    if k < s.len() {
        lemma_digits_value_prefix(s, k + 1);
        assert(s.take(k + 1).drop_last() =~= s.take(k));
    } else {
        assert(s.take(k) =~= s);
    }
}

/// The digits from `i` on end within the bytes, and all of them are
/// digits.
pub(crate) proof fn lemma_digits_end(b: Seq<u8>, i: int)
    requires
        0 <= i <= b.len(),
    ensures
        i <= digits_end(b, i) <= b.len(),
        forall|j: int| i <= j < digits_end(b, i) ==> is_digit(#[trigger] b[j]),
    decreases b.len() - i,
{
    if 0 <= i < b.len() && is_digit(b[i]) {
        lemma_digits_end(b, i + 1);
    }
}

/// Reads the digits from `i` on as a number that fits in a `usize`.
pub(crate) fn parse_number(b: &[u8], i: usize) -> (r: Option<(usize, usize)>)
    requires
        i <= b@.len(),
    ensures
        ({
            let de = digits_end(b@, i as int);
            if de > i && digits_value(b@.subrange(i as int, de)) <= usize::MAX {
                r matches Some((v, e)) && v == digits_value(b@.subrange(i as int, de)) && e == de
            } else {
                r is None
            }
        }),
{
    proof {
        lemma_digits_end(b@, i as int);
    }
    let ghost de = digits_end(b@, i as int);
    let ghost ds = b@.subrange(i as int, de);
    let mut v: usize = 0;
    let mut k = i;
    while k < b.len() && 0x30 <= b[k] && b[k] <= 0x39
        invariant
            i <= k <= de,
            de == digits_end(b@, i as int),
            de <= b@.len(),
            ds == b@.subrange(i as int, de),
            forall|j: int| i <= j < de ==> is_digit(#[trigger] b@[j]),
            digits_end(b@, k as int) == de,
            v == digits_value(ds.take(k - i)),
            b@.len() == b.len(),
        decreases b@.len() - k,
    {
        proof {
            lemma_digits_end(b@, k + 1);
            assert(digits_end(b@, k as int) == digits_end(b@, k + 1));
        }
        assert(ds.take(k - i + 1).drop_last() =~= ds.take(k - i));
        assert(ds.take(k - i + 1).last() == b@[k as int]);
        let d = (b[k] - 0x30) as usize;
        let v10 = match v.checked_mul(10) {
            Some(x) => x,
            None => {
                proof {
                    assert forall|j: int| 0 <= j < ds.len() implies is_digit(#[trigger] ds[j]) by {
                        assert(ds[j] == b@[i + j]);
                    }
                    lemma_digits_value_prefix(ds, k - i + 1);
                }
                return None;
            },
        };
        v = match v10.checked_add(d) {
            Some(x) => x,
            None => {
                proof {
                    assert forall|j: int| 0 <= j < ds.len() implies is_digit(#[trigger] ds[j]) by {
                        assert(ds[j] == b@[i + j]);
                    }
                    lemma_digits_value_prefix(ds, k - i + 1);
                }
                return None;
            },
        };
        k = k + 1;
    }
    assert(ds.take(k - i) =~= ds);
    if k == i {
        return None;
    }
    Some((v, k))
}

/// Reads a cardinality matcher at `i`.
pub(crate) fn parse_cardinality(b: &[u8], i: usize) -> (r: Option<(CardinalityMatcher, usize)>)
    requires
        i <= b@.len(),
    ensures
        r matches Some((m, k)) ==> i <= k <= b@.len(),
        match cardinality_at(b@, i as int) {
            Some((spec, e)) => r matches Some((m, k)) && m@ == spec && k == e && m.raw_text()
                == raw_chars(b@, i as int, e),
            None => r is None,
        },
{
    let p = skip_ws_at(b, i);
    if !byte_is(b, p, 0x23) {
        return None;
    }
    let c = skip_ws_at(b, p + 1);
    if !(c < b.len() && crate::parser::is_code_byte(b[c])) {
        return None;
    }
    let code = b[c];
    let p2 = skip_ws_at(b, c + 1);
    let (op, e) = match parse_relational_operator(b, p2) {
        Some(x) => x,
        None => return None,
    };
    let d = skip_ws_at(b, e);
    if !op.is_usize_applicable() {
        return None;
    }
    let (value, de) = match parse_number(b, d) {
        Some(x) => x,
        None => return None,
    };
    proof {
        lemma_skip_ws(b@, i as int);
        lemma_skip_ws(b@, p + 1);
        lemma_skip_ws(b@, c + 1);
        lemma_skip_ws(b@, e as int);
        lemma_digits_end(b@, d as int);
    }
    let raw = raw_text_of(b, i, de);
    Some((CardinalityMatcher::from_parts(code, op, value, raw), de))
}


// ----------------------------------------------------------------------
// Singleton and composite matchers
// ----------------------------------------------------------------------

/// What a singleton matcher is read as: its parts and its text.
pub enum SingletonAst {
    Relation(RelationSpec, Seq<char>),
    In(InSpec, Seq<char>),
    Contains(ContainsSpec, Seq<char>),
    Exists(Seq<u8>, Seq<char>),
    Cardinality(CardinalitySpec, Seq<char>),
    RegexSet(RegexSetSpec, Seq<char>),
    Regex(RegexSpec, Seq<char>),
}

/// The parts and the text of a singleton matcher.
pub open spec fn singleton_ast(m: SingletonMatcher) -> SingletonAst {
    match m {
        SingletonMatcher::Relation(x) => SingletonAst::Relation(x@, x.raw_text()),
        SingletonMatcher::In(x) => SingletonAst::In(x@, x.raw_text()),
        SingletonMatcher::Contains(x) => SingletonAst::Contains(x@, x.raw_text()),
        SingletonMatcher::Exists(x) => SingletonAst::Exists(x@, x.raw_text()),
        SingletonMatcher::Cardinality(x) => SingletonAst::Cardinality(x@, x.raw_text()),
        SingletonMatcher::RegexSet(x) => SingletonAst::RegexSet(x@, x.raw_text()),
        SingletonMatcher::Regex(x) => SingletonAst::Regex(x@, x.raw_text()),
    }
}

/// A singleton matcher at `i`: the first of a contains-matcher, a
/// relation matcher, an in-matcher, an exists matcher, a cardinality
/// matcher, a regex-set matcher and a regex matcher that can be read there.
pub open spec fn singleton_at(b: Seq<u8>, i: int) -> Option<(SingletonAst, int)> {
    match contains_at(b, i) {
        Some((m, e)) => Some((SingletonAst::Contains(m, raw_chars(b, i, e)), e)),
        None => singleton_rest_at(b, i),
    }
}

/// A singleton matcher at `i` other than a contains-matcher.
pub open spec fn singleton_rest_at(b: Seq<u8>, i: int) -> Option<(SingletonAst, int)> {
    match relation_at(b, i) {
        Some((m, e)) => Some((SingletonAst::Relation(m, relation_raw(b, i, e)), e)),
        None => match in_at(b, i) {
            Some((m, e)) => Some((SingletonAst::In(m, raw_chars(b, i, e)), e)),
            None => match exists_at(b, i) {
                Some((m, e)) => Some((SingletonAst::Exists(m, raw_chars(b, i, e)), e)),
                None => match cardinality_at(b, i) {
                    Some((m, e)) => Some((SingletonAst::Cardinality(m, raw_chars(b, i, e)), e)),
                    None => match regex_set_at(b, i) {
                        Some((m, e)) => Some((SingletonAst::RegexSet(m, raw_chars(b, i, e)), e)),
                        None => match regex_at(b, i) {
                            Some((m, e)) => Some((SingletonAst::Regex(m, raw_chars(b, i, e)), e)),
                            None => None,
                        },
                    },
                },
            },
        },
    }
}

/// Reads a singleton matcher at `i`.
pub(crate) fn parse_singleton(b: &[u8], i: usize) -> (r: Option<(SingletonMatcher, usize)>)
    requires
        i <= b@.len(),
    ensures
        r matches Some((m, k)) ==> i <= k <= b@.len(),
        match singleton_at(b@, i as int) {
            Some((ast, e)) => r matches Some((m, k)) && singleton_ast(m) == ast && k == e,
            None => r is None,
        },
{
    if let Some((m, e)) = parse_contains(b, i) {
        return Some((SingletonMatcher::Contains(m), e));
    }
    if let Some((m, e)) = parse_relation(b, i) {
        return Some((SingletonMatcher::Relation(m), e));
    }
    if let Some((m, e)) = parse_in(b, i) {
        return Some((SingletonMatcher::In(m), e));
    }
    if let Some((m, e)) = parse_exists(b, i) {
        return Some((SingletonMatcher::Exists(m), e));
    }
    if let Some((m, e)) = parse_cardinality(b, i) {
        return Some((SingletonMatcher::Cardinality(m), e));
    }
    if let Some((m, e)) = parse_regex_set(b, i) {
        return Some((SingletonMatcher::RegexSet(m), e));
    }
    if let Some((m, e)) = parse_regex(b, i) {
        return Some((SingletonMatcher::Regex(m), e));
    }
    None
}

/// What a subfield matcher is read as.
pub enum SubfieldAst {
    Singleton(SingletonAst),
    Group(Box<SubfieldAst>),
    Not(Box<SubfieldAst>),
    Composite(Box<SubfieldAst>, BooleanOp, Box<SubfieldAst>),
}

/// The structure of a subfield matcher, with the parts and text of its
/// singleton matchers.
pub open spec fn subfield_ast(m: SubfieldMatcher) -> SubfieldAst
    decreases m,
{
    match m {
        SubfieldMatcher::Singleton(s) => SubfieldAst::Singleton(singleton_ast(s)),
        SubfieldMatcher::Group(x) => SubfieldAst::Group(Box::new(subfield_ast(*x))),
        SubfieldMatcher::Not(x) => SubfieldAst::Not(Box::new(subfield_ast(*x))),
        SubfieldMatcher::Composite { lhs, op, rhs } => SubfieldAst::Composite(
            Box::new(subfield_ast(*lhs)),
            op,
            Box::new(subfield_ast(*rhs)),
        ),
    }
}

/// Groups may be nested this deep, less one.
pub const MAX_GROUP_DEPTH: u32 = 256;

/// The result of a parser at `i` whose value is put in a singleton.
pub open spec fn sm_singleton(b: Seq<u8>, i: int) -> Option<(SubfieldAst, int)> {
    match singleton_at(b, i) {
        Some((s, e)) => Some((SubfieldAst::Singleton(s), e)),
        None => None,
    }
}

/// A group at `i`: `(`, a composite, singleton, negated or grouped
/// matcher, and `)`, with white space around the brackets; it fails where
/// it would be nested `MAX_GROUP_DEPTH` deep.
pub open spec fn sm_group(b: Seq<u8>, i: int, d: nat) -> Option<(SubfieldAst, int)>
    decreases b.len() - i, 2int,
{
    if !(0 <= i <= b.len()) {
        None
    } else {
        let p = skip_ws(b, i);
        proof {
            lemma_skip_ws(b, i);
        }
        if byte_at(b, p, 0x28) && d + 1 < MAX_GROUP_DEPTH {
            let q = skip_ws(b, p + 1);
            proof {
                lemma_skip_ws(b, p + 1);
            }
            match group_inner(b, q, d + 1) {
                Some((m, e)) => {
                    let r = skip_ws(b, e);
                    if byte_at(b, r, 0x29) {
                        Some((SubfieldAst::Group(Box::new(m)), skip_ws(b, r + 1)))
                    } else {
                        None
                    }
                },
                None => None,
            }
        } else {
            None
        }
    }
}

/// The exists matcher at `i` as a subfield matcher.
pub open spec fn sm_exists(b: Seq<u8>, i: int) -> Option<(SubfieldAst, int)> {
    match exists_at(b, i) {
        Some((m, e)) => Some(
            (SubfieldAst::Singleton(SingletonAst::Exists(m, raw_chars(b, i, e))), e),
        ),
        None => None,
    }
}

/// A negation at `i`: `!` and a group, an exists matcher or a negation,
/// with white space around the `!`.
pub open spec fn sm_not(b: Seq<u8>, i: int, d: nat) -> Option<(SubfieldAst, int)>
    decreases b.len() - i, 2int,
{
    if !(0 <= i <= b.len()) {
        None
    } else {
        let p = skip_ws(b, i);
        proof {
            lemma_skip_ws(b, i);
        }
        if byte_at(b, p, 0x21) {
            let q = skip_ws(b, p + 1);
            proof {
                lemma_skip_ws(b, p + 1);
            }
            let inner = match sm_group(b, q, d) {
                Some(x) => Some(x),
                None => match sm_exists(b, q) {
                    Some(x) => Some(x),
                    None => sm_not(b, q, d),
                },
            };
            match inner {
                Some((m, e)) => Some((SubfieldAst::Not(Box::new(m)), e)),
                None => None,
            }
        } else {
            None
        }
    }
}

/// An operand of `&&` at `i`: a group, a singleton matcher or a negation,
/// with white space around it.
pub open spec fn and_atom(b: Seq<u8>, i: int, d: nat) -> Option<(SubfieldAst, int)>
    decreases b.len() - i, 3int,
{
    if !(0 <= i <= b.len()) {
        None
    } else {
        let p = skip_ws(b, i);
        proof {
            lemma_skip_ws(b, i);
        }
        let r = match sm_group(b, p, d) {
            Some(x) => Some(x),
            None => match sm_singleton(b, p) {
                Some(x) => Some(x),
                None => sm_not(b, p, d),
            },
        };
        match r {
            Some((m, e)) => Some((m, skip_ws(b, e))),
            None => None,
        }
    }
}

/// The operands that follow `acc`, each after `&&`, joined to it from the
/// left.
pub open spec fn and_rest(b: Seq<u8>, i: int, d: nat, acc: SubfieldAst) -> (SubfieldAst, int)
    decreases b.len() - i, 4int,
{
    if 0 <= i && i + 2 <= b.len() && b[i] == 0x26 && b[i + 1] == 0x26 {
        match and_atom(b, i + 2, d) {
            Some((m, e)) => if i < e <= b.len() {
                and_rest(b, e, d, SubfieldAst::Composite(Box::new(acc), BooleanOp::And, Box::new(m)))
            } else {
                (acc, i)
            },
            None => (acc, i),
        }
    } else {
        (acc, i)
    }
}

/// Matchers joined by `&&` at `i`: an operand and at least one more.
pub open spec fn sm_and(b: Seq<u8>, i: int, d: nat) -> Option<(SubfieldAst, int)>
    decreases b.len() - i, 5int,
{
    match and_atom(b, i, d) {
        Some((m, e)) => if i <= e <= b.len() {
            let (acc, k) = and_rest(b, e, d, m);
            if k > e {
                Some((acc, k))
            } else {
                None
            }
        } else {
            None
        },
        None => None,
    }
}

/// An operand of `^` at `i`: matchers joined by `&&`, a group, a singleton
/// matcher or a negation, with white space around it.
pub open spec fn xor_atom(b: Seq<u8>, i: int, d: nat) -> Option<(SubfieldAst, int)>
    decreases b.len() - i, 6int,
{
    if !(0 <= i <= b.len()) {
        None
    } else {
        let p = skip_ws(b, i);
        proof {
            lemma_skip_ws(b, i);
        }
        let r = match sm_and(b, p, d) {
            Some(x) => Some(x),
            None => match sm_group(b, p, d) {
                Some(x) => Some(x),
                None => match sm_singleton(b, p) {
                    Some(x) => Some(x),
                    None => sm_not(b, p, d),
                },
            },
        };
        match r {
            Some((m, e)) => Some((m, skip_ws(b, e))),
            None => None,
        }
    }
}

/// The length of an exclusive-or sign at `i`: `^` or `XOR`.
pub open spec fn xor_sign(b: Seq<u8>, i: int) -> int {
    if byte_at(b, i, 0x5e) {
        1
    } else if text_at(b, i, seq![0x58u8, 0x4fu8, 0x52u8]) {
        3
    } else {
        0
    }
}

/// The operands that follow `acc`, each after `^` or `XOR`, joined to it
/// from the left.
pub open spec fn xor_rest(b: Seq<u8>, i: int, d: nat, acc: SubfieldAst) -> (SubfieldAst, int)
    decreases b.len() - i, 7int,
{
    let n = xor_sign(b, i);
    if 0 <= i && n > 0 {
        match xor_atom(b, i + n, d) {
            Some((m, e)) => if i < e <= b.len() {
                xor_rest(b, e, d, SubfieldAst::Composite(Box::new(acc), BooleanOp::Xor, Box::new(m)))
            } else {
                (acc, i)
            },
            None => (acc, i),
        }
    } else {
        (acc, i)
    }
}

/// Matchers joined by `^` at `i`: an operand and at least one more.
pub open spec fn sm_xor(b: Seq<u8>, i: int, d: nat) -> Option<(SubfieldAst, int)>
    decreases b.len() - i, 8int,
{
    match xor_atom(b, i, d) {
        Some((m, e)) => if i <= e <= b.len() {
            let (acc, k) = xor_rest(b, e, d, m);
            if k > e {
                Some((acc, k))
            } else {
                None
            }
        } else {
            None
        },
        None => None,
    }
}

/// An operand of `||` at `i`: matchers joined by `&&` or by `^`, a group,
/// a singleton matcher or a negation, with white space around it.
pub open spec fn or_atom(b: Seq<u8>, i: int, d: nat) -> Option<(SubfieldAst, int)>
    decreases b.len() - i, 9int,
{
    if !(0 <= i <= b.len()) {
        None
    } else {
        let p = skip_ws(b, i);
        proof {
            lemma_skip_ws(b, i);
        }
        let r = match sm_and(b, p, d) {
            Some(x) => Some(x),
            None => match sm_xor(b, p, d) {
                Some(x) => Some(x),
                None => match sm_group(b, p, d) {
                    Some(x) => Some(x),
                    None => match sm_singleton(b, p) {
                        Some(x) => Some(x),
                        None => sm_not(b, p, d),
                    },
                },
            },
        };
        match r {
            Some((m, e)) => Some((m, skip_ws(b, e))),
            None => None,
        }
    }
}

/// The operands that follow `acc`, each after `||`, joined to it from the
/// left.
pub open spec fn or_rest(b: Seq<u8>, i: int, d: nat, acc: SubfieldAst) -> (SubfieldAst, int)
    decreases b.len() - i, 10int,
{
    if 0 <= i && i + 2 <= b.len() && b[i] == 0x7c && b[i + 1] == 0x7c {
        match or_atom(b, i + 2, d) {
            Some((m, e)) => if i < e <= b.len() {
                or_rest(b, e, d, SubfieldAst::Composite(Box::new(acc), BooleanOp::Or, Box::new(m)))
            } else {
                (acc, i)
            },
            None => (acc, i),
        }
    } else {
        (acc, i)
    }
}

/// Matchers joined by `||` at `i`: an operand and at least one more.
pub open spec fn sm_or(b: Seq<u8>, i: int, d: nat) -> Option<(SubfieldAst, int)>
    decreases b.len() - i, 11int,
{
    match or_atom(b, i, d) {
        Some((m, e)) => if i <= e <= b.len() {
            let (acc, k) = or_rest(b, e, d, m);
            if k > e {
                Some((acc, k))
            } else {
                None
            }
        } else {
            None
        },
        None => None,
    }
}

/// A composite matcher at `i`: matchers joined by `||`, by `^` or by `&&`,
/// tried in this order.
pub open spec fn sm_composite(b: Seq<u8>, i: int, d: nat) -> Option<(SubfieldAst, int)>
    decreases b.len() - i, 12int,
{
    match sm_or(b, i, d) {
        Some(x) => Some(x),
        None => match sm_xor(b, i, d) {
            Some(x) => Some(x),
            None => sm_and(b, i, d),
        },
    }
}

/// A subfield matcher at `i`: a composite matcher, a singleton matcher, a
/// group or a negation, tried in this order.
pub open spec fn subfield_matcher_at(b: Seq<u8>, i: int) -> Option<(SubfieldAst, int)> {
    match sm_composite(b, i, 0) {
        Some(x) => Some(x),
        None => match sm_singleton(b, i) {
            Some(x) => Some(x),
            None => match sm_group(b, i, 0) {
                Some(x) => Some(x),
                None => sm_not(b, i, 0),
            },
        },
    }
}


/// What a group holds: a composite, singleton, negated or grouped matcher.
pub open spec fn group_inner(b: Seq<u8>, q: int, d: nat) -> Option<(SubfieldAst, int)>
    decreases b.len() - q, 13int,
{
    match sm_composite(b, q, d) {
        Some(x) => Some(x),
        None => match sm_singleton(b, q) {
            Some(x) => Some(x),
            None => match sm_not(b, q, d) {
                Some(x) => Some(x),
                None => sm_group(b, q, d),
            },
        },
    }
}

/// Reads what a group holds at `q`.
fn parse_group_inner(b: &[u8], q: usize, d: u32) -> (r: Option<(SubfieldMatcher, usize)>)
    requires
        q <= b@.len(),
        d < MAX_GROUP_DEPTH,
    ensures
        r matches Some((m, k)) ==> q <= k <= b@.len(),
        match group_inner(b@, q as int, d as nat) {
            Some((ast, e)) => r matches Some((m, k)) && subfield_ast(m) == ast && k == e,
            None => r is None,
        },
    decreases b@.len() - q, 13int,
{
    match parse_composite(b, q, d) {
        Some(x) => Some(x),
        None => match parse_singleton(b, q) {
            Some((m, e)) => Some((SubfieldMatcher::Singleton(m), e)),
            None => match parse_not(b, q, d) {
                Some(x) => Some(x),
                None => parse_group(b, q, d),
            },
        },
    }
}

/// Reads a group at `i`.
fn parse_group(b: &[u8], i: usize, d: u32) -> (r: Option<(SubfieldMatcher, usize)>)
    requires
        i <= b@.len(),
        d < MAX_GROUP_DEPTH,
    ensures
        r matches Some((m, k)) ==> i <= k <= b@.len(),
        match sm_group(b@, i as int, d as nat) {
            Some((ast, e)) => r matches Some((m, k)) && subfield_ast(m) == ast && k == e,
            None => r is None,
        },
    decreases b@.len() - i, 2int,
{
    let p = skip_ws_at(b, i);
    if !(byte_is(b, p, 0x28) && d + 1 < MAX_GROUP_DEPTH) {
        return None;
    }
    let q = skip_ws_at(b, p + 1);
    proof {
        lemma_skip_ws(b@, p + 1);
    }
    let inner = parse_group_inner(b, q, d + 1);
    match inner {
        Some((m, e)) => {
            let r = skip_ws_at(b, e);
            if byte_is(b, r, 0x29) {
                proof {
                    lemma_skip_ws(b@, r + 1);
                }
                Some((SubfieldMatcher::Group(Box::new(m)), skip_ws_at(b, r + 1)))
            } else {
                None
            }
        },
        None => None,
    }
}

/// Reads a negation at `i`.
fn parse_not(b: &[u8], i: usize, d: u32) -> (r: Option<(SubfieldMatcher, usize)>)
    requires
        i <= b@.len(),
        d < MAX_GROUP_DEPTH,
    ensures
        r matches Some((m, k)) ==> i <= k <= b@.len(),
        match sm_not(b@, i as int, d as nat) {
            Some((ast, e)) => r matches Some((m, k)) && subfield_ast(m) == ast && k == e,
            None => r is None,
        },
    decreases b@.len() - i, 2int,
{
    let p = skip_ws_at(b, i);
    if !byte_is(b, p, 0x21) {
        return None;
    }
    let q = skip_ws_at(b, p + 1);
    proof {
        lemma_skip_ws(b@, p + 1);
    }
    let inner = match parse_group(b, q, d) {
        Some(x) => Some(x),
        None => match parse_exists(b, q) {
            Some((m, e)) => {
                let sm = SubfieldMatcher::Singleton(SingletonMatcher::Exists(m));
                assert(subfield_ast(sm) == SubfieldAst::Singleton(SingletonAst::Exists(m@, m.raw_text())));
                Some((sm, e))
            },
            None => parse_not(b, q, d),
        },
    };
    match inner {
        Some((m, e)) => {
            let n = SubfieldMatcher::Not(Box::new(m));
            assert(subfield_ast(n) == SubfieldAst::Not(Box::new(subfield_ast(m))));
            Some((n, e))
        },
        None => None,
    }
}

/// Reads an operand of `&&` at `i`.
fn parse_and_atom(b: &[u8], i: usize, d: u32) -> (r: Option<(SubfieldMatcher, usize)>)
    requires
        i <= b@.len(),
        d < MAX_GROUP_DEPTH,
    ensures
        r matches Some((m, k)) ==> i <= k <= b@.len(),
        match and_atom(b@, i as int, d as nat) {
            Some((ast, e)) => r matches Some((m, k)) && subfield_ast(m) == ast && k == e,
            None => r is None,
        },
    decreases b@.len() - i, 3int,
{
    let p = skip_ws_at(b, i);
    let r = match parse_group(b, p, d) {
        Some(x) => Some(x),
        None => match parse_singleton(b, p) {
            Some((m, e)) => Some((SubfieldMatcher::Singleton(m), e)),
            None => parse_not(b, p, d),
        },
    };
    match r {
        Some((m, e)) => {
            proof {
                lemma_skip_ws(b@, e as int);
            }
            Some((m, skip_ws_at(b, e)))
        },
        None => None,
    }
}

/// Reads the operands that follow `acc`, each after `&&`.
fn parse_and_rest(b: &[u8], i: usize, d: u32, acc: SubfieldMatcher) -> (r: (SubfieldMatcher, usize))
    requires
        i <= b@.len(),
        d < MAX_GROUP_DEPTH,
    ensures
        i <= r.1 <= b@.len(),
        (subfield_ast(r.0), r.1 as int) == and_rest(b@, i as int, d as nat, subfield_ast(acc)),
    decreases b@.len() - i, 4int,
{
    if i < b.len() && b.len() - i >= 2 && b[i] == 0x26 && b[i + 1] == 0x26 {
        match parse_and_atom(b, i + 2, d) {
            Some((m, e)) => {
                let joined = SubfieldMatcher::Composite { lhs: Box::new(acc), op: BooleanOp::And, rhs: Box::new(m) };
                parse_and_rest(b, e, d, joined)
            },
            None => (acc, i),
        }
    } else {
        (acc, i)
    }
}

/// Reads matchers joined by `&&` at `i`.
fn parse_and(b: &[u8], i: usize, d: u32) -> (r: Option<(SubfieldMatcher, usize)>)
    requires
        i <= b@.len(),
        d < MAX_GROUP_DEPTH,
    ensures
        r matches Some((m, k)) ==> i <= k <= b@.len(),
        match sm_and(b@, i as int, d as nat) {
            Some((ast, e)) => r matches Some((m, k)) && subfield_ast(m) == ast && k == e,
            None => r is None,
        },
    decreases b@.len() - i, 5int,
{
    match parse_and_atom(b, i, d) {
        Some((m, e)) => {
            let (acc, k) = parse_and_rest(b, e, d, m);
            if k > e {
                Some((acc, k))
            } else {
                None
            }
        },
        None => None,
    }
}

/// Reads an operand of `^` at `i`.
fn parse_xor_atom(b: &[u8], i: usize, d: u32) -> (r: Option<(SubfieldMatcher, usize)>)
    requires
        i <= b@.len(),
        d < MAX_GROUP_DEPTH,
    ensures
        r matches Some((m, k)) ==> i <= k <= b@.len(),
        match xor_atom(b@, i as int, d as nat) {
            Some((ast, e)) => r matches Some((m, k)) && subfield_ast(m) == ast && k == e,
            None => r is None,
        },
    decreases b@.len() - i, 6int,
{
    let p = skip_ws_at(b, i);
    let r = match parse_and(b, p, d) {
        Some(x) => Some(x),
        None => match parse_group(b, p, d) {
            Some(x) => Some(x),
            None => match parse_singleton(b, p) {
                Some((m, e)) => Some((SubfieldMatcher::Singleton(m), e)),
                None => parse_not(b, p, d),
            },
        },
    };
    match r {
        Some((m, e)) => {
            proof {
                lemma_skip_ws(b@, e as int);
            }
            Some((m, skip_ws_at(b, e)))
        },
        None => None,
    }
}

/// The length of an exclusive-or sign at `i`.
fn xor_sign_at(b: &[u8], i: usize) -> (r: usize)
    ensures
        r == xor_sign(b@, i as int),
        r > 0 ==> i + r <= b.len(),
{
    let xor_text: [u8; 3] = [0x58, 0x4f, 0x52];
    assert(xor_text@ =~= seq![0x58u8, 0x4fu8, 0x52u8]);
    if byte_is(b, i, 0x5e) {
        1
    } else if text_is(b, i, xor_text.as_slice()) {
        3
    } else {
        0
    }
}

/// Reads the operands that follow `acc`, each after `^` or `XOR`.
fn parse_xor_rest(b: &[u8], i: usize, d: u32, acc: SubfieldMatcher) -> (r: (SubfieldMatcher, usize))
    requires
        i <= b@.len(),
        d < MAX_GROUP_DEPTH,
    ensures
        i <= r.1 <= b@.len(),
        (subfield_ast(r.0), r.1 as int) == xor_rest(b@, i as int, d as nat, subfield_ast(acc)),
    decreases b@.len() - i, 7int,
{
    let n = xor_sign_at(b, i);
    if n > 0 {
        match parse_xor_atom(b, i + n, d) {
            Some((m, e)) => {
                let joined = SubfieldMatcher::Composite { lhs: Box::new(acc), op: BooleanOp::Xor, rhs: Box::new(m) };
                parse_xor_rest(b, e, d, joined)
            },
            None => (acc, i),
        }
    } else {
        (acc, i)
    }
}

/// Reads matchers joined by `^` at `i`.
fn parse_xor(b: &[u8], i: usize, d: u32) -> (r: Option<(SubfieldMatcher, usize)>)
    requires
        i <= b@.len(),
        d < MAX_GROUP_DEPTH,
    ensures
        r matches Some((m, k)) ==> i <= k <= b@.len(),
        match sm_xor(b@, i as int, d as nat) {
            Some((ast, e)) => r matches Some((m, k)) && subfield_ast(m) == ast && k == e,
            None => r is None,
        },
    decreases b@.len() - i, 8int,
{
    match parse_xor_atom(b, i, d) {
        Some((m, e)) => {
            let (acc, k) = parse_xor_rest(b, e, d, m);
            if k > e {
                Some((acc, k))
            } else {
                None
            }
        },
        None => None,
    }
}

/// Reads an operand of `||` at `i`.
fn parse_or_atom(b: &[u8], i: usize, d: u32) -> (r: Option<(SubfieldMatcher, usize)>)
    requires
        i <= b@.len(),
        d < MAX_GROUP_DEPTH,
    ensures
        r matches Some((m, k)) ==> i <= k <= b@.len(),
        match or_atom(b@, i as int, d as nat) {
            Some((ast, e)) => r matches Some((m, k)) && subfield_ast(m) == ast && k == e,
            None => r is None,
        },
    decreases b@.len() - i, 9int,
{
    let p = skip_ws_at(b, i);
    let r = match parse_and(b, p, d) {
        Some(x) => Some(x),
        None => match parse_xor(b, p, d) {
            Some(x) => Some(x),
            None => match parse_group(b, p, d) {
                Some(x) => Some(x),
                None => match parse_singleton(b, p) {
                    Some((m, e)) => Some((SubfieldMatcher::Singleton(m), e)),
                    None => parse_not(b, p, d),
                },
            },
        },
    };
    match r {
        Some((m, e)) => {
            proof {
                lemma_skip_ws(b@, e as int);
            }
            Some((m, skip_ws_at(b, e)))
        },
        None => None,
    }
}

/// Reads the operands that follow `acc`, each after `||`.
fn parse_or_rest(b: &[u8], i: usize, d: u32, acc: SubfieldMatcher) -> (r: (SubfieldMatcher, usize))
    requires
        i <= b@.len(),
        d < MAX_GROUP_DEPTH,
    ensures
        i <= r.1 <= b@.len(),
        (subfield_ast(r.0), r.1 as int) == or_rest(b@, i as int, d as nat, subfield_ast(acc)),
    decreases b@.len() - i, 10int,
{
    if i < b.len() && b.len() - i >= 2 && b[i] == 0x7c && b[i + 1] == 0x7c {
        match parse_or_atom(b, i + 2, d) {
            Some((m, e)) => {
                let joined = SubfieldMatcher::Composite { lhs: Box::new(acc), op: BooleanOp::Or, rhs: Box::new(m) };
                parse_or_rest(b, e, d, joined)
            },
            None => (acc, i),
        }
    } else {
        (acc, i)
    }
}

/// Reads matchers joined by `||` at `i`.
fn parse_or(b: &[u8], i: usize, d: u32) -> (r: Option<(SubfieldMatcher, usize)>)
    requires
        i <= b@.len(),
        d < MAX_GROUP_DEPTH,
    ensures
        r matches Some((m, k)) ==> i <= k <= b@.len(),
        match sm_or(b@, i as int, d as nat) {
            Some((ast, e)) => r matches Some((m, k)) && subfield_ast(m) == ast && k == e,
            None => r is None,
        },
    decreases b@.len() - i, 11int,
{
    match parse_or_atom(b, i, d) {
        Some((m, e)) => {
            let (acc, k) = parse_or_rest(b, e, d, m);
            if k > e {
                Some((acc, k))
            } else {
                None
            }
        },
        None => None,
    }
}

/// Reads a composite matcher at `i`.
fn parse_composite(b: &[u8], i: usize, d: u32) -> (r: Option<(SubfieldMatcher, usize)>)
    requires
        i <= b@.len(),
        d < MAX_GROUP_DEPTH,
    ensures
        r matches Some((m, k)) ==> i <= k <= b@.len(),
        match sm_composite(b@, i as int, d as nat) {
            Some((ast, e)) => r matches Some((m, k)) && subfield_ast(m) == ast && k == e,
            None => r is None,
        },
    decreases b@.len() - i, 12int,
{
    match parse_or(b, i, d) {
        Some(x) => Some(x),
        None => match parse_xor(b, i, d) {
            Some(x) => Some(x),
            None => parse_and(b, i, d),
        },
    }
}

/// Reads a subfield matcher at `i`.
pub(crate) fn parse_subfield_matcher_at(b: &[u8], i: usize) -> (r: Option<(SubfieldMatcher, usize)>)
    requires
        i <= b@.len(),
    ensures
        r matches Some((m, k)) ==> i <= k <= b@.len(),
        match subfield_matcher_at(b@, i as int) {
            Some((ast, e)) => r matches Some((m, k)) && subfield_ast(m) == ast && k == e,
            None => r is None,
        },
{
    match parse_composite(b, i, 0) {
        Some(x) => Some(x),
        None => match parse_singleton(b, i) {
            Some((m, e)) => Some((SubfieldMatcher::Singleton(m), e)),
            None => match parse_group(b, i, 0) {
                Some(x) => Some(x),
                None => parse_not(b, i, 0),
            },
        },
    }
}


/// The parse read the whole input.
pub open spec fn whole<T>(r: Option<(T, int)>, len: nat) -> bool {
    r matches Some((_, e)) && e == len
}

impl ExistsMatcher {
    /// Creates an exists matcher from its text, such as `a?`, `[a-c]?` or
    /// `*?`; fails unless the whole text is one.
    pub fn new(matcher: &str) -> (r: Result<Self, ParseMatcherError>)
        ensures
            r is Ok <==> whole(exists_at(matcher.spec_bytes(), 0), matcher.spec_bytes().len()),
            r matches Ok(m) ==> exists_at(matcher.spec_bytes(), 0) == Some((m@, matcher.spec_bytes().len() as int))
                && m.raw_text() == raw_chars(matcher.spec_bytes(), 0, matcher.spec_bytes().len() as int),
            r matches Err(e) ==> e@ == invalid_message("exists matcher"@, matcher@),
    {
        let b = matcher.as_bytes();
        match parse_exists(b, 0) {
            Some((m, e)) => if e == b.len() {
                return Ok(m);
            },
            None => {},
        }
        Err(ParseMatcherError::invalid("exists matcher", matcher))
    }
}

impl RelationMatcher {
    /// Creates a relation matcher from its text, such as `0 == 'Tp1'`;
    /// fails unless the whole text is one.
    pub fn new(matcher: &str) -> (r: Result<Self, ParseMatcherError>)
        ensures
            r is Ok <==> whole(relation_at(matcher.spec_bytes(), 0), matcher.spec_bytes().len()),
            r matches Ok(m) ==> relation_at(matcher.spec_bytes(), 0) == Some((m@, matcher.spec_bytes().len() as int))
                && m.raw_text() == relation_raw(matcher.spec_bytes(), 0, matcher.spec_bytes().len() as int),
            r matches Err(e) ==> e@ == invalid_message("relation matcher"@, matcher@),
    {
        let b = matcher.as_bytes();
        match parse_relation(b, 0) {
            Some((m, e)) => if e == b.len() {
                return Ok(m);
            },
            None => {},
        }
        Err(ParseMatcherError::invalid("relation matcher", matcher))
    }
}

impl RegexMatcher {
    /// Creates a regex matcher from its text, such as `0 =~ '^Tp'`; fails
    /// unless the whole text is one and its pattern builds.
    pub fn new(matcher: &str) -> (r: Result<Self, ParseMatcherError>)
        ensures
            r is Ok <==> whole(regex_at(matcher.spec_bytes(), 0), matcher.spec_bytes().len()),
            r matches Ok(m) ==> regex_at(matcher.spec_bytes(), 0) == Some((m@, matcher.spec_bytes().len() as int))
                && m.raw_text() == raw_chars(matcher.spec_bytes(), 0, matcher.spec_bytes().len() as int),
            r matches Err(e) ==> e@ == invalid_message("regex matcher"@, matcher@),
    {
        let b = matcher.as_bytes();
        match parse_regex(b, 0) {
            Some((m, e)) => if e == b.len() {
                return Ok(m);
            },
            None => {},
        }
        Err(ParseMatcherError::invalid("regex matcher", matcher))
    }
}

impl RegexSetMatcher {
    /// Creates a regex-set matcher from its text, such as
    /// `0 =~ ['^Tp', '^Ts']`; fails unless the whole text is one and its
    /// patterns build.
    pub fn new(matcher: &str) -> (r: Result<Self, ParseMatcherError>)
        ensures
            r is Ok <==> whole(regex_set_at(matcher.spec_bytes(), 0), matcher.spec_bytes().len()),
            r matches Ok(m) ==> regex_set_at(matcher.spec_bytes(), 0) == Some((m@, matcher.spec_bytes().len() as int))
                && m.raw_text() == raw_chars(matcher.spec_bytes(), 0, matcher.spec_bytes().len() as int),
            r matches Err(e) ==> e@ == invalid_message("regex-set matcher"@, matcher@),
    {
        let b = matcher.as_bytes();
        match parse_regex_set(b, 0) {
            Some((m, e)) => if e == b.len() {
                return Ok(m);
            },
            None => {},
        }
        Err(ParseMatcherError::invalid("regex-set matcher", matcher))
    }
}

impl InMatcher {
    /// Creates an in-matcher from its text, such as `0 in ['Tp1', 'Tpz']`;
    /// fails unless the whole text is one.
    pub fn new(matcher: &str) -> (r: Result<Self, ParseMatcherError>)
        ensures
            r is Ok <==> whole(in_at(matcher.spec_bytes(), 0), matcher.spec_bytes().len()),
            r matches Ok(m) ==> in_at(matcher.spec_bytes(), 0) == Some((m@, matcher.spec_bytes().len() as int))
                && m.raw_text() == raw_chars(matcher.spec_bytes(), 0, matcher.spec_bytes().len() as int),
            r matches Err(e) ==> e@ == invalid_message("in-matcher"@, matcher@),
    {
        let b = matcher.as_bytes();
        match parse_in(b, 0) {
            Some((m, e)) => if e == b.len() {
                return Ok(m);
            },
            None => {},
        }
        Err(ParseMatcherError::invalid("in-matcher", matcher))
    }
}

impl ContainsMatcher {
    /// Creates a contains-matcher from its text, such as
    /// `a =? ['foo', 'bar']` or `a =? 'foo'`; fails unless the whole text
    /// is one.
    pub fn new(matcher: &str) -> (r: Result<Self, ParseMatcherError>)
        ensures
            r is Ok <==> whole(contains_at(matcher.spec_bytes(), 0), matcher.spec_bytes().len()),
            r matches Ok(m) ==> contains_at(matcher.spec_bytes(), 0) == Some((m@, matcher.spec_bytes().len() as int))
                && m.raw_text() == raw_chars(matcher.spec_bytes(), 0, matcher.spec_bytes().len() as int),
            r matches Err(e) ==> e@ == invalid_message("contains-matcher"@, matcher@),
    {
        let b = matcher.as_bytes();
        match parse_contains(b, 0) {
            Some((m, e)) => if e == b.len() {
                return Ok(m);
            },
            None => {},
        }
        Err(ParseMatcherError::invalid("contains-matcher", matcher))
    }
}

impl CardinalityMatcher {
    /// Creates a cardinality matcher from its text, such as `#a >= 2`;
    /// fails unless the whole text is one.
    pub fn new(matcher: &str) -> (r: Result<Self, ParseMatcherError>)
        ensures
            r is Ok <==> whole(cardinality_at(matcher.spec_bytes(), 0), matcher.spec_bytes().len()),
            r matches Ok(m) ==> cardinality_at(matcher.spec_bytes(), 0) == Some((m@, matcher.spec_bytes().len() as int))
                && m.raw_text() == raw_chars(matcher.spec_bytes(), 0, matcher.spec_bytes().len() as int),
            r matches Err(e) ==> e@ == invalid_message("cardinality matcher"@, matcher@),
    {
        let b = matcher.as_bytes();
        match parse_cardinality(b, 0) {
            Some((m, e)) => if e == b.len() {
                return Ok(m);
            },
            None => {},
        }
        Err(ParseMatcherError::invalid("cardinality matcher", matcher))
    }
}

impl SingletonMatcher {
    /// Creates a singleton matcher from its text; fails unless the whole
    /// text is one.
    pub fn new(matcher: &str) -> (r: Result<Self, ParseMatcherError>)
        ensures
            r is Ok <==> whole(singleton_at(matcher.spec_bytes(), 0), matcher.spec_bytes().len()),
            r matches Ok(m) ==> singleton_at(matcher.spec_bytes(), 0) == Some(
                (singleton_ast(m), matcher.spec_bytes().len() as int),
            ),
            r matches Err(e) ==> e@ == invalid_message("singleton-matcher"@, matcher@),
    {
        let b = matcher.as_bytes();
        match parse_singleton(b, 0) {
            Some((m, e)) => if e == b.len() {
                return Ok(m);
            },
            None => {},
        }
        Err(ParseMatcherError::invalid("singleton-matcher", matcher))
    }
}

impl SubfieldMatcher {
    /// Creates a subfield matcher from its text, such as
    /// `a == 'foo' && !(b? || c?)`; fails unless the whole text is one.
    pub fn new(matcher: &str) -> (r: Result<Self, ParseMatcherError>)
        ensures
            r is Ok <==> whole(subfield_matcher_at(matcher.spec_bytes(), 0), matcher.spec_bytes().len()),
            r matches Ok(m) ==> subfield_matcher_at(matcher.spec_bytes(), 0) == Some(
                (subfield_ast(m), matcher.spec_bytes().len() as int),
            ),
            r matches Err(e) ==> e@ == invalid_message("subfield matcher"@, matcher@),
    {
        let b = matcher.as_bytes();
        match parse_subfield_matcher_at(b, 0) {
            Some((m, e)) => if e == b.len() {
                return Ok(m);
            },
            None => {},
        }
        Err(ParseMatcherError::invalid("subfield matcher", matcher))
    }
}

} // verus!
