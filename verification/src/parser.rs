//! Pieces of the matcher and path languages that several of them share:
//! white space, lists of subfield codes and quoted strings.
use vstd::prelude::*;
use vstd::utf8::valid_utf8;

use crate::primitives::model::{is_digit, is_lower, is_subfield_code, is_upper};
use crate::text::check_utf8;

verus! {

/// A space, tab, carriage return or line feed.
pub open spec fn is_space(c: u8) -> bool {
    c == 0x20 || c == 0x09 || c == 0x0d || c == 0x0a
}

/// The first position from `i` on that does not hold white space.
pub open spec fn skip_ws(b: Seq<u8>, i: int) -> int
    decreases b.len() - i,
{
    if 0 <= i < b.len() && is_space(b[i]) {
        skip_ws(b, i + 1)
    } else {
        i
    }
}

/// The byte `c` stands at position `i`.
pub open spec fn byte_at(b: Seq<u8>, i: int, c: u8) -> bool {
    0 <= i < b.len() && b[i] == c
}

/// The result of a parser with its end position taken as an integer.
pub open spec fn lift<T>(r: Option<(T, usize)>) -> Option<(T, int)> {
    match r {
        Some((v, e)) => Some((v, e as int)),
        None => None,
    }
}

pub(crate) fn is_space_byte(c: u8) -> (r: bool)
    ensures
        r == is_space(c),
{
    c == 0x20 || c == 0x09 || c == 0x0d || c == 0x0a
}

/// Skips white space from position `i`.
pub(crate) fn skip_ws_at(b: &[u8], i: usize) -> (r: usize)
    requires
        i <= b@.len(),
    ensures
        r == skip_ws(b@, i as int),
        i <= r <= b@.len(),
{
    let mut j = i;
    while j < b.len() && is_space_byte(b[j])
        invariant
            i <= j <= b@.len(),
            skip_ws(b@, i as int) == skip_ws(b@, j as int),
        decreases b@.len() - j,
    {
        j = j + 1;
    }
    j
}

/// Tells whether the byte `c` stands at position `i`.
pub(crate) fn byte_is(b: &[u8], i: usize, c: u8) -> (r: bool)
    ensures
        r == byte_at(b@, i as int, c),
        r ==> i < b.len(),
{
    i < b.len() && b[i] == c
}

/// The subfield codes from `lo` to `hi`, in the order of their bytes.
pub open spec fn code_range(lo: u8, hi: u8) -> Seq<u8> {
    Seq::new((hi - lo + 1) as nat, |k: int| (lo + k) as u8)
}

/// All subfield codes: digits, lower-case letters, upper-case letters.
pub open spec fn all_codes() -> Seq<u8> {
    code_range(0x30, 0x39) + code_range(0x61, 0x7a) + code_range(0x41, 0x5a)
}

/// Two codes of one class: both digits, both lower-case letters, or both
/// upper-case letters.
pub open spec fn same_class(a: u8, b: u8) -> bool {
    (is_digit(a) && is_digit(b)) || (is_lower(a) && is_lower(b)) || (is_upper(a) && is_upper(b))
}

/// One item of a list of codes at `i`: a range `a-c` of codes of one class
/// whose first code is below its last, or a single code.
pub open spec fn code_item(b: Seq<u8>, i: int) -> Option<(Seq<u8>, int)> {
    if 0 <= i && i + 2 < b.len() && same_class(b[i], b[i + 2]) && b[i + 1] == 0x2d
        && b[i] < b[i + 2] {
        Some((code_range(b[i], b[i + 2]), i + 3))
    } else if 0 <= i < b.len() && is_subfield_code(b[i]) {
        Some((seq![b[i]], i + 1))
    } else {
        None
    }
}

/// The items of a list of codes from `i` on, as many as there are.
pub open spec fn code_items(b: Seq<u8>, i: int) -> (Seq<u8>, int)
    decreases b.len() - i,
{
    match code_item(b, i) {
        Some((s, j)) => if j > i {
            let (rest, k) = code_items(b, j);
            (s + rest, k)
        } else {
            (Seq::empty(), i)
        },
        None => (Seq::empty(), i),
    }
}

/// Subfield codes at `i`: a list in brackets of at least one item, a
/// single code, or `*` for all codes.
pub open spec fn codes_at(b: Seq<u8>, i: int) -> Option<(Seq<u8>, int)> {
    if byte_at(b, i, 0x5b) {
        match code_item(b, i + 1) {
            Some((first, j)) => {
                let (rest, k) = code_items(b, j);
                if byte_at(b, k, 0x5d) {
                    Some((first + rest, k + 1))
                } else {
                    None
                }
            },
            None => None,
        }
    } else if 0 <= i < b.len() && is_subfield_code(b[i]) {
        Some((seq![b[i]], i + 1))
    } else if byte_at(b, i, 0x2a) {
        Some((all_codes(), i + 1))
    } else {
        None
    }
}

pub(crate) fn is_code_byte(c: u8) -> (r: bool)
    ensures
        r == is_subfield_code(c),
{
    (0x30 <= c && c <= 0x39) || (0x61 <= c && c <= 0x7a) || (0x41 <= c && c <= 0x5a)
}

/// Tells whether the two codes are of one class.
fn same_class_bytes(a: u8, b: u8) -> (r: bool)
    ensures
        r == same_class(a, b),
{
    (0x30 <= a && a <= 0x39 && 0x30 <= b && b <= 0x39) || (0x61 <= a && a <= 0x7a && 0x61 <= b && b
        <= 0x7a) || (0x41 <= a && a <= 0x5a && 0x41 <= b && b <= 0x5a)
}

/// Every code that a list of codes stands for is a subfield code, an ASCII
/// letter or digit.
pub proof fn law_codes_are_codes(b: Seq<u8>, i: int)
    ensures
        codes_at(b, i) matches Some((s, _)) ==> forall|k: int|
            0 <= k < s.len() ==> is_subfield_code(#[trigger] s[k]),
{
    if byte_at(b, i, 0x5b) {
        if let Some((first, j)) = code_item(b, i + 1) {
            lemma_code_item_codes(b, i + 1);
            lemma_code_items_codes(b, j);
            let (rest, k) = code_items(b, j);
            assert forall|k: int| 0 <= k < (first + rest).len() implies is_subfield_code(
                #[trigger] (first + rest)[k],
            ) by {
                if k < first.len() {
                    assert((first + rest)[k] == first[k]);
                } else {
                    assert((first + rest)[k] == rest[k - first.len()]);
                }
            }
        }
    } else if byte_at(b, i, 0x2a) {
        let a = all_codes();
        assert forall|k: int| 0 <= k < a.len() implies is_subfield_code(#[trigger] a[k]) by {
            let d = code_range(0x30, 0x39);
            let l = code_range(0x61, 0x7a);
            if k < 10 {
                assert(a[k] == d[k]);
            } else if k < 36 {
                assert(a[k] == l[k - 10]);
            } else {
                assert(a[k] == code_range(0x41, 0x5a)[k - 36]);
            }
        }
    }
}

proof fn lemma_code_item_codes(b: Seq<u8>, i: int)
    ensures
        code_item(b, i) matches Some((s, _)) ==> forall|k: int|
            0 <= k < s.len() ==> is_subfield_code(#[trigger] s[k]),
{
    if let Some((s, j)) = code_item(b, i) {
        assert forall|k: int| 0 <= k < s.len() implies is_subfield_code(#[trigger] s[k]) by {
            if j == i + 3 {
                assert(s[k] == (b[i] + k) as u8);
            }
        }
    }
}

proof fn lemma_code_items_codes(b: Seq<u8>, i: int)
    ensures
        forall|k: int|
            0 <= k < code_items(b, i).0.len() ==> is_subfield_code(#[trigger] code_items(b, i).0[k]),
    decreases b.len() - i,
{
    if let Some((s, j)) = code_item(b, i) {
        if j > i {
            lemma_code_item_codes(b, i);
            lemma_code_items_codes(b, j);
            let (rest, k2) = code_items(b, j);
            assert forall|k: int| 0 <= k < (s + rest).len() implies is_subfield_code(
                #[trigger] (s + rest)[k],
            ) by {
                if k < s.len() {
                    assert((s + rest)[k] == s[k]);
                } else {
                    assert((s + rest)[k] == rest[k - s.len()]);
                }
            }
        }
    }
}

/// Appends the bytes from `lo` to `hi`.
fn push_range(out: &mut Vec<u8>, lo: u8, hi: u8)
    requires
        lo <= hi,
    ensures
        final(out)@ == old(out)@ + code_range(lo, hi),
{
    let ghost start = out@;
    let mut c: u8 = lo;
    loop
        invariant
            lo <= c <= hi,
            start == old(out)@,
            out@ == start + code_range(lo, hi).take(c - lo),
        decreases hi - c,
    {
        let ghost prev = out@;
        out.push(c);
        assert(code_range(lo, hi).take(c - lo + 1) =~= code_range(lo, hi).take(c - lo).push(c));
        assert(out@ =~= start + code_range(lo, hi).take(c - lo + 1));
        if c == hi {
            assert(code_range(lo, hi).take(c - lo + 1) =~= code_range(lo, hi));
            return;
        }
        c = c + 1;
    }
}

/// Reads one item of a list of codes at `i` and appends its codes.
fn parse_code_item(b: &[u8], i: usize, out: &mut Vec<u8>) -> (r: Option<usize>)
    ensures
        match code_item(b@, i as int) {
            Some((s, j)) => r matches Some(e) && e == j && final(out)@ == old(out)@ + s,
            None => r is None && final(out)@ == old(out)@,
        },
{
    if i < b.len() && b.len() - i > 2 && same_class_bytes(b[i], b[i + 2]) && b[i + 1] == 0x2d
        && b[i] < b[i + 2] {
        push_range(out, b[i], b[i + 2]);
        Some(i + 3)
    } else if i < b.len() && is_code_byte(b[i]) {
        out.push(b[i]);
        Some(i + 1)
    } else {
        None
    }
}

/// Reads the items of a list of codes from `i` on and appends their
/// codes.
fn parse_code_items(b: &[u8], i: usize, out: &mut Vec<u8>) -> (r: usize)
    ensures
        r == code_items(b@, i as int).1,
        final(out)@ == old(out)@ + code_items(b@, i as int).0,
    decreases b@.len() - i,
{
    let ghost before = out@;
    match parse_code_item(b, i, out) {
        Some(j) => {
            let ghost item = code_item(b@, i as int).unwrap().0;
            assert(code_item(b@, i as int) == Some((item, j as int)));
            assert(i < j <= b@.len());
            let ghost mid = out@;
            let k = parse_code_items(b, j, out);
            assert(out@ =~= before + (item + code_items(b@, j as int).0));
            k
        },
        None => {
            assert(out@ =~= before + code_items(b@, i as int).0);
            i
        },
    }
}

/// Reads subfield codes at `i`.
pub(crate) fn parse_codes(b: &[u8], i: usize) -> (r: Option<(Vec<u8>, usize)>)
    ensures
        match codes_at(b@, i as int) {
            Some((s, j)) => r matches Some((v, e)) && v@ == s && e == j,
            None => r is None,
        },
{
    let mut out: Vec<u8> = Vec::new();
    if byte_is(b, i, 0x5b) {
        match parse_code_item(b, i + 1, &mut out) {
            Some(j0) => {
                let j = parse_code_items(b, j0, &mut out);
                if byte_is(b, j, 0x5d) {
                    Some((out, j + 1))
                } else {
                    None
                }
            },
            None => None,
        }
    } else if i < b.len() && is_code_byte(b[i]) {
        out.push(b[i]);
        assert(out@ =~= seq![b@[i as int]]);
        Some((out, i + 1))
    } else if byte_is(b, i, 0x2a) {
        push_range(&mut out, 0x30, 0x39);
        push_range(&mut out, 0x61, 0x7a);
        push_range(&mut out, 0x41, 0x5a);
        assert(out@ =~= all_codes());
        Some((out, i + 1))
    } else {
        None
    }
}


/// White space is skipped forward, up to the end.
pub proof fn lemma_skip_ws(b: Seq<u8>, i: int)
    requires
        0 <= i,
    ensures
        i <= skip_ws(b, i),
        i <= b.len() ==> skip_ws(b, i) <= b.len(),
    decreases b.len() - i,
{
    if 0 <= i < b.len() && is_space(b[i]) {
        lemma_skip_ws(b, i + 1);
    }
}

/// Skipping white space keeps the order of positions.
pub proof fn lemma_skip_ws_mono(b: Seq<u8>, i: int, j: int)
    requires
        0 <= i <= j,
    ensures
        skip_ws(b, i) <= skip_ws(b, j),
    decreases b.len() - i,
{
    lemma_skip_ws(b, j);
    if 0 <= i < b.len() && is_space(b[i]) && i < j {
        lemma_skip_ws_mono(b, i + 1, j);
    }
}

/// The byte that an escape sequence `\c` stands for in a string quoted by
/// `quote`.
pub open spec fn escape_byte(c: u8, quote: u8) -> Option<u8> {
    if c == 0x6e {
        Some(0x0a)
    } else if c == 0x72 {
        Some(0x0d)
    } else if c == 0x74 {
        Some(0x09)
    } else if c == 0x62 {
        Some(0x08)
    } else if c == 0x66 {
        Some(0x0c)
    } else if c == 0x5c {
        Some(0x5c)
    } else if c == 0x2f {
        Some(0x2f)
    } else if c == quote {
        Some(quote)
    } else {
        None
    }
}

/// The rest of a string quoted by `quote` from `i` on, up to and including
/// the closing quote: other bytes stand for themselves, an escape sequence
/// for its byte, and a backslash followed by white space for nothing.
pub open spec fn quoted_rest(b: Seq<u8>, i: int, quote: u8) -> Option<(Seq<u8>, int)>
    decreases b.len() - i,
{
    if !(0 <= i < b.len()) {
        None
    } else if b[i] == quote {
        Some((Seq::empty(), i + 1))
    } else if b[i] == 0x5c {
        if i + 1 < b.len() && escape_byte(b[i + 1], quote) is Some {
            match quoted_rest(b, i + 2, quote) {
                Some((s, j)) => Some((seq![escape_byte(b[i + 1], quote).unwrap()] + s, j)),
                None => None,
            }
        } else if i + 1 < b.len() && is_space(b[i + 1]) {
            proof {
                lemma_skip_ws(b, i + 1);
            }
            quoted_rest(b, skip_ws(b, i + 1), quote)
        } else {
            None
        }
    } else {
        match quoted_rest(b, i + 1, quote) {
            Some((s, j)) => Some((seq![b[i]] + s, j)),
            None => None,
        }
    }
}

/// A string in single or double quotes at `i`, whose bytes are valid
/// UTF-8.
pub open spec fn string_at(b: Seq<u8>, i: int) -> Option<(Seq<u8>, int)> {
    let r = if byte_at(b, i, 0x27) {
        quoted_rest(b, i + 1, 0x27)
    } else if byte_at(b, i, 0x22) {
        quoted_rest(b, i + 1, 0x22)
    } else {
        None
    };
    match r {
        Some((s, j)) => if valid_utf8(s) {
            Some((s, j))
        } else {
            None
        },
        None => None,
    }
}

/// The result of a parse with bytes put in front of its value.
pub open spec fn prepend(acc: Seq<u8>, r: Option<(Seq<u8>, int)>) -> Option<(Seq<u8>, int)> {
    match r {
        Some((s, j)) => Some((acc + s, j)),
        None => None,
    }
}

fn escape_byte_of(c: u8, quote: u8) -> (r: Option<u8>)
    ensures
        r == escape_byte(c, quote),
{
    if c == 0x6e {
        Some(0x0a)
    } else if c == 0x72 {
        Some(0x0d)
    } else if c == 0x74 {
        Some(0x09)
    } else if c == 0x62 {
        Some(0x08)
    } else if c == 0x66 {
        Some(0x0c)
    } else if c == 0x5c {
        Some(0x5c)
    } else if c == 0x2f {
        Some(0x2f)
    } else if c == quote {
        Some(quote)
    } else {
        None
    }
}

/// Reads the rest of a quoted string from `i` on.
fn parse_quoted_rest(b: &[u8], i: usize, quote: u8) -> (r: Option<(Vec<u8>, usize)>)
    ensures
        match quoted_rest(b@, i as int, quote) {
            Some((s, j)) => r matches Some((v, e)) && v@ == s && e == j,
            None => r is None,
        },
{
    let mut out: Vec<u8> = Vec::new();
    let mut k = i;
    loop
        invariant
            i <= k,
            quoted_rest(b@, i as int, quote) == prepend(out@, quoted_rest(b@, k as int, quote)),
        decreases b@.len() - k,
    {
        if k >= b.len() {
            return None;
        }
        let c = b[k];
        if c == quote {
            assert(out@ + Seq::<u8>::empty() =~= out@);
            return Some((out, k + 1));
        } else if c == 0x5c {
            if k + 1 < b.len() {
                match escape_byte_of(b[k + 1], quote) {
                    Some(e) => {
                        proof {
                            match quoted_rest(b@, k + 2, quote) {
                                Some((s, j)) => {
                                    assert(out@.push(e) + s =~= out@ + (seq![e] + s));
                                },
                                None => {},
                            }
                        }
                        out.push(e);
                        k = k + 2;
                    },
                    None => {
                        if is_space_byte(b[k + 1]) {
                            proof {
                                lemma_skip_ws(b@, k + 1);
                            }
                            k = skip_ws_at(b, k + 1);
                        } else {
                            return None;
                        }
                    },
                }
            } else {
                return None;
            }
        } else {
            proof {
                match quoted_rest(b@, k + 1, quote) {
                    Some((s, j)) => {
                        assert(out@.push(c) + s =~= out@ + (seq![c] + s));
                    },
                    None => {},
                }
            }
            out.push(c);
            k = k + 1;
        }
    }
}

/// Reads a string in single or double quotes at `i` whose bytes are valid
/// UTF-8.
pub fn parse_string(b: &[u8], i: usize) -> (r: Option<(Vec<u8>, usize)>)
    ensures
        match string_at(b@, i as int) {
            Some((s, j)) => r matches Some((v, e)) && v@ == s && e == j,
            None => r is None,
        },
{
    let r = if byte_is(b, i, 0x27) {
        parse_quoted_rest(b, i + 1, 0x27)
    } else if byte_is(b, i, 0x22) {
        parse_quoted_rest(b, i + 1, 0x22)
    } else {
        None
    };
    match r {
        Some((v, e)) => match check_utf8(v.as_slice()) {
            Ok(()) => Some((v, e)),
            Err(_) => None,
        },
        None => None,
    }
}

} // verus!
