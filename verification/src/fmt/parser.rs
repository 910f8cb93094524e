//! Reading formats from their text.
//!
//! The parsers keep a count of the groups they have entered and not left:
//! entering a group adds one, and a group that ends with `)` takes it off
//! again. A group that is entered with a count of 31 or more is refused,
//! and so, once enough groups have failed to close, no group is read.
use vstd::prelude::*;

use super::{lemma_nodes_of, no_modifier, node_of, nodes_of, value_spec, FormatNode, Fragments, Group, Modifier, Value, ValueSpec};
use crate::matcher::occurrence::{occurrence_matcher_at, OccurrenceAst};
use crate::matcher::subfield::codes_from_bytes;
use crate::matcher::subfield::parser::{raw_chars, subfield_matcher_at, SubfieldAst};
use crate::matcher::tag::{tag_matcher_at, TagAst};
use crate::matcher::subfield::parser::{
    digits_end, digits_value, lemma_codes_end, lemma_digits_end, lemma_string_end, parse_number,
};
use crate::parser::{byte_at, byte_is, codes_at, lemma_skip_ws, parse_codes, parse_string, skip_ws, skip_ws_at, string_at};

verus! {

/// The modifier flags: `l`, `u`, `t`, `w` and `o`.
pub open spec fn is_flag(c: u8) -> bool {
    c == 0x6c || c == 0x75 || c == 0x74 || c == 0x77 || c == 0x6f
}

/// The modifier with the flag set.
pub open spec fn with_flag(m: Modifier, c: u8) -> Modifier {
    if c == 0x6c {
        Modifier { lowercase: true, ..m }
    } else if c == 0x75 {
        Modifier { uppercase: true, ..m }
    } else if c == 0x74 {
        Modifier { trim: true, ..m }
    } else if c == 0x77 {
        Modifier { remove_ws: true, ..m }
    } else {
        Modifier { strip_overread_char: true, ..m }
    }
}

/// The flags from `i` on, set in `m`; where they end.
pub open spec fn flags_rest(b: Seq<u8>, i: int, m: Modifier) -> (Modifier, int)
    decreases b.len() - i,
{
    if 0 <= i < b.len() && is_flag(b[i]) {
        flags_rest(b, i + 1, with_flag(m, b[i]))
    } else {
        (m, i)
    }
}

/// A modifier at `i`: `?` and one or more flags; where there is none, the
/// modifier that changes nothing.
pub open spec fn modifier_at(b: Seq<u8>, i: int) -> (Modifier, int) {
    if byte_at(b, i, 0x3f) && i + 1 < b.len() && is_flag(b[i + 1]) {
        flags_rest(b, i + 1, no_modifier())
    } else {
        (no_modifier(), i)
    }
}

/// A bound at `p`: `..` and a number that fits in a `usize`, or `..`
/// alone for no bound, or nothing for `default`.
pub open spec fn bounds_at(b: Seq<u8>, p: int, default: usize) -> (usize, int) {
    if byte_at(b, p, 0x2e) && byte_at(b, p + 1, 0x2e) {
        let d = p + 2;
        let de = digits_end(b, d);
        if de > d && digits_value(b.subrange(d, de)) <= usize::MAX {
            (digits_value(b.subrange(d, de)) as usize, de)
        } else {
            (usize::MAX, d)
        }
    } else {
        (default, p)
    }
}

/// An optional quoted string at `p`, with white space around it.
pub open spec fn opt_string_at(b: Seq<u8>, p: int) -> (Option<Seq<u8>>, int) {
    match string_at(b, skip_ws(b, p)) {
        Some((s, e)) => (Some(s), skip_ws(b, e)),
        None => (None, p),
    }
}

/// A value at `i`: an optional modifier and prefix, subfield codes, an
/// optional bound and suffix.
pub open spec fn value_at(b: Seq<u8>, i: int) -> Option<(ValueSpec, int)> {
    let (m, p1) = modifier_at(b, skip_ws(b, i));
    let (prefix, p3) = opt_string_at(b, skip_ws(b, p1));
    match codes_at(b, p3) {
        Some((codes, p4)) => {
            let (bound, p5) = bounds_at(b, p4, 1);
            let (suffix, p6) = opt_string_at(b, p5);
            Some((ValueSpec { codes, prefix, suffix, bound, modifier: m }, p6))
        },
        None => None,
    }
}

/// The count of open groups after one more is entered.
pub open spec fn level_inc(l: u32) -> u32 {
    if l < u32::MAX {
        (l + 1) as u32
    } else {
        l
    }
}

/// The count of open groups after one is left.
pub open spec fn level_dec(l: u32) -> u32 {
    if l > 0 {
        (l - 1) as u32
    } else {
        l
    }
}

/// What a parser gives: what it read and where that ends, if anything;
/// and the count of open groups after it.
pub type Parsed = (Option<(FormatNode, int)>, u32);

/// What stands in a group from `q` on: a list, or else a value, with
/// white space after it.
pub open spec fn group_inner_at(b: Seq<u8>, q: int, l: u32) -> Parsed
    decreases b.len() - q, 7int,
{
    let (r, l2) = list_at(b, q, l);
    match r {
        Some((n, e)) => (Some((n, skip_ws(b, e))), l2),
        None => match value_at(b, q) {
            Some((v, e)) => (Some((FormatNode::Value(v), skip_ws(b, e))), l2),
            None => (None, l2),
        },
    }
}

/// A group at `i`: `(`, an optional modifier, a list or a value, `)` and
/// an optional bound, with white space around the brackets.
pub open spec fn group_at(b: Seq<u8>, i: int, l: u32) -> Parsed
    decreases b.len() - i, 1int,
{
    let p0 = skip_ws(b, i);
    if !(0 <= i <= p0 && byte_at(b, p0, 0x28)) {
        (None, l)
    } else {
        let l1 = level_inc(l);
        if l1 >= 32 {
            (None, l1)
        } else {
            let (m, p2) = modifier_at(b, skip_ws(b, p0 + 1));
            let q = skip_ws(b, p2);
            if !(p0 < q <= b.len()) {
                (None, l1)
            } else {
                let (inner, l2) = group_inner_at(b, q, l1);
                match inner {
                    Some((n, e)) => {
                        let c = skip_ws(b, e);
                        if byte_at(b, c, 0x29) {
                            let (bound, e2) = bounds_at(b, skip_ws(b, c + 1), usize::MAX);
                            (Some((FormatNode::Group(Box::new(n), bound, m), e2)), level_dec(l2))
                        } else {
                            (None, l2)
                        }
                    },
                    None => (None, l2),
                }
            }
        }
    }
}

/// A part of a `<$>` list at `i`: a group or a value.
pub open spec fn and_then_item_at(b: Seq<u8>, i: int, l: u32) -> Parsed
    decreases b.len() - i, 2int,
{
    if !(0 <= i <= b.len()) {
        (None, l)
    } else {
        let (g, l1) = group_at(b, i, l);
        match g {
            Some(x) => (Some(x), l1),
            None => match value_at(b, i) {
                Some((v, e)) => (Some((FormatNode::Value(v), e)), l1),
                None => (None, l1),
            },
        }
    }
}

/// The parts of a `<$>` list after the one that ends at `e`, each behind
/// `<$>`; where they end, and the count of open groups after them.
pub open spec fn and_then_rest(b: Seq<u8>, e: int, l: u32) -> (Seq<FormatNode>, int, u32)
    decreases b.len() - e, 0int,
{
    let p = skip_ws(b, e);
    if !(0 <= e <= p && byte_at(b, p, 0x3c) && byte_at(b, p + 1, 0x24) && byte_at(b, p + 2, 0x3e)) {
        (Seq::empty(), e, l)
    } else {
        let q = skip_ws(b, p + 3);
        if !(e < q <= b.len()) {
            (Seq::empty(), e, l)
        } else {
            let (r, l1) = and_then_item_at(b, q, l);
            match r {
                Some((n, e1)) => if q <= e1 <= b.len() {
                    let (ns, end, l2) = and_then_rest(b, e1, l1);
                    (seq![n] + ns, end, l2)
                } else {
                    (Seq::empty(), e, l1)
                },
                None => (Seq::empty(), e, l1),
            }
        }
    }
}

/// A `<$>` list at `i`: two or more groups or values joined by `<$>`.
pub open spec fn and_then_at(b: Seq<u8>, i: int, l: u32) -> Parsed
    decreases b.len() - i, 3int,
{
    let (r, l1) = and_then_item_at(b, i, l);
    match r {
        Some((n, e)) => if i <= e <= b.len() {
            let (ns, end, l2) = and_then_rest(b, e, l1);
            if ns.len() > 0 {
                (Some((FormatNode::AndThen(seq![n] + ns), end)), l2)
            } else {
                (None, l2)
            }
        } else {
            (None, l1)
        },
        None => (None, l1),
    }
}

/// A part of a `<*>` list at `i`: a `<$>` list, a group or a value.
pub open spec fn cons_item_at(b: Seq<u8>, i: int, l: u32) -> Parsed
    decreases b.len() - i, 4int,
{
    let (a, l1) = and_then_at(b, i, l);
    match a {
        Some(x) => (Some(x), l1),
        None => and_then_item_at(b, i, l1),
    }
}

/// The parts of a `<*>` list after the one that ends at `e`, each behind
/// `<*>`; where they end, and the count of open groups after them.
pub open spec fn cons_rest(b: Seq<u8>, e: int, l: u32) -> (Seq<FormatNode>, int, u32)
    decreases b.len() - e, 0int,
{
    let p = skip_ws(b, e);
    if !(0 <= e <= p && byte_at(b, p, 0x3c) && byte_at(b, p + 1, 0x2a) && byte_at(b, p + 2, 0x3e)) {
        (Seq::empty(), e, l)
    } else {
        let q = skip_ws(b, p + 3);
        if !(e < q <= b.len()) {
            (Seq::empty(), e, l)
        } else {
            let (r, l1) = cons_item_at(b, q, l);
            match r {
                Some((n, e1)) => if q <= e1 <= b.len() {
                    let (ns, end, l2) = cons_rest(b, e1, l1);
                    (seq![n] + ns, end, l2)
                } else {
                    (Seq::empty(), e, l1)
                },
                None => (Seq::empty(), e, l1),
            }
        }
    }
}

/// A `<*>` list at `i`: two or more `<$>` lists, groups or values joined
/// by `<*>`.
pub open spec fn cons_at(b: Seq<u8>, i: int, l: u32) -> Parsed
    decreases b.len() - i, 5int,
{
    let (r, l1) = cons_item_at(b, i, l);
    match r {
        Some((n, e)) => if i <= e <= b.len() {
            let (ns, end, l2) = cons_rest(b, e, l1);
            if ns.len() > 0 {
                (Some((FormatNode::Cons(seq![n] + ns), end)), l2)
            } else {
                (None, l2)
            }
        } else {
            (None, l1)
        },
        None => (None, l1),
    }
}

/// A list at `i`: a `<*>` list, or else a `<$>` list.
pub open spec fn list_at(b: Seq<u8>, i: int, l: u32) -> Parsed
    decreases b.len() - i, 6int,
{
    let (r, l1) = cons_at(b, i, l);
    match r {
        Some(x) => (Some(x), l1),
        None => and_then_at(b, i, l1),
    }
}

/// The fragments of a format at `i`: a list, a group or a value, with
/// white space around it.
pub open spec fn fragments_at(b: Seq<u8>, i: int) -> Option<(FormatNode, int)> {
    let q = skip_ws(b, i);
    if !(0 <= q <= b.len()) {
        None
    } else {
        let (r, l1) = list_at(b, q, 0);
        match r {
            Some((n, e)) => Some((n, skip_ws(b, e))),
            None => match group_at(b, q, l1).0 {
                Some((n, e)) => Some((n, skip_ws(b, e))),
                None => match value_at(b, q) {
                    Some((v, e)) => Some((FormatNode::Value(v), skip_ws(b, e))),
                    None => None,
                },
            },
        }
    }
}

/// Flags end within the bytes.
proof fn lemma_flags_end(b: Seq<u8>, i: int, m: Modifier)
    requires
        0 <= i <= b.len(),
    ensures
        i <= flags_rest(b, i, m).1 <= b.len(),
    decreases b.len() - i,
{
    if 0 <= i < b.len() && is_flag(b[i]) {
        lemma_flags_end(b, i + 1, with_flag(m, b[i]));
    }
}

/// The parts of a value end within the bytes.
proof fn lemma_value_parts(b: Seq<u8>, i: int)
    requires
        0 <= i <= b.len(),
    ensures
        i <= modifier_at(b, i).1 <= b.len(),
        i <= opt_string_at(b, i).1 <= b.len(),
        forall|d: usize| i <= (#[trigger] bounds_at(b, i, d)).1 <= b.len(),
        value_at(b, i) matches Some((v, e)) ==> i <= e <= b.len(),
{
    if byte_at(b, i, 0x3f) && i + 1 < b.len() && is_flag(b[i + 1]) {
        lemma_flags_end(b, i + 1, no_modifier());
    }
    lemma_skip_ws(b, i);
    lemma_string_end(b, skip_ws(b, i));
    if let Some((s, e)) = string_at(b, skip_ws(b, i)) {
        lemma_skip_ws(b, e);
    }
    if byte_at(b, i, 0x2e) && byte_at(b, i + 1, 0x2e) {
        lemma_digits_end(b, i + 2);
    }
    let p0 = skip_ws(b, i);
    if byte_at(b, p0, 0x3f) && p0 + 1 < b.len() && is_flag(b[p0 + 1]) {
        lemma_flags_end(b, p0 + 1, no_modifier());
    }
    let (m, p1) = modifier_at(b, p0);
    lemma_skip_ws(b, p1);
    let p2 = skip_ws(b, p1);
    lemma_skip_ws(b, p2);
    lemma_string_end(b, skip_ws(b, p2));
    if let Some((s, e)) = string_at(b, skip_ws(b, p2)) {
        lemma_skip_ws(b, e);
    }
    let (prefix, p3) = opt_string_at(b, p2);
    lemma_codes_end(b, p3);
    if let Some((codes, p4)) = codes_at(b, p3) {
        if byte_at(b, p4, 0x2e) && byte_at(b, p4 + 1, 0x2e) {
            lemma_digits_end(b, p4 + 2);
        }
        let (bound, p5) = bounds_at(b, p4, 1);
        lemma_skip_ws(b, p5);
        lemma_string_end(b, skip_ws(b, p5));
        if let Some((s, e)) = string_at(b, skip_ws(b, p5)) {
            lemma_skip_ws(b, e);
        }
    }
}

/// Reads the flags from `i` on into `m`.
fn parse_flags(b: &[u8], i: usize, m: Modifier) -> (r: (Modifier, usize))
    requires
        i <= b@.len(),
    ensures
        (r.0, r.1 as int) == flags_rest(b@, i as int, m),
    decreases b@.len() - i,
{
    if i < b.len() {
        let c = b[i];
        if c == 0x6c || c == 0x75 || c == 0x74 || c == 0x77 || c == 0x6f {
            let m2 = if c == 0x6c {
                Modifier { lowercase: true, ..m }
            } else if c == 0x75 {
                Modifier { uppercase: true, ..m }
            } else if c == 0x74 {
                Modifier { trim: true, ..m }
            } else if c == 0x77 {
                Modifier { remove_ws: true, ..m }
            } else {
                Modifier { strip_overread_char: true, ..m }
            };
            return parse_flags(b, i + 1, m2);
        }
    }
    (m, i)
}

/// Reads a modifier at `i`.
pub fn parse_modifier(b: &[u8], i: usize) -> (r: (Modifier, usize))
    requires
        i <= b@.len(),
    ensures
        (r.0, r.1 as int) == modifier_at(b@, i as int),
{
    if byte_is(b, i, 0x3f) && i + 1 < b.len() {
        let c = b[i + 1];
        if c == 0x6c || c == 0x75 || c == 0x74 || c == 0x77 || c == 0x6f {
            return parse_flags(b, i + 1, Modifier::none());
        }
    }
    (Modifier::none(), i)
}

/// Reads a bound at `p`.
fn parse_bounds(b: &[u8], p: usize, default: usize) -> (r: (usize, usize))
    requires
        p <= b@.len(),
    ensures
        (r.0, r.1 as int) == bounds_at(b@, p as int, default),
{
    if byte_is(b, p, 0x2e) && byte_is(b, p + 1, 0x2e) {
        match parse_number(b, p + 2) {
            Some((n, e)) => (n, e),
            None => (usize::MAX, p + 2),
        }
    } else {
        (default, p)
    }
}

/// Reads an optional quoted string at `p`.
fn parse_opt_string(b: &[u8], p: usize) -> (r: (Option<Vec<u8>>, usize))
    requires
        p <= b@.len(),
    ensures
        (super::opt_view(r.0), r.1 as int) == opt_string_at(b@, p as int),
{
    let q = skip_ws_at(b, p);
    proof {
        lemma_string_end(b@, q as int);
    }
    match parse_string(b, q) {
        Some((s, e)) => (Some(s), skip_ws_at(b, e)),
        None => (None, p),
    }
}

/// Reads a value at `i`.
pub fn parse_value(b: &[u8], i: usize) -> (r: Option<(Value, usize)>)
    requires
        i <= b@.len(),
    ensures
        match value_at(b@, i as int) {
            Some((v, e)) => r matches Some((x, k)) && value_spec(x) == v && k == e,
            None => r is None,
        },
{
    let p0 = skip_ws_at(b, i);
    proof {
        lemma_value_parts(b@, p0 as int);
    }
    let (m, p1) = parse_modifier(b, p0);
    let p2 = skip_ws_at(b, p1);
    proof {
        lemma_value_parts(b@, p2 as int);
    }
    let (prefix, p3) = parse_opt_string(b, p2);
    proof {
        lemma_codes_end(b@, p3 as int);
    }
    match parse_codes(b, p3) {
        Some((c, p4)) => {
            proof {
                lemma_value_parts(b@, p4 as int);
            }
            let (bound, p5) = parse_bounds(b, p4, 1);
            proof {
                lemma_value_parts(b@, p5 as int);
            }
            let (suffix, p6) = parse_opt_string(b, p5);
            let codes = codes_from_bytes(c.as_slice());
            Some((Value { codes, prefix, suffix, bounds: bound, modifier: m }, p6))
        },
        None => None,
    }
}

/// The fragment read is the one the parser's model reads.
pub open spec fn matches_parsed(r: Option<(Fragments, usize)>, p: Option<(FormatNode, int)>) -> bool {
    match p {
        Some((n, e)) => r matches Some((f, k)) && node_of(f) == n && k == e,
        None => r is None,
    }
}

/// Putting a fragment in front of a list puts its view in front.
proof fn lemma_nodes_of_cons(f: Fragments, before: Seq<Fragments>, after: Seq<Fragments>)
    requires
        after == seq![f] + before,
    ensures
        nodes_of(after) == seq![node_of(f)] + nodes_of(before),
{
    lemma_nodes_of(before);
    lemma_nodes_of(after);
    assert forall|j: int| 0 <= j < after.len() implies #[trigger] nodes_of(after)[j] == (seq![node_of(f)]
        + nodes_of(before))[j] by {
        if j > 0 {
            assert(after[j] == before[j - 1]);
        }
    }
    assert(nodes_of(after) =~= seq![node_of(f)] + nodes_of(before));
}

/// Reads what stands in a group from `q` on.
fn parse_group_inner(b: &[u8], q: usize, lvl: &mut u32) -> (r: Option<(Fragments, usize)>)
    requires
        q <= b@.len(),
    ensures
        matches_parsed(r, group_inner_at(b@, q as int, *old(lvl)).0),
        *final(lvl) == group_inner_at(b@, q as int, *old(lvl)).1,
        r matches Some((_, k)) ==> q <= k <= b@.len(),
    decreases b@.len() - q, 7int,
{
    match parse_list(b, q, lvl) {
        Some((n, e)) => {
            proof {
                lemma_skip_ws(b@, e as int);
            }
            Some((n, skip_ws_at(b, e)))
        },
        None => {
            proof {
                lemma_value_parts(b@, q as int);
            }
            match parse_value(b, q) {
                Some((v, e)) => {
                    proof {
                        lemma_skip_ws(b@, e as int);
                    }
                    Some((Fragments::Value(v), skip_ws_at(b, e)))
                },
                None => None,
            }
        },
    }
}

/// Reads a group at `i`.
pub fn parse_group(b: &[u8], i: usize, lvl: &mut u32) -> (r: Option<(Fragments, usize)>)
    requires
        i <= b@.len(),
    ensures
        matches_parsed(r, group_at(b@, i as int, *old(lvl)).0),
        *final(lvl) == group_at(b@, i as int, *old(lvl)).1,
        r matches Some((_, k)) ==> i <= k <= b@.len(),
    decreases b@.len() - i, 1int,
{
    let p0 = skip_ws_at(b, i);
    if !byte_is(b, p0, 0x28) {
        return None;
    }
    let l1 = if *lvl < u32::MAX {
        *lvl + 1
    } else {
        *lvl
    };
    *lvl = l1;
    if l1 >= 32 {
        return None;
    }
    let p1 = skip_ws_at(b, p0 + 1);
    proof {
        lemma_value_parts(b@, p1 as int);
    }
    let (m, p2) = parse_modifier(b, p1);
    let q = skip_ws_at(b, p2);
    let inner = parse_group_inner(b, q, lvl);
    match inner {
        Some((n, e)) => {
            let c = skip_ws_at(b, e);
            if byte_is(b, c, 0x29) {
                let c1 = skip_ws_at(b, c + 1);
                proof {
                    lemma_value_parts(b@, c1 as int);
                }
                let (bound, e2) = parse_bounds(b, c1, usize::MAX);
                let l2 = *lvl;
                *lvl = if l2 > 0 {
                    l2 - 1
                } else {
                    l2
                };
                Some((Fragments::Group(Group { fragments: Box::new(n), bounds: bound, modifier: m }), e2))
            } else {
                None
            }
        },
        None => None,
    }
}

/// Reads a part of a `<$>` list at `i`.
fn parse_and_then_item(b: &[u8], i: usize, lvl: &mut u32) -> (r: Option<(Fragments, usize)>)
    requires
        i <= b@.len(),
    ensures
        matches_parsed(r, and_then_item_at(b@, i as int, *old(lvl)).0),
        *final(lvl) == and_then_item_at(b@, i as int, *old(lvl)).1,
        r matches Some((_, k)) ==> i <= k <= b@.len(),
    decreases b@.len() - i, 2int,
{
    match parse_group(b, i, lvl) {
        Some(x) => Some(x),
        None => {
            proof {
                lemma_value_parts(b@, i as int);
            }
            match parse_value(b, i) {
                Some((v, e)) => Some((Fragments::Value(v), e)),
                None => None,
            }
        },
    }
}

/// Reads the parts of a `<$>` list after the one that ends at `e`.
fn parse_and_then_rest(b: &[u8], e: usize, lvl: &mut u32) -> (r: (Vec<Fragments>, usize))
    requires
        e <= b@.len(),
    ensures
        nodes_of(r.0@) == and_then_rest(b@, e as int, *old(lvl)).0,
        r.1 == and_then_rest(b@, e as int, *old(lvl)).1,
        *final(lvl) == and_then_rest(b@, e as int, *old(lvl)).2,
        e <= r.1 <= b@.len(),
    decreases b@.len() - e, 0int,
{
    let p = skip_ws_at(b, e);
    if !(byte_is(b, p, 0x3c) && byte_is(b, p + 1, 0x24) && byte_is(b, p + 2, 0x3e)) {
        return (Vec::new(), e);
    }
    let q = skip_ws_at(b, p + 3);
    match parse_and_then_item(b, q, lvl) {
        Some((n, e1)) => {
            let (mut ns, end) = parse_and_then_rest(b, e1, lvl);
            let ghost before = ns@;
            ns.insert(0, n);
            assert(ns@ =~= seq![n] + before);
            proof {
                lemma_nodes_of_cons(n, before, ns@);
            }
            (ns, end)
        },
        None => (Vec::new(), e),
    }
}

/// Reads a `<$>` list at `i`.
pub fn parse_and_then(b: &[u8], i: usize, lvl: &mut u32) -> (r: Option<(Fragments, usize)>)
    requires
        i <= b@.len(),
    ensures
        matches_parsed(r, and_then_at(b@, i as int, *old(lvl)).0),
        *final(lvl) == and_then_at(b@, i as int, *old(lvl)).1,
        r matches Some((_, k)) ==> i <= k <= b@.len(),
    decreases b@.len() - i, 3int,
{
    match parse_and_then_item(b, i, lvl) {
        Some((n, e)) => {
            let (mut ns, end) = parse_and_then_rest(b, e, lvl);
            if ns.len() > 0 {
                let ghost before = ns@;
                ns.insert(0, n);
                assert(ns@ =~= seq![n] + before);
                proof {
                    lemma_nodes_of_cons(n, before, ns@);
                    lemma_nodes_of(before);
                }
                Some((Fragments::AndThen(ns), end))
            } else {
                proof {
                    lemma_nodes_of(ns@);
                }
                None
            }
        },
        None => None,
    }
}

/// Reads a part of a `<*>` list at `i`.
fn parse_cons_item(b: &[u8], i: usize, lvl: &mut u32) -> (r: Option<(Fragments, usize)>)
    requires
        i <= b@.len(),
    ensures
        matches_parsed(r, cons_item_at(b@, i as int, *old(lvl)).0),
        *final(lvl) == cons_item_at(b@, i as int, *old(lvl)).1,
        r matches Some((_, k)) ==> i <= k <= b@.len(),
    decreases b@.len() - i, 4int,
{
    match parse_and_then(b, i, lvl) {
        Some(x) => Some(x),
        None => parse_and_then_item(b, i, lvl),
    }
}

/// Reads the parts of a `<*>` list after the one that ends at `e`.
fn parse_cons_rest(b: &[u8], e: usize, lvl: &mut u32) -> (r: (Vec<Fragments>, usize))
    requires
        e <= b@.len(),
    ensures
        nodes_of(r.0@) == cons_rest(b@, e as int, *old(lvl)).0,
        r.1 == cons_rest(b@, e as int, *old(lvl)).1,
        *final(lvl) == cons_rest(b@, e as int, *old(lvl)).2,
        e <= r.1 <= b@.len(),
    decreases b@.len() - e, 0int,
{
    let p = skip_ws_at(b, e);
    if !(byte_is(b, p, 0x3c) && byte_is(b, p + 1, 0x2a) && byte_is(b, p + 2, 0x3e)) {
        return (Vec::new(), e);
    }
    let q = skip_ws_at(b, p + 3);
    match parse_cons_item(b, q, lvl) {
        Some((n, e1)) => {
            let (mut ns, end) = parse_cons_rest(b, e1, lvl);
            let ghost before = ns@;
            ns.insert(0, n);
            assert(ns@ =~= seq![n] + before);
            proof {
                lemma_nodes_of_cons(n, before, ns@);
            }
            (ns, end)
        },
        None => (Vec::new(), e),
    }
}

/// Reads a `<*>` list at `i`.
pub fn parse_cons(b: &[u8], i: usize, lvl: &mut u32) -> (r: Option<(Fragments, usize)>)
    requires
        i <= b@.len(),
    ensures
        matches_parsed(r, cons_at(b@, i as int, *old(lvl)).0),
        *final(lvl) == cons_at(b@, i as int, *old(lvl)).1,
        r matches Some((_, k)) ==> i <= k <= b@.len(),
    decreases b@.len() - i, 5int,
{
    match parse_cons_item(b, i, lvl) {
        Some((n, e)) => {
            let (mut ns, end) = parse_cons_rest(b, e, lvl);
            if ns.len() > 0 {
                let ghost before = ns@;
                ns.insert(0, n);
                assert(ns@ =~= seq![n] + before);
                proof {
                    lemma_nodes_of_cons(n, before, ns@);
                    lemma_nodes_of(before);
                }
                Some((Fragments::Cons(ns), end))
            } else {
                proof {
                    lemma_nodes_of(ns@);
                }
                None
            }
        },
        None => None,
    }
}

/// Reads a list at `i`.
fn parse_list(b: &[u8], i: usize, lvl: &mut u32) -> (r: Option<(Fragments, usize)>)
    requires
        i <= b@.len(),
    ensures
        matches_parsed(r, list_at(b@, i as int, *old(lvl)).0),
        *final(lvl) == list_at(b@, i as int, *old(lvl)).1,
        r matches Some((_, k)) ==> i <= k <= b@.len(),
    decreases b@.len() - i, 6int,
{
    match parse_cons(b, i, lvl) {
        Some(x) => Some(x),
        None => parse_and_then(b, i, lvl),
    }
}

/// Reads the fragments of a format at `i`.
pub(crate) fn parse_fragments(b: &[u8], i: usize) -> (r: Option<(Fragments, usize)>)
    requires
        i <= b@.len(),
    ensures
        matches_parsed(r, fragments_at(b@, i as int)),
        r matches Some((_, k)) ==> i <= k <= b@.len(),
{
    let q = skip_ws_at(b, i);
    let mut lvl: u32 = 0;
    match parse_list(b, q, &mut lvl) {
        Some((n, e)) => {
            return Some((n, skip_ws_at(b, e)));
        },
        None => {},
    }
    match parse_group(b, q, &mut lvl) {
        Some((n, e)) => {
            return Some((n, skip_ws_at(b, e)));
        },
        None => {},
    }
    proof {
        lemma_value_parts(b@, q as int);
    }
    match parse_value(b, q) {
        Some((v, e)) => Some((Fragments::Value(v), skip_ws_at(b, e))),
        None => None,
    }
}

/// What a format is read as.
pub struct FormatAst {
    pub tag: TagAst,
    pub occurrence: OccurrenceAst,
    pub subfields: Option<SubfieldAst>,
    pub fragments: FormatNode,
    pub raw: Seq<char>,
}

/// A format at the start of `b`: a tag matcher, an occurrence matcher and,
/// in braces, the fragments and, behind `|`, an optional subfield
/// matcher; what it is read as (its text without the white space at its
/// end) and where it ends.
pub open spec fn format_at(b: Seq<u8>) -> Option<(FormatAst, int)> {
    match tag_matcher_at(b, 0) {
        Some((t, p1)) => {
            let (o, p2) = occurrence_matcher_at(b, p1);
            let p3 = skip_ws(b, p2);
            if byte_at(b, p3, 0x7b) {
                match fragments_at(b, skip_ws(b, p3 + 1)) {
                    Some((n, p5)) => {
                        let s0 = skip_ws(b, p5);
                        let (sm, p6) = if byte_at(b, s0, 0x7c) {
                            match subfield_matcher_at(b, skip_ws(b, s0 + 1)) {
                                Some((m, e)) => (Some(m), e),
                                None => (None, p5),
                            }
                        } else {
                            (None, p5)
                        };
                        let c = skip_ws(b, p6);
                        if byte_at(b, c, 0x7d) {
                            Some(
                                (
                                    FormatAst {
                                        tag: t,
                                        occurrence: o,
                                        subfields: sm,
                                        fragments: n,
                                        raw: raw_chars(b, 0, c + 1),
                                    },
                                    skip_ws(b, c + 1),
                                ),
                            )
                        } else {
                            None
                        }
                    },
                    None => None,
                }
            } else {
                None
            }
        },
        None => None,
    }
}

} // verus!
