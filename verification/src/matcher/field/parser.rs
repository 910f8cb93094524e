//! Reading field matchers from their text.
use vstd::prelude::*;
use vstd::string::StringSliceAdditionalSpecFns;

use super::{
    CardinalityMatcher, ExistsMatcher, FieldMatcher, SingletonMatcher, SubfieldsMatcher,
};
use crate::matcher::error::invalid_message;
use crate::matcher::occurrence::{occurrence_ast, occurrence_matcher_at, parse_occurrence_matcher, OccurrenceAst};
use crate::matcher::operator::{op_at, parse_relational_operator, text_at, usize_applicable};
use crate::matcher::quantifier::{parse_quantifier, quantifier_at};
use crate::matcher::subfield::parser::{
    digits_end, digits_value, exists_at, lemma_digits_end, parse_exists, parse_number, parse_singleton,
    parse_subfield_matcher_at, quant_at, raw_chars, raw_text_of, singleton_at, subfield_ast,
    subfield_matcher_at, text_is, trim_end, trim_end_at, SingletonAst, SubfieldAst,
    MAX_GROUP_DEPTH,
};
use crate::matcher::subfield::{self as sub, SubfieldMatcher};
use crate::matcher::tag::{parse_tag_matcher, tag_ast, tag_matcher_at, TagAst};
use crate::matcher::{BooleanOp, OccurrenceMatcher, ParseMatcherError, Quantifier, RelationalOp, TagMatcher};
use crate::parser::{byte_at, byte_is, lemma_skip_ws, skip_ws, skip_ws_at};

verus! {

/// What a field singleton matcher is read as.
pub enum FieldSingletonAst {
    Exists(TagAst, OccurrenceAst),
    Subfields(Quantifier, TagAst, OccurrenceAst, SubfieldAst, Seq<char>),
}

/// What a field cardinality matcher is read as.
pub struct CardinalityAst {
    pub tag: TagAst,
    pub occurrence: OccurrenceAst,
    pub subfields: Option<SubfieldAst>,
    pub op: RelationalOp,
    pub value: usize,
    pub raw: Seq<char>,
}

/// What a field matcher is read as.
pub enum FieldAst {
    Singleton(FieldSingletonAst),
    Cardinality(CardinalityAst),
    Group(Box<FieldAst>),
    Not(Box<FieldAst>),
    Composite(Box<FieldAst>, BooleanOp, Box<FieldAst>),
}

/// What the singleton matcher is read as.
pub open spec fn field_singleton_ast(m: SingletonMatcher) -> FieldSingletonAst {
    match m {
        SingletonMatcher::Exists(x) => FieldSingletonAst::Exists(
            tag_ast(x@.tag_matcher),
            occurrence_ast(x@.occ_matcher),
        ),
        SingletonMatcher::Subfields(x) => FieldSingletonAst::Subfields(
            x@.quantifier,
            tag_ast(x@.tag_matcher),
            occurrence_ast(x@.occurrence_matcher),
            subfield_ast(x@.subfield_matcher),
            x.raw_text(),
        ),
    }
}

/// What the cardinality matcher is read as.
pub open spec fn cardinality_ast(m: CardinalityMatcher) -> CardinalityAst {
    CardinalityAst {
        tag: tag_ast(m@.tag_matcher),
        occurrence: occurrence_ast(m@.occ_matcher),
        subfields: match m@.subfield_matcher {
            Some(s) => Some(subfield_ast(s)),
            None => None,
        },
        op: m@.op,
        value: m@.value,
        raw: m.raw_text(),
    }
}

/// What the field matcher is read as.
pub open spec fn field_ast(m: FieldMatcher) -> FieldAst
    decreases m,
{
    match m {
        FieldMatcher::Singleton(s) => FieldAst::Singleton(field_singleton_ast(s)),
        FieldMatcher::Cardinality(c) => FieldAst::Cardinality(cardinality_ast(c)),
        FieldMatcher::Group(x) => FieldAst::Group(Box::new(field_ast(*x))),
        FieldMatcher::Not(x) => FieldAst::Not(Box::new(field_ast(*x))),
        FieldMatcher::Composite { lhs, op, rhs } => FieldAst::Composite(
            Box::new(field_ast(*lhs)),
            op,
            Box::new(field_ast(*rhs)),
        ),
    }
}

/// A field exists matcher at `i`: a tag matcher and an occurrence matcher
/// after optional white space, then optional white space and `?`.
pub open spec fn f_exists_at(b: Seq<u8>, i: int) -> Option<(FieldSingletonAst, int)> {
    match tag_matcher_at(b, skip_ws(b, i)) {
        Some((t, e1)) => {
            let (o, e2) = occurrence_matcher_at(b, e1);
            let q = skip_ws(b, e2);
            if byte_at(b, q, 0x3f) {
                Some((FieldSingletonAst::Exists(t, o), q + 1))
            } else {
                None
            }
        },
        None => None,
    }
}

/// A subfields matcher with a dot at `i`: an optional quantifier, a tag
/// matcher, an occurrence matcher, `.` and a singleton subfield matcher;
/// its text has no white space at its end.
pub open spec fn dot_at(b: Seq<u8>, i: int) -> Option<(FieldSingletonAst, int)> {
    let (q, p1) = quant_at(b, i);
    match tag_matcher_at(b, p1) {
        Some((t, e1)) => {
            let (o, e2) = occurrence_matcher_at(b, e1);
            if byte_at(b, e2, 0x2e) {
                match singleton_at(b, e2 + 1) {
                    Some((s, e3)) => Some(
                        (
                            FieldSingletonAst::Subfields(
                                q,
                                t,
                                o,
                                SubfieldAst::Singleton(s),
                                raw_chars(b, i, trim_end(b, i, e3)),
                            ),
                            e3,
                        ),
                    ),
                    None => None,
                }
            } else {
                None
            }
        },
        None => None,
    }
}

/// A subfield matcher in braces at `i`, with white space around the
/// braces.
pub open spec fn braced_at(b: Seq<u8>, i: int) -> Option<(SubfieldAst, int)> {
    let c = skip_ws(b, i);
    if byte_at(b, c, 0x7b) {
        match subfield_matcher_at(b, skip_ws(b, c + 1)) {
            Some((s, e)) => {
                let f = skip_ws(b, e);
                if byte_at(b, f, 0x7d) {
                    Some((s, skip_ws(b, f + 1)))
                } else {
                    None
                }
            },
            None => None,
        }
    } else {
        None
    }
}

/// A subfields matcher with braces at `i`: an optional quantifier, a tag
/// matcher, an occurrence matcher and a subfield matcher in braces.
pub open spec fn bracket_at(b: Seq<u8>, i: int) -> Option<(FieldSingletonAst, int)> {
    let (q, p1) = quant_at(b, i);
    match tag_matcher_at(b, p1) {
        Some((t, e1)) => {
            let (o, e2) = occurrence_matcher_at(b, e1);
            match braced_at(b, e2) {
                Some((s, e3)) => Some(
                    (FieldSingletonAst::Subfields(q, t, o, s, raw_chars(b, i, e3)), e3),
                ),
                None => None,
            }
        },
        None => None,
    }
}

/// A field singleton matcher at `i`: an exists matcher or a subfields
/// matcher with a dot or with braces, tried in this order.
pub open spec fn f_singleton_at(b: Seq<u8>, i: int) -> Option<(FieldSingletonAst, int)> {
    match f_exists_at(b, i) {
        Some(x) => Some(x),
        None => match dot_at(b, i) {
            Some(x) => Some(x),
            None => bracket_at(b, i),
        },
    }
}

/// The start of a field cardinality matcher at `i`: `#`, a tag matcher,
/// an occurrence matcher and an optional subfield matcher in braces.
pub open spec fn count_head_at(b: Seq<u8>, i: int) -> Option<(TagAst, OccurrenceAst, Option<SubfieldAst>, int)> {
    let p = skip_ws(b, i);
    if byte_at(b, p, 0x23) {
        match tag_matcher_at(b, skip_ws(b, p + 1)) {
            Some((t, e1)) => {
                let (o, e2) = occurrence_matcher_at(b, skip_ws(b, e1));
                let s2 = skip_ws(b, e2);
                match braced_at(b, s2) {
                    Some((s, e)) => Some((t, o, Some(s), e)),
                    None => Some((t, o, None, s2)),
                }
            },
            None => None,
        }
    } else {
        None
    }
}

/// The end of a field cardinality matcher at `i`: an operator that applies
/// to numbers and a number that fits in a `usize`.
pub open spec fn count_tail_at(b: Seq<u8>, i: int) -> Option<(RelationalOp, usize, int)> {
    match op_at(b, skip_ws(b, i)) {
        Some((op, e)) => {
            let d = skip_ws(b, e);
            let de = digits_end(b, d);
            if usize_applicable(op) && de > d && digits_value(b.subrange(d, de)) <= usize::MAX {
                Some((op, digits_value(b.subrange(d, de)) as usize, de))
            } else {
                None
            }
        },
        None => None,
    }
}

/// A field cardinality matcher at `i`: `#`, a tag matcher, an occurrence
/// matcher, an optional subfield matcher in braces, an operator that
/// applies to numbers and a number that fits in a `usize`.
pub open spec fn f_cardinality_at(b: Seq<u8>, i: int) -> Option<(CardinalityAst, int)> {
    match count_head_at(b, i) {
        Some((t, o, sub, e3)) => match count_tail_at(b, e3) {
            Some((op, value, de)) => Some(
                (
                    CardinalityAst {
                        tag: t,
                        occurrence: o,
                        subfields: sub,
                        op,
                        value,
                        raw: raw_chars(b, i, de),
                    },
                    de,
                ),
            ),
            None => None,
        },
        None => None,
    }
}

/// A field exists matcher, or a subfields matcher whose subfield matcher
/// is an exists matcher after a dot, at `i`.
pub open spec fn f_field_exists_at(b: Seq<u8>, i: int) -> Option<(FieldSingletonAst, int)> {
    match f_exists_at(b, i) {
        Some(x) => Some(x),
        None => {
            let (q, p1) = match quantifier_at(b, i) {
                Some((q, e)) => (q, e),
                None => (Quantifier::Any, i),
            };
            match tag_matcher_at(b, p1) {
                Some((t, e1)) => {
                    let (o, e2) = occurrence_matcher_at(b, e1);
                    let d = skip_ws(b, e2);
                    if byte_at(b, d, 0x2e) {
                        let s = skip_ws(b, d + 1);
                        match exists_at(b, s) {
                            Some((codes, e3)) => Some(
                                (
                                    FieldSingletonAst::Subfields(
                                        q,
                                        t,
                                        o,
                                        SubfieldAst::Singleton(
                                            SingletonAst::Exists(codes, raw_chars(b, s, e3)),
                                        ),
                                        raw_chars(b, i, e3),
                                    ),
                                    e3,
                                ),
                            ),
                            None => None,
                        }
                    } else {
                        None
                    }
                },
                None => None,
            }
        },
    }
}

/// A singleton matcher as a field matcher.
pub open spec fn fm_singleton(b: Seq<u8>, i: int) -> Option<(FieldAst, int)> {
    match f_singleton_at(b, i) {
        Some((s, e)) => Some((FieldAst::Singleton(s), e)),
        None => None,
    }
}

/// A cardinality matcher as a field matcher.
pub open spec fn fm_cardinality(b: Seq<u8>, i: int) -> Option<(FieldAst, int)> {
    match f_cardinality_at(b, i) {
        Some((c, e)) => Some((FieldAst::Cardinality(c), e)),
        None => None,
    }
}

/// An exists test as a field matcher.
pub open spec fn fm_field_exists(b: Seq<u8>, i: int) -> Option<(FieldAst, int)> {
    match f_field_exists_at(b, i) {
        Some((s, e)) => Some((FieldAst::Singleton(s), e)),
        None => None,
    }
}

/// A subfields matcher with braces as a field matcher.
pub open spec fn fm_bracket(b: Seq<u8>, i: int) -> Option<(FieldAst, int)> {
    match bracket_at(b, i) {
        Some((s, e)) => Some((FieldAst::Singleton(s), e)),
        None => None,
    }
}

/// What a group holds: a composite, singleton, negated, cardinality or
/// grouped matcher.
pub open spec fn fm_group_inner(b: Seq<u8>, q: int, d: nat) -> Option<(FieldAst, int)>
    decreases b.len() - q, 13int,
{
    match fm_composite(b, q, d) {
        Some(x) => Some(x),
        None => match fm_singleton(b, q) {
            Some(x) => Some(x),
            None => match fm_not(b, q, d) {
                Some(x) => Some(x),
                None => match fm_cardinality(b, q) {
                    Some(x) => Some(x),
                    None => fm_group(b, q, d),
                },
            },
        },
    }
}

/// A group at `i`: `(`, what a group holds and `)`, with white space around
/// the brackets; it fails where it would be nested `MAX_GROUP_DEPTH` deep.
pub open spec fn fm_group(b: Seq<u8>, i: int, d: nat) -> Option<(FieldAst, int)>
    decreases b.len() - i, 2int,
{
    if !(0 <= i <= b.len()) {
        None
    } else {
        let p = skip_ws(b, i);
        proof {
            lemma_skip_ws(b, i);
        }
        if byte_at(b, p, 0x28) && d + 1 < MAX_GROUP_DEPTH {
            let q = skip_ws(b, p + 1);
            proof {
                lemma_skip_ws(b, p + 1);
            }
            match fm_group_inner(b, q, d + 1) {
                Some((m, e)) => {
                    let r = skip_ws(b, e);
                    if byte_at(b, r, 0x29) {
                        Some((FieldAst::Group(Box::new(m)), skip_ws(b, r + 1)))
                    } else {
                        None
                    }
                },
                None => None,
            }
        } else {
            None
        }
    }
}

/// A negation at `i`: `!` and a group, a subfields matcher with braces, an
/// exists test or a negation, with white space around the `!`.
pub open spec fn fm_not(b: Seq<u8>, i: int, d: nat) -> Option<(FieldAst, int)>
    decreases b.len() - i, 2int,
{
    if !(0 <= i <= b.len()) {
        None
    } else {
        let p = skip_ws(b, i);
        proof {
            lemma_skip_ws(b, i);
        }
        if byte_at(b, p, 0x21) {
            let q = skip_ws(b, p + 1);
            proof {
                lemma_skip_ws(b, p + 1);
            }
            let inner = match fm_group(b, q, d) {
                Some(x) => Some(x),
                None => match fm_bracket(b, q) {
                    Some(x) => Some(x),
                    None => match fm_field_exists(b, q) {
                        Some(x) => Some(x),
                        None => fm_not(b, q, d),
                    },
                },
            };
            match inner {
                Some((m, e)) => Some((FieldAst::Not(Box::new(m)), e)),
                None => None,
            }
        } else {
            None
        }
    }
}

/// An operand of `&&` at `i`: a group, a cardinality matcher, a singleton
/// matcher, a negation or an exists test, with white space around it.
pub open spec fn fm_and_atom(b: Seq<u8>, i: int, d: nat) -> Option<(FieldAst, int)>
    decreases b.len() - i, 3int,
{
    if !(0 <= i <= b.len()) {
        None
    } else {
        let p = skip_ws(b, i);
        proof {
            lemma_skip_ws(b, i);
        }
        let r = match fm_group(b, p, d) {
            Some(x) => Some(x),
            None => match fm_cardinality(b, p) {
                Some(x) => Some(x),
                None => match fm_singleton(b, p) {
                    Some(x) => Some(x),
                    None => match fm_not(b, p, d) {
                        Some(x) => Some(x),
                        None => fm_field_exists(b, p),
                    },
                },
            },
        };
        match r {
            Some((m, e)) => Some((m, skip_ws(b, e))),
            None => None,
        }
    }
}

/// The operands that follow `acc`, each after `&&`, joined to it from the
/// left.
pub open spec fn fm_and_rest(b: Seq<u8>, i: int, d: nat, acc: FieldAst) -> (FieldAst, int)
    decreases b.len() - i, 4int,
{
    let p = skip_ws(b, i);
    if 0 <= i && 0 <= p && p + 2 <= b.len() && b[p] == 0x26 && b[p + 1] == 0x26 {
        proof {
            lemma_skip_ws(b, i);
        }
        match fm_and_atom(b, p + 2, d) {
            Some((m, e)) => if i < e <= b.len() {
                fm_and_rest(b, e, d, FieldAst::Composite(Box::new(acc), BooleanOp::And, Box::new(m)))
            } else {
                (acc, i)
            },
            None => (acc, i),
        }
    } else {
        (acc, i)
    }
}

/// Field matchers joined by `&&` at `i`: an operand and at least one more.
pub open spec fn fm_and(b: Seq<u8>, i: int, d: nat) -> Option<(FieldAst, int)>
    decreases b.len() - i, 5int,
{
    match fm_and_atom(b, i, d) {
        Some((m, e)) => if i <= e <= b.len() {
            let (acc, k) = fm_and_rest(b, e, d, m);
            if k > e {
                Some((acc, k))
            } else {
                None
            }
        } else {
            None
        },
        None => None,
    }
}

/// An operand of `^` at `i`: field matchers joined by `&&`, a group, a
/// cardinality matcher, a singleton matcher, a negation or an exists test,
/// with white space around it.
pub open spec fn fm_xor_atom(b: Seq<u8>, i: int, d: nat) -> Option<(FieldAst, int)>
    decreases b.len() - i, 6int,
{
    if !(0 <= i <= b.len()) {
        None
    } else {
        let p = skip_ws(b, i);
        proof {
            lemma_skip_ws(b, i);
        }
        let r = match fm_and(b, p, d) {
            Some(x) => Some(x),
            None => match fm_group(b, p, d) {
                Some(x) => Some(x),
                None => match fm_cardinality(b, p) {
                    Some(x) => Some(x),
                    None => match fm_singleton(b, p) {
                        Some(x) => Some(x),
                        None => match fm_not(b, p, d) {
                            Some(x) => Some(x),
                            None => fm_field_exists(b, p),
                        },
                    },
                },
            },
        };
        match r {
            Some((m, e)) => Some((m, skip_ws(b, e))),
            None => None,
        }
    }
}

/// The length of an exclusive-or sign at `i`: `^` or `XOR`.
pub open spec fn fm_xor_sign(b: Seq<u8>, i: int) -> int {
    if byte_at(b, i, 0x5e) {
        1
    } else if text_at(b, i, seq![0x58u8, 0x4fu8, 0x52u8]) {
        3
    } else {
        0
    }
}

/// The operands that follow `acc`, each after `^` or `XOR`, joined to it
/// from the left.
pub open spec fn fm_xor_rest(b: Seq<u8>, i: int, d: nat, acc: FieldAst) -> (FieldAst, int)
    decreases b.len() - i, 7int,
{
    let n = fm_xor_sign(b, i);
    if 0 <= i && n > 0 {
        match fm_xor_atom(b, i + n, d) {
            Some((m, e)) => if i < e <= b.len() {
                fm_xor_rest(b, e, d, FieldAst::Composite(Box::new(acc), BooleanOp::Xor, Box::new(m)))
            } else {
                (acc, i)
            },
            None => (acc, i),
        }
    } else {
        (acc, i)
    }
}

/// Field matchers joined by `^` at `i`: an operand and at least one more.
pub open spec fn fm_xor(b: Seq<u8>, i: int, d: nat) -> Option<(FieldAst, int)>
    decreases b.len() - i, 8int,
{
    match fm_xor_atom(b, i, d) {
        Some((m, e)) => if i <= e <= b.len() {
            let (acc, k) = fm_xor_rest(b, e, d, m);
            if k > e {
                Some((acc, k))
            } else {
                None
            }
        } else {
            None
        },
        None => None,
    }
}

/// An operand of `||` at `i`: field matchers joined by `&&` or by `^`, a
/// group, a cardinality matcher, a singleton matcher, a negation or an
/// exists test, with white space around it.
pub open spec fn fm_or_atom(b: Seq<u8>, i: int, d: nat) -> Option<(FieldAst, int)>
    decreases b.len() - i, 9int,
{
    if !(0 <= i <= b.len()) {
        None
    } else {
        let p = skip_ws(b, i);
        proof {
            lemma_skip_ws(b, i);
        }
        let r = match fm_and(b, p, d) {
            Some(x) => Some(x),
            None => match fm_xor(b, p, d) {
                Some(x) => Some(x),
                None => match fm_group(b, p, d) {
                    Some(x) => Some(x),
                    None => match fm_cardinality(b, p) {
                        Some(x) => Some(x),
                        None => match fm_singleton(b, p) {
                            Some(x) => Some(x),
                            None => match fm_not(b, p, d) {
                                Some(x) => Some(x),
                                None => fm_field_exists(b, p),
                            },
                        },
                    },
                },
            },
        };
        match r {
            Some((m, e)) => Some((m, skip_ws(b, e))),
            None => None,
        }
    }
}

/// The operands that follow `acc`, each after `||`, joined to it from the
/// left.
pub open spec fn fm_or_rest(b: Seq<u8>, i: int, d: nat, acc: FieldAst) -> (FieldAst, int)
    decreases b.len() - i, 10int,
{
    let p = skip_ws(b, i);
    if 0 <= i && 0 <= p && p + 2 <= b.len() && b[p] == 0x7c && b[p + 1] == 0x7c {
        proof {
            lemma_skip_ws(b, i);
        }
        match fm_or_atom(b, p + 2, d) {
            Some((m, e)) => if i < e <= b.len() {
                fm_or_rest(b, e, d, FieldAst::Composite(Box::new(acc), BooleanOp::Or, Box::new(m)))
            } else {
                (acc, i)
            },
            None => (acc, i),
        }
    } else {
        (acc, i)
    }
}

/// Field matchers joined by `||` at `i`: an operand and at least one more.
pub open spec fn fm_or(b: Seq<u8>, i: int, d: nat) -> Option<(FieldAst, int)>
    decreases b.len() - i, 11int,
{
    match fm_or_atom(b, i, d) {
        Some((m, e)) => if i <= e <= b.len() {
            let (acc, k) = fm_or_rest(b, e, d, m);
            if k > e {
                Some((acc, k))
            } else {
                None
            }
        } else {
            None
        },
        None => None,
    }
}

/// A composite field matcher at `i`: field matchers joined by `||`, by `^`
/// or by `&&`, tried in this order.
pub open spec fn fm_composite(b: Seq<u8>, i: int, d: nat) -> Option<(FieldAst, int)>
    decreases b.len() - i, 12int,
{
    match fm_or(b, i, d) {
        Some(x) => Some(x),
        None => match fm_xor(b, i, d) {
            Some(x) => Some(x),
            None => fm_and(b, i, d),
        },
    }
}

/// A field matcher at `i`: a composite matcher, a group, a negation, a
/// singleton matcher or a cardinality matcher, tried in this order, with
/// white space around it.
#[verifier::opaque]
pub open spec fn field_matcher_at(b: Seq<u8>, i: int) -> Option<(FieldAst, int)> {
    let p = skip_ws(b, i);
    let r = match fm_composite(b, p, 0) {
        Some(x) => Some(x),
        None => match fm_group(b, p, 0) {
            Some(x) => Some(x),
            None => match fm_not(b, p, 0) {
                Some(x) => Some(x),
                None => match fm_singleton(b, p) {
                    Some(x) => Some(x),
                    None => fm_cardinality(b, p),
                },
            },
        },
    };
    match r {
        Some((m, e)) => Some((m, skip_ws(b, e))),
        None => None,
    }
}


// ----------------------------------------------------------------------
// Reading
// ----------------------------------------------------------------------

fn parse_quant_opt(b: &[u8], i: usize) -> (r: (Quantifier, usize))
    requires
        i <= b@.len(),
    ensures
        r.0 == quant_at(b@, i as int).0,
        r.1 == quant_at(b@, i as int).1,
        i <= r.1 <= b@.len(),
{
    let p = skip_ws_at(b, i);
    match parse_quantifier(b, p) {
        Some((q, e)) => {
            proof {
                lemma_skip_ws(b@, e as int);
            }
            (q, skip_ws_at(b, e))
        },
        None => (Quantifier::Any, i),
    }
}

/// Reads a field exists matcher at `i`.
fn parse_f_exists(b: &[u8], i: usize) -> (r: Option<(SingletonMatcher, usize)>)
    requires
        i <= b@.len(),
    ensures
        r matches Some((m, k)) ==> i <= k <= b@.len(),
        match f_exists_at(b@, i as int) {
            Some((ast, e)) => r matches Some((m, k)) && field_singleton_ast(m) == ast && k == e,
            None => r is None,
        },
{
    let p = skip_ws_at(b, i);
    let (t, e1) = match parse_tag_matcher(b, p) {
        Some(x) => x,
        None => return None,
    };
    let (o, e2) = parse_occurrence_matcher(b, e1);
    let q = skip_ws_at(b, e2);
    if byte_is(b, q, 0x3f) {
        Some((SingletonMatcher::Exists(ExistsMatcher::from_parts(t, o)), q + 1))
    } else {
        None
    }
}

/// Reads a subfields matcher with a dot at `i`.
fn parse_dot(b: &[u8], i: usize) -> (r: Option<(SingletonMatcher, usize)>)
    requires
        i <= b@.len(),
    ensures
        r matches Some((m, k)) ==> i <= k <= b@.len(),
        match dot_at(b@, i as int) {
            Some((ast, e)) => r matches Some((m, k)) && field_singleton_ast(m) == ast && k == e,
            None => r is None,
        },
{
    let (q, p1) = parse_quant_opt(b, i);
    let (t, e1) = match parse_tag_matcher(b, p1) {
        Some(x) => x,
        None => return None,
    };
    let (o, e2) = parse_occurrence_matcher(b, e1);
    if !byte_is(b, e2, 0x2e) {
        return None;
    }
    let (sm, e3) = match parse_singleton(b, e2 + 1) {
        Some(x) => x,
        None => return None,
    };
    let t_end = trim_end_at(b, i, e3);
    let raw = raw_text_of(b, i, t_end);
    let s = SubfieldMatcher::Singleton(sm);
    Some((SingletonMatcher::Subfields(SubfieldsMatcher::from_parts(q, t, o, s, raw)), e3))
}

/// Reads a subfield matcher in braces at `i`.
fn parse_braced(b: &[u8], i: usize) -> (r: Option<(SubfieldMatcher, usize)>)
    requires
        i <= b@.len(),
    ensures
        r matches Some((m, k)) ==> i <= k <= b@.len(),
        match braced_at(b@, i as int) {
            Some((ast, e)) => r matches Some((m, k)) && subfield_ast(m) == ast && k == e,
            None => r is None,
        },
{
    let c = skip_ws_at(b, i);
    if !byte_is(b, c, 0x7b) {
        return None;
    }
    let d = skip_ws_at(b, c + 1);
    proof {
        lemma_skip_ws(b@, c + 1);
    }
    let (m, e) = match parse_subfield_matcher_at(b, d) {
        Some(x) => x,
        None => return None,
    };
    let f = skip_ws_at(b, e);
    if !byte_is(b, f, 0x7d) {
        return None;
    }
    proof {
        lemma_skip_ws(b@, f + 1);
    }
    Some((m, skip_ws_at(b, f + 1)))
}

/// Reads a subfields matcher with braces at `i`.
fn parse_bracket(b: &[u8], i: usize) -> (r: Option<(SingletonMatcher, usize)>)
    requires
        i <= b@.len(),
    ensures
        r matches Some((m, k)) ==> i <= k <= b@.len(),
        match bracket_at(b@, i as int) {
            Some((ast, e)) => r matches Some((m, k)) && field_singleton_ast(m) == ast && k == e,
            None => r is None,
        },
{
    let (q, p1) = parse_quant_opt(b, i);
    let (t, e1) = match parse_tag_matcher(b, p1) {
        Some(x) => x,
        None => return None,
    };
    let (o, e2) = parse_occurrence_matcher(b, e1);
    let (s, e3) = match parse_braced(b, e2) {
        Some(x) => x,
        None => return None,
    };
    let raw = raw_text_of(b, i, e3);
    Some((SingletonMatcher::Subfields(SubfieldsMatcher::from_parts(q, t, o, s, raw)), e3))
}

/// Reads a field singleton matcher at `i`.
fn parse_f_singleton(b: &[u8], i: usize) -> (r: Option<(SingletonMatcher, usize)>)
    requires
        i <= b@.len(),
    ensures
        r matches Some((m, k)) ==> i <= k <= b@.len(),
        match f_singleton_at(b@, i as int) {
            Some((ast, e)) => r matches Some((m, k)) && field_singleton_ast(m) == ast && k == e,
            None => r is None,
        },
{
    match parse_f_exists(b, i) {
        Some(x) => Some(x),
        None => match parse_dot(b, i) {
            Some(x) => Some(x),
            None => parse_bracket(b, i),
        },
    }
}

/// Reads the start of a field cardinality matcher at `i`.
fn parse_count_head(b: &[u8], i: usize) -> (r: Option<(TagMatcher, OccurrenceMatcher, Option<SubfieldMatcher>, usize)>)
    requires
        i <= b@.len(),
    ensures
        match count_head_at(b@, i as int) {
            Some((t, o, s, e)) => r matches Some((tm, om, sm, k)) && tag_ast(tm) == t
                && occurrence_ast(om) == o && k == e && i <= k <= b@.len() && match s {
                Some(x) => sm matches Some(y) && subfield_ast(y) == x,
                None => sm is None,
            },
            None => r is None,
        },
{
    let p = skip_ws_at(b, i);
    if !byte_is(b, p, 0x23) {
        return None;
    }
    let q = skip_ws_at(b, p + 1);
    let (t, e1) = match parse_tag_matcher(b, q) {
        Some(x) => x,
        None => return None,
    };
    let r1 = skip_ws_at(b, e1);
    let (o, e2) = parse_occurrence_matcher(b, r1);
    let s2 = skip_ws_at(b, e2);
    proof {
        lemma_skip_ws(b@, i as int);
        lemma_skip_ws(b@, p + 1);
        lemma_skip_ws(b@, e1 as int);
        lemma_skip_ws(b@, e2 as int);
    }
    match parse_braced(b, s2) {
        Some((m, e)) => Some((t, o, Some(m), e)),
        None => Some((t, o, None, s2)),
    }
}

/// Reads the end of a field cardinality matcher at `i`.
fn parse_count_tail(b: &[u8], i: usize) -> (r: Option<(RelationalOp, usize, usize)>)
    requires
        i <= b@.len(),
    ensures
        match count_tail_at(b@, i as int) {
            Some((op, v, e)) => r matches Some((o, w, k)) && o == op && w == v && k == e && i <= k
                <= b@.len(),
            None => r is None,
        },
{
    let p4 = skip_ws_at(b, i);
    let (op, e4) = match parse_relational_operator(b, p4) {
        Some(x) => x,
        None => return None,
    };
    if !op.is_usize_applicable() {
        return None;
    }
    let d = skip_ws_at(b, e4);
    proof {
        lemma_skip_ws(b@, i as int);
        lemma_skip_ws(b@, e4 as int);
        lemma_digits_end(b@, d as int);
    }
    match parse_number(b, d) {
        Some((value, de)) => Some((op, value, de)),
        None => None,
    }
}

/// Reads a field cardinality matcher at `i`.
fn parse_f_cardinality(b: &[u8], i: usize) -> (r: Option<(CardinalityMatcher, usize)>)
    requires
        i <= b@.len(),
    ensures
        r matches Some((m, k)) ==> i <= k <= b@.len(),
        match f_cardinality_at(b@, i as int) {
            Some((ast, e)) => r matches Some((m, k)) && cardinality_ast(m) == ast && k == e,
            None => r is None,
        },
{
    let (t, o, sub, e3) = match parse_count_head(b, i) {
        Some(x) => x,
        None => return None,
    };
    let (op, value, de) = match parse_count_tail(b, e3) {
        Some(x) => x,
        None => return None,
    };
    let raw = raw_text_of(b, i, de);
    let m = CardinalityMatcher::from_parts(t, o, sub, op, value, raw);
    Some((m, de))
}

/// Reads an exists test at `i`: a field exists matcher, or a subfields
/// matcher whose subfield matcher is an exists matcher after a dot.
fn parse_f_field_exists(b: &[u8], i: usize) -> (r: Option<(SingletonMatcher, usize)>)
    requires
        i <= b@.len(),
    ensures
        r matches Some((m, k)) ==> i <= k <= b@.len(),
        match f_field_exists_at(b@, i as int) {
            Some((ast, e)) => r matches Some((m, k)) && field_singleton_ast(m) == ast && k == e,
            None => r is None,
        },
{
    if let Some(x) = parse_f_exists(b, i) {
        return Some(x);
    }
    let (q, p1) = match parse_quantifier(b, i) {
        Some((q, e)) => (q, e),
        None => (Quantifier::Any, i),
    };
    let (t, e1) = match parse_tag_matcher(b, p1) {
        Some(x) => x,
        None => return None,
    };
    let (o, e2) = parse_occurrence_matcher(b, e1);
    let d = skip_ws_at(b, e2);
    if !byte_is(b, d, 0x2e) {
        return None;
    }
    let s = skip_ws_at(b, d + 1);
    proof {
        lemma_skip_ws(b@, d + 1);
    }
    let (ex, e3) = match parse_exists(b, s) {
        Some(x) => x,
        None => return None,
    };
    let raw = raw_text_of(b, i, e3);
    let sm = SubfieldMatcher::Singleton(sub::SingletonMatcher::Exists(ex));
    Some((SingletonMatcher::Subfields(SubfieldsMatcher::from_parts(q, t, o, sm, raw)), e3))
}


fn fm_parse_singleton(b: &[u8], i: usize) -> (r: Option<(FieldMatcher, usize)>)
    requires
        i <= b@.len(),
    ensures
        r matches Some((m, k)) ==> i <= k <= b@.len(),
        match fm_singleton(b@, i as int) {
            Some((ast, e)) => r matches Some((m, k)) && field_ast(m) == ast && k == e,
            None => r is None,
        },
{
    match parse_f_singleton(b, i) {
        Some((m, e)) => Some((FieldMatcher::Singleton(m), e)),
        None => None,
    }
}

fn fm_parse_cardinality(b: &[u8], i: usize) -> (r: Option<(FieldMatcher, usize)>)
    requires
        i <= b@.len(),
    ensures
        r matches Some((m, k)) ==> i <= k <= b@.len(),
        match fm_cardinality(b@, i as int) {
            Some((ast, e)) => r matches Some((m, k)) && field_ast(m) == ast && k == e,
            None => r is None,
        },
{
    match parse_f_cardinality(b, i) {
        Some((m, e)) => Some((FieldMatcher::Cardinality(m), e)),
        None => None,
    }
}

fn fm_parse_field_exists(b: &[u8], i: usize) -> (r: Option<(FieldMatcher, usize)>)
    requires
        i <= b@.len(),
    ensures
        r matches Some((m, k)) ==> i <= k <= b@.len(),
        match fm_field_exists(b@, i as int) {
            Some((ast, e)) => r matches Some((m, k)) && field_ast(m) == ast && k == e,
            None => r is None,
        },
{
    match parse_f_field_exists(b, i) {
        Some((m, e)) => Some((FieldMatcher::Singleton(m), e)),
        None => None,
    }
}

fn fm_parse_bracket(b: &[u8], i: usize) -> (r: Option<(FieldMatcher, usize)>)
    requires
        i <= b@.len(),
    ensures
        r matches Some((m, k)) ==> i <= k <= b@.len(),
        match fm_bracket(b@, i as int) {
            Some((ast, e)) => r matches Some((m, k)) && field_ast(m) == ast && k == e,
            None => r is None,
        },
{
    match parse_bracket(b, i) {
        Some((m, e)) => Some((FieldMatcher::Singleton(m), e)),
        None => None,
    }
}

/// Reads what a group holds at `i`.
fn fm_parse_group_inner(b: &[u8], i: usize, d: u32) -> (r: Option<(FieldMatcher, usize)>)
    requires
        i <= b@.len(),
        d < MAX_GROUP_DEPTH,
    ensures
        r matches Some((m, k)) ==> i <= k <= b@.len(),
        match fm_group_inner(b@, i as int, d as nat) {
            Some((ast, e)) => r matches Some((m, k)) && field_ast(m) == ast && k == e,
            None => r is None,
        },
    decreases b@.len() - i, 13int,
{
    match fm_parse_composite(b, i, d) {
        Some(x) => Some(x),
        None => match fm_parse_singleton(b, i) {
            Some(x) => Some(x),
            None => match fm_parse_not(b, i, d) {
                Some(x) => Some(x),
                None => match fm_parse_cardinality(b, i) {
                    Some(x) => Some(x),
                    None => fm_parse_group(b, i, d),
                },
            },
        },
    }
}

/// Reads a group at `i`.
fn fm_parse_group(b: &[u8], i: usize, d: u32) -> (r: Option<(FieldMatcher, usize)>)
    requires
        i <= b@.len(),
        d < MAX_GROUP_DEPTH,
    ensures
        r matches Some((m, k)) ==> i <= k <= b@.len(),
        match fm_group(b@, i as int, d as nat) {
            Some((ast, e)) => r matches Some((m, k)) && field_ast(m) == ast && k == e,
            None => r is None,
        },
    decreases b@.len() - i, 2int,
{
    let p = skip_ws_at(b, i);
    if !(byte_is(b, p, 0x28) && d + 1 < MAX_GROUP_DEPTH) {
        return None;
    }
    let q = skip_ws_at(b, p + 1);
    proof {
        lemma_skip_ws(b@, p + 1);
    }
    match fm_parse_group_inner(b, q, d + 1) {
        Some((m, e)) => {
            let r = skip_ws_at(b, e);
            if byte_is(b, r, 0x29) {
                proof {
                    lemma_skip_ws(b@, r + 1);
                }
                Some((FieldMatcher::Group(Box::new(m)), skip_ws_at(b, r + 1)))
            } else {
                None
            }
        },
        None => None,
    }
}

/// Reads a negation at `i`.
fn fm_parse_not(b: &[u8], i: usize, d: u32) -> (r: Option<(FieldMatcher, usize)>)
    requires
        i <= b@.len(),
        d < MAX_GROUP_DEPTH,
    ensures
        r matches Some((m, k)) ==> i <= k <= b@.len(),
        match fm_not(b@, i as int, d as nat) {
            Some((ast, e)) => r matches Some((m, k)) && field_ast(m) == ast && k == e,
            None => r is None,
        },
    decreases b@.len() - i, 2int,
{
    let p = skip_ws_at(b, i);
    if !byte_is(b, p, 0x21) {
        return None;
    }
    let q = skip_ws_at(b, p + 1);
    proof {
        lemma_skip_ws(b@, p + 1);
    }
    let inner = match fm_parse_group(b, q, d) {
        Some(x) => Some(x),
        None => match fm_parse_bracket(b, q) {
            Some(x) => Some(x),
            None => match fm_parse_field_exists(b, q) {
                Some(x) => Some(x),
                None => fm_parse_not(b, q, d),
            },
        },
    };
    match inner {
        Some((m, e)) => {
            let n = FieldMatcher::Not(Box::new(m));
            assert(field_ast(n) == FieldAst::Not(Box::new(field_ast(m))));
            Some((n, e))
        },
        None => None,
    }
}

/// Reads an operand of `&&` at `i`.
fn fm_parse_and_atom(b: &[u8], i: usize, d: u32) -> (r: Option<(FieldMatcher, usize)>)
    requires
        i <= b@.len(),
        d < MAX_GROUP_DEPTH,
    ensures
        r matches Some((m, k)) ==> i <= k <= b@.len(),
        match fm_and_atom(b@, i as int, d as nat) {
            Some((ast, e)) => r matches Some((m, k)) && field_ast(m) == ast && k == e,
            None => r is None,
        },
    decreases b@.len() - i, 3int,
{
    let p = skip_ws_at(b, i);
    let r = match fm_parse_group(b, p, d) {
        Some(x) => Some(x),
        None => match fm_parse_cardinality(b, p) {
            Some(x) => Some(x),
            None => match fm_parse_singleton(b, p) {
                Some(x) => Some(x),
                None => match fm_parse_not(b, p, d) {
                    Some(x) => Some(x),
                    None => fm_parse_field_exists(b, p),
                },
            },
        },
    };
    match r {
        Some((m, e)) => {
            proof {
                lemma_skip_ws(b@, e as int);
            }
            Some((m, skip_ws_at(b, e)))
        },
        None => None,
    }
}

/// Reads the operands that follow `acc`, each after `&&`.
fn fm_parse_and_rest(b: &[u8], i: usize, d: u32, acc: FieldMatcher) -> (r: (FieldMatcher, usize))
    requires
        i <= b@.len(),
        d < MAX_GROUP_DEPTH,
    ensures
        i <= r.1 <= b@.len(),
        (field_ast(r.0), r.1 as int) == fm_and_rest(b@, i as int, d as nat, field_ast(acc)),
    decreases b@.len() - i, 4int,
{
    let p = skip_ws_at(b, i);
    if p < b.len() && b.len() - p >= 2 && b[p] == 0x26 && b[p + 1] == 0x26 {
        match fm_parse_and_atom(b, p + 2, d) {
            Some((m, e)) => {
                let joined = FieldMatcher::Composite { lhs: Box::new(acc), op: BooleanOp::And, rhs: Box::new(m) };
                fm_parse_and_rest(b, e, d, joined)
            },
            None => (acc, i),
        }
    } else {
        (acc, i)
    }
}

/// Reads field matchers joined by `&&` at `i`.
fn fm_parse_and(b: &[u8], i: usize, d: u32) -> (r: Option<(FieldMatcher, usize)>)
    requires
        i <= b@.len(),
        d < MAX_GROUP_DEPTH,
    ensures
        r matches Some((m, k)) ==> i <= k <= b@.len(),
        match fm_and(b@, i as int, d as nat) {
            Some((ast, e)) => r matches Some((m, k)) && field_ast(m) == ast && k == e,
            None => r is None,
        },
    decreases b@.len() - i, 5int,
{
    match fm_parse_and_atom(b, i, d) {
        Some((m, e)) => {
            let (acc, k) = fm_parse_and_rest(b, e, d, m);
            if k > e {
                Some((acc, k))
            } else {
                None
            }
        },
        None => None,
    }
}

/// Reads an operand of `^` at `i`.
fn fm_parse_xor_atom(b: &[u8], i: usize, d: u32) -> (r: Option<(FieldMatcher, usize)>)
    requires
        i <= b@.len(),
        d < MAX_GROUP_DEPTH,
    ensures
        r matches Some((m, k)) ==> i <= k <= b@.len(),
        match fm_xor_atom(b@, i as int, d as nat) {
            Some((ast, e)) => r matches Some((m, k)) && field_ast(m) == ast && k == e,
            None => r is None,
        },
    decreases b@.len() - i, 6int,
{
    let p = skip_ws_at(b, i);
    let r = match fm_parse_and(b, p, d) {
        Some(x) => Some(x),
        None => match fm_parse_group(b, p, d) {
            Some(x) => Some(x),
            None => match fm_parse_cardinality(b, p) {
                Some(x) => Some(x),
                None => match fm_parse_singleton(b, p) {
                    Some(x) => Some(x),
                    None => match fm_parse_not(b, p, d) {
                        Some(x) => Some(x),
                        None => fm_parse_field_exists(b, p),
                    },
                },
            },
        },
    };
    match r {
        Some((m, e)) => {
            proof {
                lemma_skip_ws(b@, e as int);
            }
            Some((m, skip_ws_at(b, e)))
        },
        None => None,
    }
}

/// The length of an exclusive-or sign at `i`.
fn fm_xor_sign_at(b: &[u8], i: usize) -> (r: usize)
    ensures
        r == fm_xor_sign(b@, i as int),
        r > 0 ==> i + r <= b.len(),
{
    let xor_text: [u8; 3] = [0x58, 0x4f, 0x52];
    assert(xor_text@ =~= seq![0x58u8, 0x4fu8, 0x52u8]);
    if byte_is(b, i, 0x5e) {
        1
    } else if text_is(b, i, xor_text.as_slice()) {
        3
    } else {
        0
    }
}

/// Reads the operands that follow `acc`, each after `^` or `XOR`.
fn fm_parse_xor_rest(b: &[u8], i: usize, d: u32, acc: FieldMatcher) -> (r: (FieldMatcher, usize))
    requires
        i <= b@.len(),
        d < MAX_GROUP_DEPTH,
    ensures
        i <= r.1 <= b@.len(),
        (field_ast(r.0), r.1 as int) == fm_xor_rest(b@, i as int, d as nat, field_ast(acc)),
    decreases b@.len() - i, 7int,
{
    let n = fm_xor_sign_at(b, i);
    if n > 0 {
        match fm_parse_xor_atom(b, i + n, d) {
            Some((m, e)) => {
                let joined = FieldMatcher::Composite { lhs: Box::new(acc), op: BooleanOp::Xor, rhs: Box::new(m) };
                fm_parse_xor_rest(b, e, d, joined)
            },
            None => (acc, i),
        }
    } else {
        (acc, i)
    }
}

/// Reads field matchers joined by `^` at `i`.
fn fm_parse_xor(b: &[u8], i: usize, d: u32) -> (r: Option<(FieldMatcher, usize)>)
    requires
        i <= b@.len(),
        d < MAX_GROUP_DEPTH,
    ensures
        r matches Some((m, k)) ==> i <= k <= b@.len(),
        match fm_xor(b@, i as int, d as nat) {
            Some((ast, e)) => r matches Some((m, k)) && field_ast(m) == ast && k == e,
            None => r is None,
        },
    decreases b@.len() - i, 8int,
{
    match fm_parse_xor_atom(b, i, d) {
        Some((m, e)) => {
            let (acc, k) = fm_parse_xor_rest(b, e, d, m);
            if k > e {
                Some((acc, k))
            } else {
                None
            }
        },
        None => None,
    }
}

/// Reads an operand of `||` at `i`.
fn fm_parse_or_atom(b: &[u8], i: usize, d: u32) -> (r: Option<(FieldMatcher, usize)>)
    requires
        i <= b@.len(),
        d < MAX_GROUP_DEPTH,
    ensures
        r matches Some((m, k)) ==> i <= k <= b@.len(),
        match fm_or_atom(b@, i as int, d as nat) {
            Some((ast, e)) => r matches Some((m, k)) && field_ast(m) == ast && k == e,
            None => r is None,
        },
    decreases b@.len() - i, 9int,
{
    let p = skip_ws_at(b, i);
    let r = match fm_parse_and(b, p, d) {
        Some(x) => Some(x),
        None => match fm_parse_xor(b, p, d) {
            Some(x) => Some(x),
            None => match fm_parse_group(b, p, d) {
                Some(x) => Some(x),
                None => match fm_parse_cardinality(b, p) {
                    Some(x) => Some(x),
                    None => match fm_parse_singleton(b, p) {
                        Some(x) => Some(x),
                        None => match fm_parse_not(b, p, d) {
                            Some(x) => Some(x),
                            None => fm_parse_field_exists(b, p),
                        },
                    },
                },
            },
        },
    };
    match r {
        Some((m, e)) => {
            proof {
                lemma_skip_ws(b@, e as int);
            }
            Some((m, skip_ws_at(b, e)))
        },
        None => None,
    }
}

/// Reads the operands that follow `acc`, each after `||`.
fn fm_parse_or_rest(b: &[u8], i: usize, d: u32, acc: FieldMatcher) -> (r: (FieldMatcher, usize))
    requires
        i <= b@.len(),
        d < MAX_GROUP_DEPTH,
    ensures
        i <= r.1 <= b@.len(),
        (field_ast(r.0), r.1 as int) == fm_or_rest(b@, i as int, d as nat, field_ast(acc)),
    decreases b@.len() - i, 10int,
{
    let p = skip_ws_at(b, i);
    if p < b.len() && b.len() - p >= 2 && b[p] == 0x7c && b[p + 1] == 0x7c {
        match fm_parse_or_atom(b, p + 2, d) {
            Some((m, e)) => {
                let joined = FieldMatcher::Composite { lhs: Box::new(acc), op: BooleanOp::Or, rhs: Box::new(m) };
                fm_parse_or_rest(b, e, d, joined)
            },
            None => (acc, i),
        }
    } else {
        (acc, i)
    }
}

/// Reads field matchers joined by `||` at `i`.
fn fm_parse_or(b: &[u8], i: usize, d: u32) -> (r: Option<(FieldMatcher, usize)>)
    requires
        i <= b@.len(),
        d < MAX_GROUP_DEPTH,
    ensures
        r matches Some((m, k)) ==> i <= k <= b@.len(),
        match fm_or(b@, i as int, d as nat) {
            Some((ast, e)) => r matches Some((m, k)) && field_ast(m) == ast && k == e,
            None => r is None,
        },
    decreases b@.len() - i, 11int,
{
    match fm_parse_or_atom(b, i, d) {
        Some((m, e)) => {
            let (acc, k) = fm_parse_or_rest(b, e, d, m);
            if k > e {
                Some((acc, k))
            } else {
                None
            }
        },
        None => None,
    }
}

/// Reads a composite field matcher at `i`.
fn fm_parse_composite(b: &[u8], i: usize, d: u32) -> (r: Option<(FieldMatcher, usize)>)
    requires
        i <= b@.len(),
        d < MAX_GROUP_DEPTH,
    ensures
        r matches Some((m, k)) ==> i <= k <= b@.len(),
        match fm_composite(b@, i as int, d as nat) {
            Some((ast, e)) => r matches Some((m, k)) && field_ast(m) == ast && k == e,
            None => r is None,
        },
    decreases b@.len() - i, 12int,
{
    match fm_parse_or(b, i, d) {
        Some(x) => Some(x),
        None => match fm_parse_xor(b, i, d) {
            Some(x) => Some(x),
            None => fm_parse_and(b, i, d),
        },
    }
}

/// Reads a field matcher at `i`.
pub(crate) fn parse_field_matcher_at(b: &[u8], i: usize) -> (r: Option<(FieldMatcher, usize)>)
    requires
        i <= b@.len(),
    ensures
        r matches Some((m, k)) ==> i <= k <= b@.len(),
        match field_matcher_at(b@, i as int) {
            Some((ast, e)) => r matches Some((m, k)) && field_ast(m) == ast && k == e,
            None => r is None,
        },
{
    reveal(field_matcher_at);
    let p = skip_ws_at(b, i);
    let r = match fm_parse_composite(b, p, 0) {
        Some(x) => Some(x),
        None => match fm_parse_group(b, p, 0) {
            Some(x) => Some(x),
            None => match fm_parse_not(b, p, 0) {
                Some(x) => Some(x),
                None => match fm_parse_singleton(b, p) {
                    Some(x) => Some(x),
                    None => fm_parse_cardinality(b, p),
                },
            },
        },
    };
    match r {
        Some((m, e)) => {
            proof {
                lemma_skip_ws(b@, e as int);
            }
            Some((m, skip_ws_at(b, e)))
        },
        None => None,
    }
}


/// The parse read the whole input.
pub open spec fn whole<T>(r: Option<(T, int)>, len: nat) -> bool {
    r matches Some((_, e)) && e == len
}

/// A subfields matcher at `i`: with a dot, or with braces.
pub open spec fn subfields_at(b: Seq<u8>, i: int) -> Option<(FieldSingletonAst, int)> {
    match dot_at(b, i) {
        Some(x) => Some(x),
        None => bracket_at(b, i),
    }
}

impl ExistsMatcher {
    /// Creates a field exists matcher from its text, such as `003@?` or
    /// `012A/01?`; fails unless the whole text is one.
    pub fn new(matcher: &str) -> (r: Result<Self, ParseMatcherError>)
        ensures
            r is Ok <==> whole(f_exists_at(matcher.spec_bytes(), 0), matcher.spec_bytes().len()),
            r matches Ok(m) ==> f_exists_at(matcher.spec_bytes(), 0) == Some(
                (field_singleton_ast(SingletonMatcher::Exists(m)), matcher.spec_bytes().len() as int),
            ),
            r matches Err(e) ==> e@ == invalid_message("exists matcher"@, matcher@),
    {
        let b = matcher.as_bytes();
        if let Some((SingletonMatcher::Exists(m), e)) = parse_f_exists(b, 0) {
            if e == b.len() {
                return Ok(m);
            }
        }
        Err(ParseMatcherError::invalid("exists matcher", matcher))
    }
}

impl SubfieldsMatcher {
    /// Creates a subfields matcher from its text, such as `012A.a == 'x'`
    /// or `012A{a? && b?}`; fails unless the whole text is one.
    pub fn new(matcher: &str) -> (r: Result<Self, ParseMatcherError>)
        ensures
            r is Ok <==> whole(subfields_at(matcher.spec_bytes(), 0), matcher.spec_bytes().len()),
            r matches Ok(m) ==> subfields_at(matcher.spec_bytes(), 0) == Some(
                (
                    field_singleton_ast(SingletonMatcher::Subfields(m)),
                    matcher.spec_bytes().len() as int,
                ),
            ),
            r matches Err(e) ==> e@ == invalid_message("subfields matcher"@, matcher@),
    {
        let b = matcher.as_bytes();
        let r = match parse_dot(b, 0) {
            Some(x) => Some(x),
            None => parse_bracket(b, 0),
        };
        if let Some((SingletonMatcher::Subfields(m), e)) = r {
            if e == b.len() {
                return Ok(m);
            }
        }
        Err(ParseMatcherError::invalid("subfields matcher", matcher))
    }
}

impl SingletonMatcher {
    /// Creates a field singleton matcher from its text; fails unless the
    /// whole text is one.
    pub fn new(matcher: &str) -> (r: Result<Self, ParseMatcherError>)
        ensures
            r is Ok <==> whole(f_singleton_at(matcher.spec_bytes(), 0), matcher.spec_bytes().len()),
            r matches Ok(m) ==> f_singleton_at(matcher.spec_bytes(), 0) == Some(
                (field_singleton_ast(m), matcher.spec_bytes().len() as int),
            ),
            r matches Err(e) ==> e@ == invalid_message("singleton matcher"@, matcher@),
    {
        let b = matcher.as_bytes();
        if let Some((m, e)) = parse_f_singleton(b, 0) {
            if e == b.len() {
                return Ok(m);
            }
        }
        Err(ParseMatcherError::invalid("singleton matcher", matcher))
    }
}

impl CardinalityMatcher {
    /// Creates a field cardinality matcher from its text, such as
    /// `#012A{b?} >= 1`; fails unless the whole text is one.
    pub fn new(matcher: &str) -> (r: Result<Self, ParseMatcherError>)
        ensures
            r is Ok <==> whole(f_cardinality_at(matcher.spec_bytes(), 0), matcher.spec_bytes().len()),
            r matches Ok(m) ==> f_cardinality_at(matcher.spec_bytes(), 0) == Some(
                (cardinality_ast(m), matcher.spec_bytes().len() as int),
            ),
            r matches Err(e) ==> e@ == invalid_message("cardinality matcher"@, matcher@),
    {
        let b = matcher.as_bytes();
        if let Some((m, e)) = parse_f_cardinality(b, 0) {
            if e == b.len() {
                return Ok(m);
            }
        }
        Err(ParseMatcherError::invalid("cardinality matcher", matcher))
    }
}

impl FieldMatcher {
    /// Creates a field matcher from its text, such as
    /// `012A.a? && (012A.b? || 012A.c?)`; fails unless the whole text is
    /// one.
    pub fn new(matcher: &str) -> (r: Result<Self, ParseMatcherError>)
        ensures
            r is Ok <==> whole(field_matcher_at(matcher.spec_bytes(), 0), matcher.spec_bytes().len()),
            r matches Ok(m) ==> field_matcher_at(matcher.spec_bytes(), 0) == Some(
                (field_ast(m), matcher.spec_bytes().len() as int),
            ),
            r matches Err(e) ==> e@ == invalid_message("field matcher"@, matcher@),
    {
        let b = matcher.as_bytes();
        if let Some((m, e)) = parse_field_matcher_at(b, 0) {
            if e == b.len() {
                return Ok(m);
            }
        }
        Err(ParseMatcherError::invalid("field matcher", matcher))
    }
}

} // verus!
