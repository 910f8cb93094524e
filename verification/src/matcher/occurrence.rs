//! Matcher that can be applied on an optional [OccurrenceRef].
use vstd::prelude::*;

use vstd::string::StringSliceAdditionalSpecFns;

use super::error::{invalid_message, ParseMatcherError};
use crate::bytes::{bytes_as_chars, bytes_eq, lex_le, lex_le_bytes, push_bytes_as_chars};
use crate::parser::{byte_at, byte_is};
use crate::primitives::decode::dec_occurrence;
use crate::primitives::model::is_occurrence;
use crate::primitives::occurrence::parse_occurrence_at;
use crate::primitives::parse::slice_range;
use crate::text::push_char;
use crate::primitives::{Occurrence, OccurrenceRef};

verus! {

/// A matcher on occurrences: one occurrence, a range of them, the
/// absence of an occurrence (which also accepts `00`), or any.
#[derive(Debug, Clone, PartialEq, Eq)]
pub enum OccurrenceMatcher {
    Exact(Occurrence),
    Range(Occurrence, Occurrence),
    Absent,
    Any,
}

/// The text of an occurrence matcher: `/` and the occurrence, `/` and the
/// range, `/*`, or nothing.
pub open spec fn occurrence_matcher_text(m: OccurrenceMatcher) -> Seq<char> {
    match m {
        OccurrenceMatcher::Exact(o) => seq!['/'] + bytes_as_chars(o@),
        OccurrenceMatcher::Range(a, b) => seq!['/'] + bytes_as_chars(a@) + seq!['-'] + bytes_as_chars(
            b@,
        ),
        OccurrenceMatcher::Any => seq!['/', '*'],
        OccurrenceMatcher::Absent => Seq::empty(),
    }
}

impl OccurrenceMatcher {
    /// The matcher as a human-readable string.
    pub fn to_string(&self) -> (r: String)
        ensures
            r@ == occurrence_matcher_text(*self),
    {
        let mut out = String::new();
        match self {
            OccurrenceMatcher::Exact(o) => {
                push_char(&mut out, '/');
                push_bytes_as_chars(&mut out, o.as_bytes());
            },
            OccurrenceMatcher::Range(a, b) => {
                push_char(&mut out, '/');
                push_bytes_as_chars(&mut out, a.as_bytes());
                push_char(&mut out, '-');
                push_bytes_as_chars(&mut out, b.as_bytes());
            },
            OccurrenceMatcher::Any => {
                push_char(&mut out, '/');
                push_char(&mut out, '*');
            },
            OccurrenceMatcher::Absent => {},
        }
        assert(out@ =~= occurrence_matcher_text(*self));
        out
    }

    /// The occurrences that the matcher accepts.
    pub open spec fn spec_is_match(&self, occurrence: Option<Seq<u8>>) -> bool {
        match occurrence {
            None => self is Any || self is Absent,
            Some(occ) => match *self {
                OccurrenceMatcher::Any => true,
                OccurrenceMatcher::Absent => occ == seq![0x30u8, 0x30u8],
                OccurrenceMatcher::Exact(rhs) => occ == rhs@,
                OccurrenceMatcher::Range(min, max) => lex_le(min@, occ) && lex_le(occ, max@),
            },
        }
    }

    /// Tells whether the occurrence (or its absence) matches.
    pub fn is_match(&self, other: Option<&OccurrenceRef>) -> (r: bool)
        ensures
            r == self.spec_is_match(
                match other {
                    Some(o) => Some(o@),
                    None => None,
                },
            ),
    {
        match other {
            None => match self {
                OccurrenceMatcher::Any | OccurrenceMatcher::Absent => true,
                _ => false,
            },
            Some(occ) => {
                let bytes = occ.as_bytes();
                match self {
                    OccurrenceMatcher::Any => true,
                    OccurrenceMatcher::Absent => {
                        let r = bytes.len() == 2 && bytes[0] == 0x30 && bytes[1] == 0x30;
                        assert(r == (bytes@ =~= seq![0x30u8, 0x30u8]));
                        r
                    },
                    OccurrenceMatcher::Exact(rhs) => bytes_eq(bytes, rhs.as_bytes()),
                    OccurrenceMatcher::Range(min, max) => lex_le_bytes(min.as_bytes(), bytes)
                        && lex_le_bytes(bytes, max.as_bytes()),
                }
            },
        }
    }
}


/// What an occurrence matcher is read as.
pub enum OccurrenceAst {
    Exact(Seq<u8>),
    Range(Seq<u8>, Seq<u8>),
    Absent,
    Any,
}

/// What the occurrence matcher is read as.
pub open spec fn occurrence_ast(m: OccurrenceMatcher) -> OccurrenceAst {
    match m {
        OccurrenceMatcher::Exact(o) => OccurrenceAst::Exact(o@),
        OccurrenceMatcher::Range(a, b) => OccurrenceAst::Range(a@, b@),
        OccurrenceMatcher::Absent => OccurrenceAst::Absent,
        OccurrenceMatcher::Any => OccurrenceAst::Any,
    }
}

/// `a` comes before `b` in the order of byte slices.
pub open spec fn lex_lt(a: Seq<u8>, b: Seq<u8>) -> bool {
    lex_le(a, b) && a != b
}

/// An occurrence matcher at `i`, which never fails: after `/`, a range of
/// occurrences of equal length whose first comes before its last, an
/// occurrence other than `00`, `00` (no occurrence) or `*` (any); where
/// none of these follows, or no `/` stands at `i`, nothing is read and the
/// matcher is the absence of an occurrence.
pub open spec fn occurrence_matcher_at(b: Seq<u8>, i: int) -> (OccurrenceAst, int) {
    if byte_at(b, i, 0x2f) {
        let p = i + 1;
        let range = match dec_occurrence(b, p) {
            Some(e1) => if byte_at(b, e1, 0x2d) {
                match dec_occurrence(b, e1 + 1) {
                    Some(e2) => {
                        let min = b.subrange(p, e1);
                        let max = b.subrange(e1 + 1, e2);
                        if min.len() == max.len() && lex_lt(min, max) {
                            Some((OccurrenceAst::Range(min, max), e2))
                        } else {
                            None
                        }
                    },
                    None => None,
                }
            } else {
                None
            },
            None => None,
        };
        match range {
            Some(x) => x,
            None => match dec_occurrence(b, p) {
                Some(e1) => if b.subrange(p, e1) != seq![0x30u8, 0x30u8] {
                    (OccurrenceAst::Exact(b.subrange(p, e1)), e1)
                } else {
                    (OccurrenceAst::Absent, p + 2)
                },
                None => if byte_at(b, p, 0x2a) {
                    (OccurrenceAst::Any, p + 1)
                } else {
                    (OccurrenceAst::Absent, i)
                },
            },
        }
    } else {
        (OccurrenceAst::Absent, i)
    }
}

/// An occurrence read from the bytes.
proof fn lemma_dec_occurrence_is(b: Seq<u8>, i: int)
    requires
        dec_occurrence(b, i) is Some,
    ensures
        is_occurrence(b.subrange(i, dec_occurrence(b, i).unwrap())),
        i + 2 <= dec_occurrence(b, i).unwrap() <= i + 3,
        dec_occurrence(b, i).unwrap() <= b.len(),
{
    let e = dec_occurrence(b, i).unwrap();
    let o = b.subrange(i, e);
    assert(o[0] == b[i] && o[1] == b[i + 1]);
    if e == i + 3 {
        assert(o[2] == b[i + 2]);
    }
}

/// Reads an occurrence matcher at `i`.
pub(crate) fn parse_occurrence_matcher(b: &[u8], i: usize) -> (r: (OccurrenceMatcher, usize))
    requires
        i <= b@.len(),
    ensures
        (occurrence_ast(r.0), r.1 as int) == occurrence_matcher_at(b@, i as int),
        i <= r.1 <= b@.len(),
{
    if !byte_is(b, i, 0x2f) {
        return (OccurrenceMatcher::Absent, i);
    }
    let p = i + 1;
    if let Some(e1) = parse_occurrence_at(b, p) {
        proof {
            lemma_dec_occurrence_is(b@, p as int);
        }
        if byte_is(b, e1, 0x2d) {
            if let Some(e2) = parse_occurrence_at(b, e1 + 1) {
                proof {
                    lemma_dec_occurrence_is(b@, e1 + 1);
                }
                let min = slice_range(b, p, e1);
                let max = slice_range(b, e1 + 1, e2);
                if min.len() == max.len() && lex_le_bytes(min, max) && !bytes_eq(min, max) {
                    let a = Occurrence::from_ref(OccurrenceRef::from_unchecked(min));
                    let c = Occurrence::from_ref(OccurrenceRef::from_unchecked(max));
                    return (OccurrenceMatcher::Range(a, c), e2);
                }
            }
        }
        let o = slice_range(b, p, e1);
        if !(o.len() == 2 && o[0] == 0x30 && o[1] == 0x30) {
            assert(o@ != seq![0x30u8, 0x30u8]);
            return (OccurrenceMatcher::Exact(Occurrence::from_ref(OccurrenceRef::from_unchecked(o))), e1);
        }
        assert(o@ =~= seq![0x30u8, 0x30u8]);
        return (OccurrenceMatcher::Absent, p + 2);
    }
    if byte_is(b, p, 0x2a) {
        return (OccurrenceMatcher::Any, p + 1);
    }
    (OccurrenceMatcher::Absent, i)
}

impl OccurrenceMatcher {
    /// Creates an occurrence matcher from its text, such as `/01`,
    /// `/01-09` or `/*`; fails unless the whole text is read.
    pub fn new(matcher: &str) -> (r: Result<Self, ParseMatcherError>)
        ensures
            r is Ok <==> occurrence_matcher_at(matcher.spec_bytes(), 0).1 == matcher.spec_bytes().len(),
            r matches Ok(m) ==> occurrence_ast(m) == occurrence_matcher_at(matcher.spec_bytes(), 0).0,
            r matches Err(e) ==> e@ == invalid_message("occurrence matcher"@, matcher@),
    {
        let b = matcher.as_bytes();
        let (m, e) = parse_occurrence_matcher(b, 0);
        if e == b.len() {
            Ok(m)
        } else {
            Err(ParseMatcherError::invalid("occurrence matcher", matcher))
        }
    }
}

} // verus!
