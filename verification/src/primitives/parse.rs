//! Parsers for the parts of a PICA+ record, each reading at a position of
//! a byte slice exactly as the corresponding `dec_` function says.
use vstd::prelude::*;

use super::decode::{
    dec_field, dec_field_occurrence, dec_fields, dec_record, dec_subfield, dec_subfields,
    lemma_dec_field_sound, lemma_dec_occurrence, lemma_dec_subfield_sound,
    lemma_dec_subfields_sound, lemma_value_end, value_end,
};
use super::field::{field_views, FieldRef};
use super::model::{is_subfield_code, SpecField, SpecSubfield};
use super::occurrence::{parse_occurrence_at, OccurrenceRef};
use super::subfield::{subfield_views, SubfieldRef};
use super::tag::{is_tag_at, TagRef};

verus! {

pub(crate) fn is_code_byte(c: u8) -> (r: bool)
    ensures
        r == is_subfield_code(c),
{
    (0x30 <= c && c <= 0x39) || (0x61 <= c && c <= 0x7a) || (0x41 <= c && c <= 0x5a)
}

/// The position of the first separator at or after `i`, or the end.
pub(crate) fn parse_value_end(b: &[u8], i: usize) -> (e: usize)
    requires
        i <= b@.len(),
    ensures
        e == value_end(b@, i as int),
{
    let mut j = i;
    while j < b.len() && b[j] != 0x1f && b[j] != 0x1e
        invariant
            i <= j <= b@.len(),
            value_end(b@, i as int) == value_end(b@, j as int),
        decreases b@.len() - j,
    {
        j = j + 1;
    }
    j
}

/// Reads a subfield at position `i`.
pub(crate) fn parse_subfield_at<'a>(b: &'a [u8], i: usize) -> (r: Option<(SubfieldRef<'a>, usize)>)
    ensures
        match r {
            Some((s, e)) => dec_subfield(b@, i as int) == Some((s@, e as int)),
            None => dec_subfield(b@, i as int) is None,
        },
{
    if i < b.len() && b.len() - i >= 2 && b[i] == 0x1f && is_code_byte(b[i + 1]) {
        let e = parse_value_end(b, i + 2);
        proof {
            lemma_value_end(b@, i + 2);
        }
        let s = SubfieldRef::from_parts(b[i + 1], slice_range(b, i + 2, e));
        Some((s, e))
    } else {
        None
    }
}

/// The bytes from `i` to `j`.
pub(crate) fn slice_range<'a>(b: &'a [u8], i: usize, j: usize) -> (r: &'a [u8])
    requires
        i <= j <= b@.len(),
    ensures
        r@ == b@.subrange(i as int, j as int),
{
    &b[i..j]
}

/// Reads as many subfields as follow each other from position `i`.
pub(crate) fn parse_subfields_at<'a>(b: &'a [u8], i: usize) -> (r: (Vec<SubfieldRef<'a>>, usize))
    requires
        i <= b@.len(),
    ensures
        dec_subfields(b@, i as int) == (subfield_views(r.0@), r.1 as int),
{
    let mut acc: Vec<SubfieldRef<'a>> = Vec::new();
    let mut pos = i;
    loop
        invariant
            i <= pos <= b@.len(),
            dec_subfields(b@, i as int) == (subfield_views(acc@) + dec_subfields(b@, pos as int).0,
                dec_subfields(b@, pos as int).1),
        decreases b@.len() - pos,
    {
        match parse_subfield_at(b, pos) {
            Some((s, e)) => {
                proof {
                    lemma_dec_subfield_sound(b@, pos as int);
                }
                let ghost old_acc = acc@;
                let ghost rest = dec_subfields(b@, e as int);
                acc.push(s);
                proof {
                    assert(subfield_views(acc@) =~= subfield_views(old_acc).push(s@));
                    assert(subfield_views(old_acc) + (seq![s@] + rest.0) =~= subfield_views(acc@)
                        + rest.0);
                }
                pos = e;
            },
            None => {
                assert(subfield_views(acc@) + Seq::<SpecSubfield>::empty() =~= subfield_views(acc@));
                return (acc, pos);
            },
        }
    }
}

/// Reads a field at position `i`.
pub(crate) fn parse_field_at<'a>(b: &'a [u8], i: usize) -> (r: Option<(FieldRef<'a>, usize)>)
    ensures
        match r {
            Some((f, e)) => dec_field(b@, i as int) == Some((f@, e as int)),
            None => dec_field(b@, i as int) is None,
        },
{
    let n = b.len();
    if !is_tag_at(b, i) {
        return None;
    }
    assert(i + 4 <= n);
    let tag = TagRef::from_unchecked(slice_range(b, i, i + 4));
    let p = i + 4;
    let mut occurrence: Option<OccurrenceRef<'a>> = None;
    let mut q = p;
    if p < b.len() && b[p] == 0x2f {
        match parse_occurrence_at(b, p + 1) {
            Some(e) => {
                proof {
                    lemma_dec_occurrence(b@, p + 1);
                }
                occurrence = Some(OccurrenceRef::from_unchecked(slice_range(b, p + 1, e)));
                q = e;
            },
            None => {
                return None;
            },
        }
    }
    assert(dec_field_occurrence(b@, p as int) == Some((
        match occurrence {
            Some(o) => Some(o@),
            None => None,
        },
        q as int,
    )));
    if !(q < b.len() && b[q] == 0x20) {
        return None;
    }
    let (subfields, r) = parse_subfields_at(b, q + 1);
    proof {
        lemma_dec_subfields_sound(b@, q + 1);
    }
    if !(r < b.len() && b[r] == 0x1e) {
        return None;
    }
    let f = FieldRef::from_parts(tag, occurrence, subfields);
    Some((f, r + 1))
}

/// Reads as many fields as follow each other from position `i`.
pub(crate) fn parse_fields_at<'a>(b: &'a [u8], i: usize) -> (r: (Vec<FieldRef<'a>>, usize))
    requires
        i <= b@.len(),
    ensures
        dec_fields(b@, i as int) == (field_views(r.0@), r.1 as int),
{
    let mut acc: Vec<FieldRef<'a>> = Vec::new();
    let mut pos = i;
    loop
        invariant
            i <= pos <= b@.len(),
            dec_fields(b@, i as int) == (field_views(acc@) + dec_fields(b@, pos as int).0,
                dec_fields(b@, pos as int).1),
        decreases b@.len() - pos,
    {
        match parse_field_at(b, pos) {
            Some((f, e)) => {
                proof {
                    lemma_dec_field_sound(b@, pos as int);
                }
                let ghost old_acc = acc@;
                let ghost rest = dec_fields(b@, e as int);
                let ghost fv = f@;
                acc.push(f);
                proof {
                    assert(field_views(acc@) =~= field_views(old_acc).push(fv));
                    assert(field_views(old_acc) + (seq![fv] + rest.0) =~= field_views(acc@)
                        + rest.0);
                }
                pos = e;
            },
            None => {
                assert(field_views(acc@) + Seq::<SpecField>::empty() =~= field_views(acc@));
                return (acc, pos);
            },
        }
    }
}

/// Reads a whole record.
pub(crate) fn parse_record<'a>(b: &'a [u8]) -> (r: Option<Vec<FieldRef<'a>>>)
    ensures
        match r {
            Some(fs) => dec_record(b@) == Some(field_views(fs@)),
            None => dec_record(b@) is None,
        },
{
    let (fields, e) = parse_fields_at(b, 0);
    if fields.len() >= 1 && e < b.len() && e + 1 == b.len() && b[e] == 0x0a {
        Some(fields)
    } else {
        None
    }
}

} // verus!
