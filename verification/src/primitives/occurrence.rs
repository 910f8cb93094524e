use vstd::prelude::*;

use super::decode::dec_occurrence;
use super::error::{bytes_debug, ParsePicaError};
use super::model::{all_digits, is_digit, is_occurrence};
use super::subfield::{append_bytes, copy_bytes};
use vstd::string::StringSliceAdditionalSpecFns;

verus! {

pub(crate) fn is_digit_byte(c: u8) -> (r: bool)
    ensures
        r == is_digit(c),
{
    0x30 <= c && c <= 0x39
}

/// Reads an occurrence at position `i`: three digits where there are
/// three, else two.
pub(crate) fn parse_occurrence_at(b: &[u8], i: usize) -> (r: Option<usize>)
    ensures
        match r {
            Some(e) => dec_occurrence(b@, i as int) == Some(e as int),
            None => dec_occurrence(b@, i as int) is None,
        },
{
    if i <= b.len() && b.len() - i >= 3 && is_digit_byte(b[i]) && is_digit_byte(b[i + 1])
        && is_digit_byte(b[i + 2]) {
        Some(i + 3)
    } else if i <= b.len() && b.len() - i >= 2 && is_digit_byte(b[i]) && is_digit_byte(b[i + 1]) {
        Some(i + 2)
    } else {
        None
    }
}

/// Tells whether the bytes are an occurrence.
pub(crate) fn is_occurrence_bytes(b: &[u8]) -> (r: bool)
    ensures
        r == is_occurrence(b@),
{
    match parse_occurrence_at(b, 0) {
        Some(e) => {
            if e == b.len() {
                assert(all_digits(b@)) by {
                    assert forall|k: int| 0 <= k < b@.len() implies is_digit(#[trigger] b@[k]) by {
                        assert(k == 0 || k == 1 || k == 2);
                    }
                }
                true
            } else {
                false
            }
        },
        None => false,
    }
}

/// An immutable occurrence.
#[derive(Debug, Clone, Copy, PartialEq, Eq)]
pub struct OccurrenceRef<'a>(pub(crate) &'a [u8]);

impl<'a> View for OccurrenceRef<'a> {
    type V = Seq<u8>;

    closed spec fn view(&self) -> Seq<u8> {
        self.0@
    }
}

impl<'a> OccurrenceRef<'a> {
    /// Creates an occurrence from a string slice; fails unless it is two or
    /// three digits.
    pub fn new(occ: &'a str) -> (r: Result<Self, ParsePicaError>)
        ensures
            r is Ok <==> is_occurrence(occ.spec_bytes()),
            r matches Ok(o) ==> o@ == occ.spec_bytes(),
    {
        Self::from_bytes(occ.as_bytes())
    }

    /// Creates an occurrence without checking it; the caller passes two or
    /// three digits.
    pub fn from_unchecked(occurrence: &'a [u8]) -> (r: Self)
        requires
            is_occurrence(occurrence@),
        ensures
            r@ == occurrence@,
    {
        OccurrenceRef(occurrence)
    }

    /// Creates an occurrence from a byte slice; fails unless it is two or
    /// three digits.
    pub fn from_bytes(occurrence: &'a [u8]) -> (r: Result<Self, ParsePicaError>)
        ensures
            r is Ok <==> is_occurrence(occurrence@),
            r matches Ok(o) ==> o@ == occurrence@,
            r matches Err(e) ==> e@ == "invalid occurrence '"@ + bytes_debug(occurrence@) + "'"@,
    {
        if is_occurrence_bytes(occurrence) {
            Ok(OccurrenceRef(occurrence))
        } else {
            Err(ParsePicaError::on_bytes("invalid occurrence '", occurrence, "'"))
        }
    }

    /// Returns the occurrence as a byte slice.
    pub fn as_bytes(&self) -> (r: &'a [u8])
        ensures
            r@ == self@,
    {
        self.0
    }

    /// Appends `/` and the occurrence to `out`.
    pub fn write_to(&self, out: &mut Vec<u8>)
        ensures
            final(out)@ == old(out)@ + seq![0x2fu8] + self@,
    {
        out.push(0x2f);
        append_bytes(out, self.0);
    }
}

/// A mutable occurrence.
#[derive(Debug, Clone, PartialEq, Eq)]
pub struct Occurrence(pub(crate) Vec<u8>);

impl View for Occurrence {
    type V = Seq<u8>;

    closed spec fn view(&self) -> Seq<u8> {
        self.0@
    }
}

impl Occurrence {
    /// Creates an occurrence from a string slice; fails unless it is two or
    /// three digits.
    pub fn new(occurrence: &str) -> (r: Result<Self, ParsePicaError>)
        ensures
            r is Ok <==> is_occurrence(occurrence.spec_bytes()),
            r matches Ok(o) ==> o@ == occurrence.spec_bytes(),
    {
        let occ = OccurrenceRef::from_bytes(occurrence.as_bytes())?;
        Ok(Self::from_ref(occ))
    }

    /// Returns the occurrence as a byte slice.
    pub fn as_bytes(&self) -> (r: &[u8])
        ensures
            r@ == self@,
    {
        self.0.as_slice()
    }

    /// Returns the number of digits.
    pub fn len(&self) -> (r: usize)
        ensures
            r == self@.len(),
    {
        self.0.len()
    }

    /// Appends `/` and the occurrence to `out`.
    pub fn write_to(&self, out: &mut Vec<u8>)
        ensures
            final(out)@ == old(out)@ + seq![0x2fu8] + self@,
    {
        out.push(0x2f);
        append_bytes(out, self.0.as_slice());
    }

    /// Converts an occurrence reference into an owned occurrence.
    pub fn from_ref(occurrence: OccurrenceRef<'_>) -> (r: Self)
        ensures
            r@ == occurrence@,
    {
        Occurrence(copy_bytes(occurrence.0))
    }
}

} // verus!
