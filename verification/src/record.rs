//! Records read from their bytes, which keep those bytes to write them
//! out again.
use vstd::prelude::*;
use vstd::utf8::valid_utf8;

use crate::primitives::model::{record_bytes, SpecField};
use crate::primitives::record::select;
use crate::primitives::{FieldRef, ParsePicaError, RecordRef};
use crate::text::{sha256, sha256_digest};

verus! {

/// The subfield values of all fields are valid UTF-8.
pub open spec fn record_utf8(fs: Seq<SpecField>) -> bool {
    forall|i: int, j: int|
        0 <= i < fs.len() && 0 <= j < fs[i].subfields.len() ==> valid_utf8(
            #[trigger] fs[i].subfields[j].value,
        )
}

/// A record, with the bytes it was read from where they still describe
/// it.
#[derive(Debug)]
pub struct ByteRecord<'a> {
    raw_data: Option<&'a [u8]>,
    record: RecordRef<'a>,
}

impl<'a> View for ByteRecord<'a> {
    type V = Seq<SpecField>;

    closed spec fn view(&self) -> Seq<SpecField> {
        self.record@
    }
}

impl<'a> ByteRecord<'a> {
    /// The bytes kept are those of the record.
    #[verifier::type_invariant]
    spec fn raw_is_record(self) -> bool {
        self.raw_data matches Some(d) ==> d@ == record_bytes(self.record@)
    }

    /// The fields of the record.
    pub closed spec fn field_refs(&self) -> Seq<FieldRef<'a>> {
        self.record.field_refs()
    }

    /// Reads a record from its bytes: its fields and a line feed; fails
    /// unless the bytes are a record.
    pub fn from_bytes(bytes: &'a [u8]) -> (r: Result<Self, ParsePicaError>)
        ensures
            r is Ok <==> crate::primitives::model::is_record_bytes(bytes@),
            r matches Ok(rec) ==> crate::primitives::model::record_wf(rec@) && record_bytes(rec@)
                == bytes@,
    {
        match RecordRef::from_bytes(bytes) {
            Ok(record) => Ok(ByteRecord { raw_data: Some(bytes), record }),
            Err(e) => Err(e),
        }
    }

    /// A record without bytes to keep.
    pub fn from_record(record: RecordRef<'a>) -> (r: Self)
        ensures
            r@ == record@,
    {
        ByteRecord { raw_data: None, record }
    }

    /// The record.
    pub fn record(&self) -> (r: &RecordRef<'a>)
        ensures
            r@ == self@,
            r.field_refs() == self.field_refs(),
    {
        &self.record
    }

    /// Appends the bytes of the record to `out`: the bytes it was read
    /// from where they are kept, which are those of its fields and a line
    /// feed.
    pub fn write_to(&self, out: &mut Vec<u8>)
        ensures
            final(out)@ == old(out)@ + record_bytes(self@),
    {
        proof {
            use_type_invariant(self);
        }
        match self.raw_data {
            Some(data) => {
                out.extend_from_slice(data);
            },
            None => self.record.write_to(out),
        }
    }

    /// The bytes of the record.
    pub fn to_bytes(&self) -> (r: Vec<u8>)
        ensures
            r@ == record_bytes(self@),
    {
        let mut out: Vec<u8> = Vec::new();
        self.write_to(&mut out);
        assert(out@ =~= record_bytes(self@));
        out
    }

    /// Keeps only the fields for which the predicate holds, in their order;
    /// the bytes the record was read from are no longer kept.
    pub fn retain<F: Fn(&FieldRef<'a>) -> bool>(&mut self, f: F)
        requires
            forall|i: int|
                0 <= i < old(self).field_refs().len() ==> f.requires((&old(self).field_refs()[i],)),
        ensures
            exists|keep: Seq<bool>|
                keep.len() == old(self)@.len() && (forall|i: int|
                    0 <= i < keep.len() ==> f.ensures(
                        (&old(self).field_refs()[i],),
                        #[trigger] keep[i],
                    ))
                    && final(self)@ == select(old(self)@, keep),
    {
        self.raw_data = None;
        let mut record = RecordRef(Vec::new());
        std::mem::swap(&mut record, &mut self.record);
        assert(record.field_refs() == old(self).field_refs());
        assert(record@ == old(self)@);
        record.retain(f);
        self.record = record;
    }

    /// The SHA-256 digest of the bytes of the record.
    pub fn sha256(&self) -> (r: Vec<u8>)
        ensures
            r@ == sha256_digest(record_bytes(self@)),
            r@.len() == 32,
    {
        let data = self.to_bytes();
        sha256(data.as_slice())
    }

    /// Fails if the value of a subfield is not valid UTF-8.
    pub fn validate(&self) -> (r: Result<(), std::str::Utf8Error>)
        ensures
            r is Ok <==> record_utf8(self@),
    {
        self.record.validate()
    }
}

impl<'a> PartialEq for ByteRecord<'a> {
    /// Two records are equal where they are written as the same bytes.
    fn eq(&self, other: &Self) -> (r: bool) {
        let a = self.to_bytes();
        let b = other.to_bytes();
        crate::bytes::bytes_eq(a.as_slice(), b.as_slice())
    }
}

impl<'a> vstd::std_specs::cmp::PartialEqSpecImpl for ByteRecord<'a> {
    open spec fn obeys_eq_spec() -> bool {
        true
    }

    open spec fn eq_spec(&self, other: &Self) -> bool {
        record_bytes(self@) == record_bytes(other@)
    }
}

/// A record whose subfield values are valid UTF-8.
#[derive(Debug)]
pub struct StringRecord<'a>(ByteRecord<'a>);

impl<'a> View for StringRecord<'a> {
    type V = Seq<SpecField>;

    closed spec fn view(&self) -> Seq<SpecField> {
        self.0@
    }
}

impl<'a> StringRecord<'a> {
    /// The subfield values are valid UTF-8.
    #[verifier::type_invariant]
    spec fn values_are_utf8(self) -> bool {
        record_utf8(self.0@)
    }

    /// A string record from a record whose subfield values are valid
    /// UTF-8; fails where one is not.
    pub fn try_from(record: ByteRecord<'a>) -> (r: Result<Self, std::str::Utf8Error>)
        ensures
            r is Ok <==> record_utf8(record@),
            r matches Ok(s) ==> s@ == record@,
    {
        match record.validate() {
            Ok(()) => Ok(StringRecord(record)),
            Err(e) => Err(e),
        }
    }

    /// The record.
    pub fn byte_record(&self) -> (r: &ByteRecord<'a>)
        ensures
            r@ == self@,
            record_utf8(r@),
    {
        proof {
            use_type_invariant(self);
        }
        &self.0
    }
}

} // verus!
