//! Laws of the PICA+ representation: writing a value and reading the
//! bytes back gives the same value.
use vstd::prelude::*;

use super::decode::{
    lemma_dec_field_complete, lemma_dec_record_complete, lemma_dec_subfield_complete,
};
use super::subfield::is_code_char;
use crate::parser::codes_at;
use super::model::{
    is_subfield_code, is_field_bytes, is_record_bytes, is_subfield_bytes, record_bytes, record_wf, SpecField,
    SpecSubfield,
};

verus! {

/// Reading back the bytes that a well-formed subfield is written as gives
/// that subfield: the bytes can be read, and no other well-formed subfield
/// has them.
pub proof fn law_subfield_roundtrip(s: SpecSubfield)
    requires
        s.wf(),
    ensures
        is_subfield_bytes(s.bytes()),
        forall|x: SpecSubfield| #![trigger x.bytes()] x.wf() && x.bytes() == s.bytes() ==> x == s,
{
    let b = s.bytes();
    assert(b.subrange(0, b.len() as int) =~= b);
    lemma_dec_subfield_complete(b, 0, s);
    assert forall|x: SpecSubfield| #![trigger x.bytes()] x.wf() && x.bytes() == s.bytes() implies x
        == s by {
        lemma_dec_subfield_complete(b, 0, x);
    }
}

/// Reading back the bytes that a well-formed field is written as gives that
/// field: the bytes can be read, and no other well-formed field has them.
pub proof fn law_field_roundtrip(f: SpecField)
    requires
        f.wf(),
    ensures
        is_field_bytes(f.bytes()),
        forall|x: SpecField| #![trigger x.bytes()] x.wf() && x.bytes() == f.bytes() ==> x == f,
{
    let b = f.bytes();
    assert(b.subrange(0, b.len() as int) =~= b);
    lemma_dec_field_complete(b, 0, f);
    assert forall|x: SpecField| #![trigger x.bytes()] x.wf() && x.bytes() == f.bytes() implies x
        == f by {
        lemma_dec_field_complete(b, 0, x);
    }
}

/// Reading back the bytes that a well-formed record is written as gives
/// that record: the bytes can be read, and no other well-formed record has
/// them.
pub proof fn law_record_roundtrip(r: Seq<SpecField>)
    requires
        record_wf(r),
    ensures
        is_record_bytes(record_bytes(r)),
        forall|x: Seq<SpecField>|
            #![trigger record_bytes(x)]
            record_wf(x) && record_bytes(x) == record_bytes(r) ==> x == r,
{
    lemma_dec_record_complete(r);
    assert forall|x: Seq<SpecField>| #![trigger record_bytes(x)]
        record_wf(x) && record_bytes(x) == record_bytes(r) implies x == r by {
        lemma_dec_record_complete(x);
    }
}

/// A subfield code and its char stand for each other: a char is a code
/// exactly when its byte is one, the byte gives the char back, and the
/// byte alone reads as that one code.
pub proof fn law_subfield_code_roundtrip(c: char)
    ensures
        is_code_char(c) <==> ((c as u32) < 128 && is_subfield_code(c as u32 as u8)),
        is_code_char(c) ==> (c as u32 as u8) as u32 == c as u32,
        is_code_char(c) ==> codes_at(seq![c as u32 as u8], 0) == Some((seq![c as u32 as u8], 1int)),
{
}

} // verus!
