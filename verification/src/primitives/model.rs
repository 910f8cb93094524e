//! The mathematical model of normalized PICA+: what a well-formed
//! subfield, tag, occurrence, field and record is, and the bytes that
//! represent each of them.
use vstd::prelude::*;

verus! {

/// The unit separator, which starts a subfield.
pub const UNIT_SEPARATOR: u8 = 0x1f;

/// The record separator, which ends a field.
pub const RECORD_SEPARATOR: u8 = 0x1e;

/// The line feed, which ends a record.
pub const LINE_FEED: u8 = 0x0a;

/// An ASCII digit.
pub open spec fn is_digit(c: u8) -> bool {
    0x30 <= c <= 0x39
}

/// An ASCII upper-case letter.
pub open spec fn is_upper(c: u8) -> bool {
    0x41 <= c <= 0x5a
}

/// An ASCII lower-case letter.
pub open spec fn is_lower(c: u8) -> bool {
    0x61 <= c <= 0x7a
}

/// A subfield code is a single ASCII alpha-numeric character.
pub open spec fn is_subfield_code(c: u8) -> bool {
    is_digit(c) || is_lower(c) || is_upper(c)
}

/// One of the two separators that a subfield value must not contain.
pub open spec fn is_separator(c: u8) -> bool {
    c == UNIT_SEPARATOR || c == RECORD_SEPARATOR
}

/// A subfield value contains neither the unit nor the record separator.
pub open spec fn is_subfield_value(v: Seq<u8>) -> bool {
    forall|i: int| 0 <= i < v.len() ==> !is_separator(#[trigger] v[i])
}

/// A tag: a level digit `0`, `1` or `2`, two digits, and an upper-case
/// letter or `@`.
pub open spec fn is_tag(t: Seq<u8>) -> bool {
    &&& t.len() == 4
    &&& 0x30 <= t[0] <= 0x32
    &&& is_digit(t[1])
    &&& is_digit(t[2])
    &&& (is_upper(t[3]) || t[3] == 0x40)
}

/// All bytes are ASCII digits.
pub open spec fn all_digits(s: Seq<u8>) -> bool {
    forall|i: int| 0 <= i < s.len() ==> is_digit(#[trigger] s[i])
}

/// An occurrence: two or three digits.
pub open spec fn is_occurrence(o: Seq<u8>) -> bool {
    2 <= o.len() <= 3 && all_digits(o)
}

/// The model of a subfield.
pub struct SpecSubfield {
    pub code: u8,
    pub value: Seq<u8>,
}

impl SpecSubfield {
    pub open spec fn wf(self) -> bool {
        is_subfield_code(self.code) && is_subfield_value(self.value)
    }

    /// `\x1f`, the code and the value.
    pub open spec fn bytes(self) -> Seq<u8> {
        seq![UNIT_SEPARATOR, self.code] + self.value
    }
}

/// The model of a field.
pub struct SpecField {
    pub tag: Seq<u8>,
    pub occurrence: Option<Seq<u8>>,
    pub subfields: Seq<SpecSubfield>,
}

/// All subfields are well-formed.
pub open spec fn subfields_wf(ss: Seq<SpecSubfield>) -> bool {
    forall|i: int| 0 <= i < ss.len() ==> (#[trigger] ss[i]).wf()
}

/// The bytes of a list of subfields, one after the other.
pub open spec fn subfields_bytes(ss: Seq<SpecSubfield>) -> Seq<u8>
    decreases ss.len(),
{
    if ss.len() == 0 {
        Seq::empty()
    } else {
        ss[0].bytes() + subfields_bytes(ss.drop_first())
    }
}

/// `/` and the occurrence, or nothing.
pub open spec fn occurrence_bytes(o: Option<Seq<u8>>) -> Seq<u8> {
    match o {
        Some(o) => seq![0x2fu8] + o,
        None => Seq::empty(),
    }
}

impl SpecField {
    pub open spec fn wf(self) -> bool {
        &&& is_tag(self.tag)
        &&& (self.occurrence matches Some(o) ==> is_occurrence(o))
        &&& subfields_wf(self.subfields)
    }

    /// The tag, the occurrence, a space, the subfields and `\x1e`.
    pub open spec fn bytes(self) -> Seq<u8> {
        self.tag + occurrence_bytes(self.occurrence) + seq![0x20u8]
            + subfields_bytes(self.subfields) + seq![RECORD_SEPARATOR]
    }
}

/// All fields are well-formed.
pub open spec fn fields_wf(fs: Seq<SpecField>) -> bool {
    forall|i: int| 0 <= i < fs.len() ==> (#[trigger] fs[i]).wf()
}

/// The bytes of a list of fields, one after the other.
pub open spec fn fields_bytes(fs: Seq<SpecField>) -> Seq<u8>
    decreases fs.len(),
{
    if fs.len() == 0 {
        Seq::empty()
    } else {
        fs[0].bytes() + fields_bytes(fs.drop_first())
    }
}

/// A record that can be written and read back: at least one field, each
/// of them well-formed.
pub open spec fn record_wf(fs: Seq<SpecField>) -> bool {
    fs.len() >= 1 && fields_wf(fs)
}

/// The bytes of a record: its fields and a line feed; nothing at all
/// for a record without fields.
pub open spec fn record_bytes(fs: Seq<SpecField>) -> Seq<u8> {
    if fs.len() == 0 {
        Seq::empty()
    } else {
        fields_bytes(fs) + seq![LINE_FEED]
    }
}

/// The byte sequences that are the representation of some well-formed
/// subfield.
pub open spec fn is_subfield_bytes(b: Seq<u8>) -> bool {
    exists|s: SpecSubfield| s.wf() && s.bytes() == b
}

/// The byte sequences that are the representation of some well-formed
/// field.
pub open spec fn is_field_bytes(b: Seq<u8>) -> bool {
    exists|f: SpecField| f.wf() && f.bytes() == b
}

/// The byte sequences that are the representation of some well-formed
/// record.
pub open spec fn is_record_bytes(b: Seq<u8>) -> bool {
    exists|r: Seq<SpecField>| record_wf(r) && record_bytes(r) == b
}

/// Concatenating two lists of subfields concatenates their bytes.
pub proof fn lemma_subfields_bytes_append(a: Seq<SpecSubfield>, b: Seq<SpecSubfield>)
    ensures
        subfields_bytes(a + b) == subfields_bytes(a) + subfields_bytes(b),
    decreases a.len(),
{
    if a.len() == 0 {
        assert(a + b =~= b);
    } else {
        assert((a + b).drop_first() =~= a.drop_first() + b);
        lemma_subfields_bytes_append(a.drop_first(), b);
        assert(subfields_bytes(a + b) =~= subfields_bytes(a) + subfields_bytes(b));
    }
}

/// Concatenating two lists of fields concatenates their bytes.
pub proof fn lemma_fields_bytes_append(a: Seq<SpecField>, b: Seq<SpecField>)
    ensures
        fields_bytes(a + b) == fields_bytes(a) + fields_bytes(b),
    decreases a.len(),
{
    if a.len() == 0 {
        assert(a + b =~= b);
    } else {
        assert((a + b).drop_first() =~= a.drop_first() + b);
        lemma_fields_bytes_append(a.drop_first(), b);
        assert(fields_bytes(a + b) =~= fields_bytes(a) + fields_bytes(b));
    }
}

/// The bytes of a single subfield.
pub proof fn lemma_subfields_bytes_single(s: SpecSubfield)
    ensures
        subfields_bytes(seq![s]) == s.bytes(),
{
    assert(seq![s].drop_first() =~= Seq::<SpecSubfield>::empty());
    assert(subfields_bytes(Seq::<SpecSubfield>::empty()) == Seq::<u8>::empty());
    assert(subfields_bytes(seq![s]) =~= s.bytes());
}

/// The bytes of a single field.
pub proof fn lemma_fields_bytes_single(f: SpecField)
    ensures
        fields_bytes(seq![f]) == f.bytes(),
{
    assert(seq![f].drop_first() =~= Seq::<SpecField>::empty());
    assert(fields_bytes(Seq::<SpecField>::empty()) == Seq::<u8>::empty());
    assert(fields_bytes(seq![f]) =~= f.bytes());
}

} // verus!
