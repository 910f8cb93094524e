use vstd::prelude::*;

use super::decode::{lemma_dec_field_complete, lemma_dec_field_sound};
use super::error::ParsePicaError;
use super::model::{
    is_field_bytes, is_occurrence, is_subfield_value, is_tag, lemma_subfields_bytes_append,
    lemma_subfields_bytes_single, occurrence_bytes, subfields_bytes, SpecField,
};
use super::occurrence::{Occurrence, OccurrenceRef};
use super::parse::parse_field_at;
use super::subfield::{
    is_code_char, owned_subfield_views, subfield_views, Subfield, SubfieldRef,
};
use super::tag::{level_of, Level, Tag, TagRef};
use vstd::string::StringSliceAdditionalSpecFns;
use vstd::utf8::valid_utf8;

verus! {

/// The bytes of an optional occurrence given as a string slice.
pub open spec fn occurrence_input_bytes<'a>(occ: Option<&'a str>) -> Option<Seq<u8>> {
    match occ {
        Some(o) => Some(o.spec_bytes()),
        None => None,
    }
}

/// Tag, occurrence and subfields given as string slices make a
/// well-formed field.
pub open spec fn field_input_ok<'a>(tag: &'a str, occ: Option<&'a str>, subfields: Seq<(char, &'a str)>) -> bool {
    &&& is_tag(tag.spec_bytes())
    &&& (occ matches Some(o) ==> is_occurrence(o.spec_bytes()))
    &&& forall|i: int| 0 <= i < subfields.len() ==> subfield_input_ok(#[trigger] subfields[i])
}

/// A code and a value given as a string slice make a well-formed subfield.
pub open spec fn subfield_input_ok<'a>(s: (char, &'a str)) -> bool {
    is_code_char(s.0) && is_subfield_value(s.1.spec_bytes())
}

/// The field `f` is the one that tag, occurrence and subfields given as
/// string slices describe.
pub open spec fn field_from_input<'a>(f: SpecField, tag: &'a str, occ: Option<&'a str>, subfields: Seq<(char, &'a str)>) -> bool {
    &&& f.tag == tag.spec_bytes()
    &&& f.occurrence == occurrence_input_bytes(occ)
    &&& f.subfields.len() == subfields.len()
    &&& forall|i: int|
        0 <= i < subfields.len() ==> (#[trigger] f.subfields[i]).code as u32 == subfields[i].0 as u32
            && f.subfields[i].value == subfields[i].1.spec_bytes()
}

/// The views of a list of field references.
pub open spec fn field_views<'a>(v: Seq<FieldRef<'a>>) -> Seq<SpecField> {
    v.map_values(|f: FieldRef<'a>| f@)
}

/// The views of a list of fields.
pub open spec fn owned_field_views(v: Seq<Field>) -> Seq<SpecField> {
    v.map_values(|f: Field| f@)
}

/// Appends the bytes of the subfields, one after the other.
pub(crate) fn write_subfields(subfields: &[SubfieldRef<'_>], out: &mut Vec<u8>)
    ensures
        final(out)@ == old(out)@ + subfields_bytes(subfield_views(subfields@)),
{
    let ghost start = out@;
    let mut i: usize = 0;
    while i < subfields.len()
        invariant
            0 <= i <= subfields@.len(),
            out@ == start + subfields_bytes(subfield_views(subfields@).take(i as int)),
        decreases subfields@.len() - i,
    {
        let ghost views = subfield_views(subfields@);
        subfields[i].write_to(out);
        proof {
            assert(views.take(i + 1) =~= views.take(i as int) + seq![views[i as int]]);
            lemma_subfields_bytes_append(views.take(i as int), seq![views[i as int]]);
            lemma_subfields_bytes_single(views[i as int]);
        }
        i = i + 1;
    }
    assert(subfield_views(subfields@).take(i as int) =~= subfield_views(subfields@));
}

/// Appends the bytes of the subfields, one after the other.
pub(crate) fn write_owned_subfields(subfields: &[Subfield], out: &mut Vec<u8>)
    ensures
        final(out)@ == old(out)@ + subfields_bytes(owned_subfield_views(subfields@)),
{
    let ghost start = out@;
    let mut i: usize = 0;
    while i < subfields.len()
        invariant
            0 <= i <= subfields@.len(),
            out@ == start + subfields_bytes(owned_subfield_views(subfields@).take(i as int)),
        decreases subfields@.len() - i,
    {
        let ghost views = owned_subfield_views(subfields@);
        subfields[i].write_to(out);
        proof {
            assert(views.take(i + 1) =~= views.take(i as int) + seq![views[i as int]]);
            lemma_subfields_bytes_append(views.take(i as int), seq![views[i as int]]);
            lemma_subfields_bytes_single(views[i as int]);
        }
        i = i + 1;
    }
    assert(owned_subfield_views(subfields@).take(i as int) =~= owned_subfield_views(subfields@));
}

/// An immutable field: a tag, an optional occurrence and a list of
/// subfields.
#[derive(Debug, Clone, PartialEq, Eq)]
pub struct FieldRef<'a> {
    pub(crate) tag: TagRef<'a>,
    pub(crate) occurrence: Option<OccurrenceRef<'a>>,
    pub(crate) subfields: Vec<SubfieldRef<'a>>,
}

impl<'a> View for FieldRef<'a> {
    type V = SpecField;

    closed spec fn view(&self) -> SpecField {
        SpecField {
            tag: self.tag@,
            occurrence: match self.occurrence {
                Some(o) => Some(o@),
                None => None,
            },
            subfields: subfield_views(self.subfields@),
        }
    }
}

/// Builds a field reference from string slices.
pub(crate) fn field_ref_from_input<'a>(tag: &'a str, occ: Option<&'a str>, subfields: &[(char, &'a str)]) -> (r: Result<FieldRef<'a>, ParsePicaError>)
    ensures
        r is Ok <==> field_input_ok(tag, occ, subfields@),
        r matches Ok(f) ==> f@.wf() && field_from_input(f@, tag, occ, subfields@),
{
    let tag = TagRef::new(tag)?;
    let occurrence = match occ {
        Some(value) => Some(OccurrenceRef::new(value)?),
        None => None,
    };
    let mut items: Vec<SubfieldRef<'a>> = Vec::new();
    let mut i: usize = 0;
    while i < subfields.len()
        invariant
            0 <= i <= subfields@.len(),
            items@.len() == i,
            forall|k: int| 0 <= k < i ==> subfield_input_ok(#[trigger] subfields@[k]),
            forall|k: int|
                0 <= k < i ==> (#[trigger] items@[k])@.code as u32 == subfields@[k].0 as u32
                    && items@[k]@.value == subfields@[k].1.spec_bytes() && items@[k]@.wf(),
        decreases subfields@.len() - i,
    {
        let entry = subfields[i];
        assert(entry == subfields@[i as int]);
        let subfield = SubfieldRef::new(entry.0, entry.1)?;
        assert(subfield_input_ok(subfields@[i as int]));
        items.push(subfield);
        i = i + 1;
    }
    let f = FieldRef { tag, occurrence, subfields: items };
    assert(f@.subfields.len() == subfields@.len());
    assert forall|k: int| 0 <= k < subfields@.len() implies (#[trigger] f@.subfields[k]).wf() by {
        assert(f@.subfields[k] == items@[k]@);
    }
    Ok(f)
}

impl<'a> FieldRef<'a> {
    /// Creates a new field; fails unless the tag, the occurrence and
    /// every subfield are valid.
    pub fn new(tag: &'a str, occ: Option<&'a str>, subfields: Vec<(char, &'a str)>) -> (r: Result<Self, ParsePicaError>)
        ensures
            r is Ok <==> field_input_ok(tag, occ, subfields@),
            r matches Ok(f) ==> f@.wf() && field_from_input(f@, tag, occ, subfields@),
    {
        field_ref_from_input(tag, occ, subfields.as_slice())
    }

    /// A copy of the field.
    pub fn duplicate(&self) -> (r: Self)
        ensures
            r@ == self@,
    {
        let mut subfields: Vec<SubfieldRef<'a>> = Vec::new();
        let mut i: usize = 0;
        while i < self.subfields.len()
            invariant
                0 <= i <= self.subfields@.len(),
                subfields@ == self.subfields@.take(i as int),
            decreases self.subfields@.len() - i,
        {
            subfields.push(self.subfields[i]);
            assert(self.subfields@.take(i + 1) =~= self.subfields@.take(i as int).push(
                self.subfields@[i as int],
            ));
            i = i + 1;
        }
        assert(self.subfields@.take(i as int) =~= self.subfields@);
        FieldRef { tag: self.tag, occurrence: self.occurrence, subfields }
    }

    /// A field from its parts.
    pub(crate) fn from_parts(tag: TagRef<'a>, occurrence: Option<OccurrenceRef<'a>>, subfields: Vec<SubfieldRef<'a>>) -> (r: Self)
        ensures
            r@ == (SpecField {
                tag: tag@,
                occurrence: match occurrence {
                    Some(o) => Some(o@),
                    None => None,
                },
                subfields: subfield_views(subfields@),
            }),
    {
        FieldRef { tag, occurrence, subfields }
    }

    /// Creates a field from its bytes.
    pub fn from_bytes(bytes: &'a [u8]) -> (r: Result<Self, ParsePicaError>)
        ensures
            r is Ok <==> is_field_bytes(bytes@),
            r matches Ok(f) ==> f@.wf() && f@.bytes() == bytes@,
    {
        match parse_field_at(bytes, 0) {
            Some((field, end)) => {
                proof {
                    lemma_dec_field_sound(bytes@, 0);
                }
                if end == bytes.len() {
                    assert(bytes@.subrange(0, end as int) =~= bytes@);
                    return Ok(field);
                }
                proof {
                    if is_field_bytes(bytes@) {
                        let f = choose|f: SpecField| f.wf() && f.bytes() == bytes@;
                        assert(bytes@.subrange(0, f.bytes().len() as int) =~= bytes@);
                        lemma_dec_field_complete(bytes@, 0, f);
                    }
                }
            },
            None => {
                proof {
                    if is_field_bytes(bytes@) {
                        let f = choose|f: SpecField| f.wf() && f.bytes() == bytes@;
                        assert(bytes@.subrange(0, f.bytes().len() as int) =~= bytes@);
                        lemma_dec_field_complete(bytes@, 0, f);
                    }
                }
            },
        }
        Err(ParsePicaError::on_bytes("invalid field '", bytes, "'"))
    }

    /// Returns the tag of the field.
    pub fn tag(&self) -> (r: &TagRef<'a>)
        ensures
            r@ == self@.tag,
    {
        &self.tag
    }

    /// Returns the occurrence of the field, if it has one.
    pub fn occurrence(&self) -> (r: Option<&OccurrenceRef<'a>>)
        ensures
            match r {
                Some(o) => self@.occurrence == Some(o@),
                None => self@.occurrence is None,
            },
    {
        self.occurrence.as_ref()
    }

    /// Returns the subfields of the field.
    pub fn subfields(&self) -> (r: &[SubfieldRef<'a>])
        ensures
            subfield_views(r@) == self@.subfields,
            r@ == self.subfield_refs(),
    {
        self.subfields.as_slice()
    }

    /// Tells whether the field has a subfield with the given code.
    pub fn contains(&self, code: char) -> (r: bool)
        ensures
            r == exists|i: int|
                0 <= i < self@.subfields.len() && (#[trigger] self@.subfields[i]).code as u32
                    == code as u32,
    {
        let mut i: usize = 0;
        while i < self.subfields.len()
            invariant
                0 <= i <= self.subfields@.len(),
                forall|k: int| 0 <= k < i ==> (#[trigger] self@.subfields[k]).code as u32 != code as u32,
            decreases self.subfields@.len() - i,
        {
            let c = self.subfields[i].code();
            if c.as_byte() as u32 == code as u32 {
                assert(self@.subfields[i as int].code as u32 == code as u32);
                return true;
            }
            i = i + 1;
        }
        false
    }

    /// The subfields of the field, in order.
    pub closed spec fn subfield_refs(&self) -> Seq<SubfieldRef<'a>> {
        self.subfields@
    }

    /// The subfields of the field are read as its subfields.
    pub proof fn lemma_subfield_refs(&self)
        ensures
            subfield_views(self.subfield_refs()) == self@.subfields,
    {
    }

    /// Searches for the first subfield that the predicate accepts.
    pub fn find<F: Fn(&SubfieldRef<'a>) -> bool>(&self, predicate: F) -> (r: Option<&SubfieldRef<'a>>)
        requires
            forall|i: int| 0 <= i < self.subfield_refs().len() ==> predicate.requires(
                (&#[trigger] self.subfield_refs()[i],),
            ),
        ensures
            match r {
                Some(s) => exists|i: int|
                    0 <= i < self.subfield_refs().len() && *s == #[trigger] self.subfield_refs()[i]
                        && predicate.ensures((&self.subfield_refs()[i],), true) && forall|j: int|
                        0 <= j < i ==> predicate.ensures((&#[trigger] self.subfield_refs()[j],), false),
                None => forall|j: int|
                    0 <= j < self.subfield_refs().len() ==> predicate.ensures(
                        (&#[trigger] self.subfield_refs()[j],),
                        false,
                    ),
            },
    {
        let mut i: usize = 0;
        while i < self.subfields.len()
            invariant
                0 <= i <= self.subfields@.len(),
                self.subfields@ == self.subfield_refs(),
                forall|k: int| 0 <= k < self.subfield_refs().len() ==> predicate.requires(
                    (&#[trigger] self.subfield_refs()[k],),
                ),
                forall|j: int| 0 <= j < i ==> predicate.ensures((&#[trigger] self.subfield_refs()[j],), false),
            decreases self.subfields@.len() - i,
        {
            let s = &self.subfields[i];
            assert(*s == self.subfield_refs()[i as int]);
            if predicate(s) {
                return Some(s);
            }
            i = i + 1;
        }
        None
    }

    /// Returns the level of the field.
    pub fn level(&self) -> (r: Level)
        ensures
            r == level_of(self@.tag[0]),
    {
        self.tag.level()
    }

    /// Fails if the value of a subfield is not valid UTF-8.
    pub fn validate(&self) -> (r: Result<(), std::str::Utf8Error>)
        ensures
            r is Ok <==> forall|i: int|
                0 <= i < self@.subfields.len() ==> valid_utf8(#[trigger] self@.subfields[i].value),
    {
        let mut i: usize = 0;
        while i < self.subfields.len()
            invariant
                0 <= i <= self.subfields@.len(),
                forall|k: int| 0 <= k < i ==> valid_utf8(#[trigger] self@.subfields[k].value),
            decreases self.subfields@.len() - i,
        {
            let r = self.subfields[i].validate();
            if r.is_err() {
                assert(!valid_utf8(self@.subfields[i as int].value));
                return r;
            }
            i = i + 1;
        }
        Ok(())
    }

    /// Appends the bytes of the field to `out`.
    pub fn write_to(&self, out: &mut Vec<u8>)
        ensures
            final(out)@ == old(out)@ + self@.bytes(),
    {
        let ghost start = out@;
        self.tag.write_to(out);
        if let Some(ref occ) = self.occurrence {
            occ.write_to(out);
        }
        assert(out@ =~= start + self@.tag + occurrence_bytes(self@.occurrence));
        out.push(0x20);
        write_subfields(self.subfields.as_slice(), out);
        out.push(0x1e);
        assert(final(out)@ =~= start + self@.bytes());
    }
}

/// A mutable field: a tag, an optional occurrence and a list of
/// subfields.
#[derive(Debug, Clone, PartialEq, Eq)]
pub struct Field {
    pub(crate) tag: Tag,
    pub(crate) occurrence: Option<Occurrence>,
    pub(crate) subfields: Vec<Subfield>,
}

impl View for Field {
    type V = SpecField;

    closed spec fn view(&self) -> SpecField {
        SpecField {
            tag: self.tag@,
            occurrence: match self.occurrence {
                Some(o) => Some(o@),
                None => None,
            },
            subfields: owned_subfield_views(self.subfields@),
        }
    }
}

impl Field {
    /// Creates a new field; fails unless the tag, the occurrence and
    /// every subfield are valid.
    pub fn new<'a>(tag: &'a str, occ: Option<&'a str>, subfields: Vec<(char, &'a str)>) -> (r: Result<Self, ParsePicaError>)
        ensures
            r is Ok <==> field_input_ok(tag, occ, subfields@),
            r matches Ok(f) ==> f@.wf() && field_from_input(f@, tag, occ, subfields@),
    {
        let field = field_ref_from_input(tag, occ, subfields.as_slice())?;
        Ok(Self::from_ref(&field))
    }

    /// Returns the tag of the field.
    pub fn tag(&self) -> (r: &Tag)
        ensures
            r@ == self@.tag,
    {
        &self.tag
    }

    /// Returns the subfields of the field.
    pub fn subfields(&self) -> (r: &[Subfield])
        ensures
            owned_subfield_views(r@) == self@.subfields,
    {
        self.subfields.as_slice()
    }

    /// Appends the bytes of the field to `out`.
    pub fn write_to(&self, out: &mut Vec<u8>)
        ensures
            final(out)@ == old(out)@ + self@.bytes(),
    {
        let ghost start = out@;
        self.tag.write_to(out);
        if let Some(ref occ) = self.occurrence {
            occ.write_to(out);
        }
        assert(out@ =~= start + self@.tag + occurrence_bytes(self@.occurrence));
        out.push(0x20);
        write_owned_subfields(self.subfields.as_slice(), out);
        out.push(0x1e);
        assert(final(out)@ =~= start + self@.bytes());
    }

    /// Converts a field reference into an owned field.
    pub fn from_ref(field: &FieldRef<'_>) -> (r: Self)
        ensures
            r@ == field@,
    {
        let subfields = &field.subfields;
        let occurrence = match field.occurrence {
            Some(o) => Some(Occurrence::from_ref(o)),
            None => None,
        };
        let mut items: Vec<Subfield> = Vec::new();
        let mut i: usize = 0;
        while i < subfields.len()
            invariant
                0 <= i <= subfields@.len(),
                owned_subfield_views(items@) =~= subfield_views(subfields@).take(i as int),
            decreases subfields@.len() - i,
        {
            let s = subfields[i];
            let ghost old_items = items@;
            items.push(Subfield::from_ref(s));
            proof {
                assert(owned_subfield_views(items@) =~= owned_subfield_views(old_items).push(
                    subfield_views(subfields@)[i as int],
                ));
                assert(subfield_views(subfields@).take(i + 1) =~= subfield_views(subfields@).take(
                    i as int,
                ).push(subfield_views(subfields@)[i as int]));
            }
            i = i + 1;
        }
        assert(subfield_views(subfields@).take(i as int) =~= subfield_views(subfields@));
        Field { tag: Tag::from_ref(field.tag), occurrence, subfields: items }
    }
}

} // verus!
