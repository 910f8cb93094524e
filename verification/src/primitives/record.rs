use vstd::prelude::*;

use super::decode::{lemma_dec_record_complete, lemma_dec_record_sound};
use super::error::ParsePicaError;
use super::field::{
    field_from_input, field_input_ok, field_ref_from_input, field_views, owned_field_views, Field, FieldRef,
};
use super::model::{
    fields_bytes, is_record_bytes, lemma_fields_bytes_append, lemma_fields_bytes_single,
    record_bytes, record_wf, SpecField,
};
use super::parse::parse_record;
use vstd::utf8::valid_utf8;

verus! {

/// The elements of `s` whose flag in `keep` is set, in their order.
pub open spec fn select<A>(s: Seq<A>, keep: Seq<bool>) -> Seq<A>
    decreases s.len(),
{
    if s.len() == 0 {
        Seq::empty()
    } else if keep.len() > 0 && keep[0] {
        seq![s[0]] + select(s.drop_first(), keep.drop_first())
    } else {
        select(s.drop_first(), keep.drop_first())
    }
}

proof fn lemma_select_push<A>(s: Seq<A>, keep: Seq<bool>, x: A, k: bool)
    requires
        s.len() == keep.len(),
    ensures
        select(s.push(x), keep.push(k)) == if k {
            select(s, keep).push(x)
        } else {
            select(s, keep)
        },
    decreases s.len(),
{
    if s.len() == 0 {
        assert(s.push(x).drop_first() =~= Seq::<A>::empty());
        assert(keep.push(k).drop_first() =~= Seq::<bool>::empty());
        assert(select(Seq::<A>::empty(), Seq::<bool>::empty()) == Seq::<A>::empty());
        assert(seq![x] + Seq::<A>::empty() =~= Seq::<A>::empty().push(x));
    } else {
        assert(s.push(x).drop_first() =~= s.drop_first().push(x));
        assert(keep.push(k).drop_first() =~= keep.drop_first().push(k));
        lemma_select_push(s.drop_first(), keep.drop_first(), x, k);
        if keep[0] {
            assert(seq![s[0]] + select(s.drop_first(), keep.drop_first()).push(x) =~= (seq![s[0]]
                + select(s.drop_first(), keep.drop_first())).push(x));
        }
    }
}

/// A record that borrows its bytes: a list of fields.
#[derive(Debug, Clone, PartialEq, Eq)]
pub struct RecordRef<'a>(pub(crate) Vec<FieldRef<'a>>);

impl<'a> View for RecordRef<'a> {
    type V = Seq<SpecField>;

    closed spec fn view(&self) -> Seq<SpecField> {
        field_views(self.0@)
    }
}

impl<'a> RecordRef<'a> {
    /// The field references of the record.
    pub closed spec fn field_refs(&self) -> Seq<FieldRef<'a>> {
        self.0@
    }

    /// Creates a new record; fails unless every field is valid.
    pub fn new(fields: Vec<(&'a str, Option<&'a str>, Vec<(char, &'a str)>)>) -> (r: Result<Self, ParsePicaError>)
        ensures
            r is Ok <==> forall|i: int|
                0 <= i < fields@.len() ==> field_input_ok(
                    (#[trigger] fields@[i]).0,
                    fields@[i].1,
                    fields@[i].2@,
                ),
            r matches Ok(rec) ==> rec@.len() == fields@.len() && forall|i: int|
                0 <= i < fields@.len() ==> (#[trigger] rec@[i]).wf() && field_from_input(
                    rec@[i],
                    fields@[i].0,
                    fields@[i].1,
                    fields@[i].2@,
                ),
    {
        let mut items: Vec<FieldRef<'a>> = Vec::new();
        let mut i: usize = 0;
        while i < fields.len()
            invariant
                0 <= i <= fields@.len(),
                items@.len() == i,
                forall|k: int|
                    0 <= k < i ==> field_input_ok(
                        (#[trigger] fields@[k]).0,
                        fields@[k].1,
                        fields@[k].2@,
                    ),
                forall|k: int|
                    0 <= k < i ==> (#[trigger] items@[k])@.wf() && field_from_input(
                        items@[k]@,
                        fields@[k].0,
                        fields@[k].1,
                        fields@[k].2@,
                    ),
            decreases fields@.len() - i,
        {
            let entry = &fields[i];
            let field = field_ref_from_input(entry.0, entry.1, entry.2.as_slice());
            let field = match field {
                Ok(f) => f,
                Err(e) => {
                    assert(!field_input_ok(fields@[i as int].0, fields@[i as int].1, fields@[i as int].2@));
                    return Err(e);
                },
            };
            items.push(field);
            i = i + 1;
        }
        let rec = RecordRef(items);
        assert forall|k: int| 0 <= k < fields@.len() implies (#[trigger] rec@[k]).wf()
            && field_from_input(rec@[k], fields@[k].0, fields@[k].1, fields@[k].2@) by {
            assert(rec@[k] == items@[k]@);
        }
        Ok(rec)
    }

    /// Creates a record from its bytes: its fields and a line feed.
    pub fn from_bytes(bytes: &'a [u8]) -> (r: Result<Self, ParsePicaError>)
        ensures
            r is Ok <==> is_record_bytes(bytes@),
            r matches Ok(rec) ==> record_wf(rec@) && record_bytes(rec@) == bytes@,
    {
        match parse_record(bytes) {
            Some(fields) => {
                proof {
                    lemma_dec_record_sound(bytes@);
                }
                Ok(RecordRef(fields))
            },
            None => {
                proof {
                    if is_record_bytes(bytes@) {
                        let rec = choose|rec: Seq<SpecField>|
                            record_wf(rec) && record_bytes(rec) == bytes@;
                        lemma_dec_record_complete(rec);
                    }
                }
                Err(ParsePicaError::on_bytes("invalid record: '", bytes, "'"))
            },
        }
    }

    /// Returns the fields of the record.
    pub fn fields(&self) -> (r: &[FieldRef<'a>])
        ensures
            field_views(r@) == self@,
            r@ == self.field_refs(),
    {
        self.0.as_slice()
    }

    /// Tells whether the record has no fields.
    pub fn is_empty(&self) -> (r: bool)
        ensures
            r == (self@.len() == 0),
    {
        self.0.len() == 0
    }

    /// Keeps only the fields for which the predicate holds, in their
    /// order.
    pub fn retain<F: Fn(&FieldRef<'a>) -> bool>(&mut self, f: F)
        requires
            forall|i: int|
                0 <= i < old(self).field_refs().len() ==> f.requires((&old(self).field_refs()[i],)),
        ensures
            exists|keep: Seq<bool>|
                keep.len() == old(self)@.len() && (forall|i: int|
                    0 <= i < keep.len() ==> f.ensures(
                        (&old(self).field_refs()[i],),
                        #[trigger] keep[i],
                    ))
                    && final(self)@ == select(old(self)@, keep),
    {
        let ghost fields = old(self).field_refs();
        assert(self.0@ == fields);
        let mut kept: Vec<FieldRef<'a>> = Vec::new();
        let ghost mut keep: Seq<bool> = Seq::empty();
        let mut i: usize = 0;
        while i < self.0.len()
            invariant
                0 <= i <= self.0@.len(),
                self.0@ == fields,
                forall|k: int| 0 <= k < fields.len() ==> f.requires((&fields[k],)),
                keep.len() == i,
                forall|k: int| 0 <= k < i ==> f.ensures((&fields[k],), #[trigger] keep[k]),
                field_views(kept@) == select(field_views(fields).take(i as int), keep),
            decreases self.0@.len() - i,
        {
            let field = &self.0[i];
            let yes = f(field);
            proof {
                let views = field_views(fields);
                assert(views.take(i + 1) =~= views.take(i as int).push(views[i as int]));
                lemma_select_push(views.take(i as int), keep, views[i as int], yes);
                keep = keep.push(yes);
            }
            if yes {
                let ghost old_kept = kept@;
                kept.push(field.duplicate());
                assert(field_views(kept@) =~= field_views(old_kept).push(fields[i as int]@));
            }
            i = i + 1;
        }
        assert(field_views(fields).take(i as int) =~= field_views(fields));
        self.0 = kept;
        assert(keep.len() == old(self)@.len() && (forall|k: int|
            0 <= k < keep.len() ==> f.ensures((&old(self).field_refs()[k],), #[trigger] keep[k]))
            && self@ == select(old(self)@, keep));
    }

    /// Fails if the value of a subfield is not valid UTF-8.
    pub fn validate(&self) -> (r: Result<(), std::str::Utf8Error>)
        ensures
            r is Ok <==> forall|i: int, j: int|
                0 <= i < self@.len() && 0 <= j < self@[i].subfields.len() ==> valid_utf8(
                    #[trigger] self@[i].subfields[j].value,
                ),
    {
        let mut i: usize = 0;
        while i < self.0.len()
            invariant
                0 <= i <= self.0@.len(),
                forall|k: int, j: int|
                    0 <= k < i && 0 <= j < self@[k].subfields.len() ==> valid_utf8(
                        #[trigger] self@[k].subfields[j].value,
                    ),
            decreases self.0@.len() - i,
        {
            let r = self.0[i].validate();
            if r.is_err() {
                return r;
            }
            assert(self@[i as int] == self.0@[i as int]@);
            i = i + 1;
        }
        Ok(())
    }

    /// Appends the bytes of the record to `out`: nothing for a record
    /// without fields, else each field and a line feed.
    pub fn write_to(&self, out: &mut Vec<u8>)
        ensures
            final(out)@ == old(out)@ + record_bytes(self@),
    {
        write_fields(self.0.as_slice(), out);
        if self.0.len() > 0 {
            out.push(0x0a);
        } else {
            assert(fields_bytes(self@) == Seq::<u8>::empty());
        }
        assert(final(out)@ =~= old(out)@ + record_bytes(self@));
    }
}

/// Appends the bytes of the fields, one after the other.
fn write_fields(fields: &[FieldRef<'_>], out: &mut Vec<u8>)
    ensures
        final(out)@ == old(out)@ + fields_bytes(field_views(fields@)),
{
    let ghost start = out@;
    let mut i: usize = 0;
    while i < fields.len()
        invariant
            0 <= i <= fields@.len(),
            out@ == start + fields_bytes(field_views(fields@).take(i as int)),
        decreases fields@.len() - i,
    {
        let ghost views = field_views(fields@);
        fields[i].write_to(out);
        proof {
            assert(views.take(i + 1) =~= views.take(i as int) + seq![views[i as int]]);
            lemma_fields_bytes_append(views.take(i as int), seq![views[i as int]]);
            lemma_fields_bytes_single(views[i as int]);
        }
        i = i + 1;
    }
    assert(field_views(fields@).take(i as int) =~= field_views(fields@));
}

/// Appends the bytes of the fields, one after the other.
fn write_owned_fields(fields: &[Field], out: &mut Vec<u8>)
    ensures
        final(out)@ == old(out)@ + fields_bytes(owned_field_views(fields@)),
{
    let ghost start = out@;
    let mut i: usize = 0;
    while i < fields.len()
        invariant
            0 <= i <= fields@.len(),
            out@ == start + fields_bytes(owned_field_views(fields@).take(i as int)),
        decreases fields@.len() - i,
    {
        let ghost views = owned_field_views(fields@);
        fields[i].write_to(out);
        proof {
            assert(views.take(i + 1) =~= views.take(i as int) + seq![views[i as int]]);
            lemma_fields_bytes_append(views.take(i as int), seq![views[i as int]]);
            lemma_fields_bytes_single(views[i as int]);
        }
        i = i + 1;
    }
    assert(owned_field_views(fields@).take(i as int) =~= owned_field_views(fields@));
}

/// An owned record: a list of fields.
#[derive(Debug, Clone, PartialEq, Eq)]
pub struct Record(pub(crate) Vec<Field>);

impl View for Record {
    type V = Seq<SpecField>;

    closed spec fn view(&self) -> Seq<SpecField> {
        owned_field_views(self.0@)
    }
}

impl Record {
    /// Returns the fields of the record.
    pub fn fields(&self) -> (r: &[Field])
        ensures
            owned_field_views(r@) == self@,
    {
        self.0.as_slice()
    }

    /// Appends the bytes of the record to `out`: nothing for a record
    /// without fields, else each field and a line feed.
    pub fn write_to(&self, out: &mut Vec<u8>)
        ensures
            final(out)@ == old(out)@ + record_bytes(self@),
    {
        write_owned_fields(self.0.as_slice(), out);
        if self.0.len() > 0 {
            out.push(0x0a);
        } else {
            assert(fields_bytes(self@) == Seq::<u8>::empty());
        }
        assert(final(out)@ =~= old(out)@ + record_bytes(self@));
    }

    /// Converts a record reference into an owned record.
    pub fn from_ref(record: &RecordRef<'_>) -> (r: Self)
        ensures
            r@ == record@,
    {
        let fields = &record.0;
        let mut items: Vec<Field> = Vec::new();
        let mut i: usize = 0;
        while i < fields.len()
            invariant
                0 <= i <= fields@.len(),
                owned_field_views(items@) =~= field_views(fields@).take(i as int),
            decreases fields@.len() - i,
        {
            let ghost old_items = items@;
            items.push(Field::from_ref(&fields[i]));
            proof {
                assert(owned_field_views(items@) =~= owned_field_views(old_items).push(
                    field_views(fields@)[i as int],
                ));
                assert(field_views(fields@).take(i + 1) =~= field_views(fields@).take(
                    i as int,
                ).push(field_views(fields@)[i as int]));
            }
            i = i + 1;
        }
        assert(field_views(fields@).take(i as int) =~= field_views(fields@));
        Record(items)
    }
}

} // verus!
