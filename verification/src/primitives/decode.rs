//! How the parsers read PICA+ bytes, position by position, and the proof
//! that this reading gives back exactly the well-formed values whose
//! bytes stand at a position.
use vstd::prelude::*;

use super::model::{
    all_digits, fields_bytes, is_occurrence, fields_wf, is_digit, is_separator, is_subfield_code,
    is_subfield_value, is_tag, occurrence_bytes, record_bytes, record_wf, subfields_bytes,
    subfields_wf, SpecField, SpecSubfield, LINE_FEED, RECORD_SEPARATOR, UNIT_SEPARATOR,
};

verus! {

/// The position of the first separator at or after `i`, or the end.
pub open spec fn value_end(s: Seq<u8>, i: int) -> int
    decreases s.len() - i,
{
    if i < 0 || i >= s.len() || is_separator(s[i]) {
        i
    } else {
        value_end(s, i + 1)
    }
}

/// A subfield starting at `i`, and the position after it.
pub open spec fn dec_subfield(s: Seq<u8>, i: int) -> Option<(SpecSubfield, int)> {
    if 0 <= i && i + 2 <= s.len() && s[i] == UNIT_SEPARATOR && is_subfield_code(s[i + 1]) {
        let e = value_end(s, i + 2);
        Some((SpecSubfield { code: s[i + 1], value: s.subrange(i + 2, e) }, e))
    } else {
        None
    }
}

/// As many subfields as follow each other from `i`, and the position
/// after the last.
pub open spec fn dec_subfields(s: Seq<u8>, i: int) -> (Seq<SpecSubfield>, int)
    decreases s.len() - i,
{
    match dec_subfield(s, i) {
        Some((sf, e)) => if i < e <= s.len() {
            let r = dec_subfields(s, e);
            (seq![sf] + r.0, r.1)
        } else {
            (Seq::empty(), i)
        },
        None => (Seq::empty(), i),
    }
}

/// The end of an occurrence at `i`: three digits where there are three,
/// else two.
pub open spec fn dec_occurrence(s: Seq<u8>, i: int) -> Option<int> {
    if 0 <= i && i + 3 <= s.len() && is_digit(s[i]) && is_digit(s[i + 1]) && is_digit(s[i + 2]) {
        Some(i + 3)
    } else if 0 <= i && i + 2 <= s.len() && is_digit(s[i]) && is_digit(s[i + 1]) {
        Some(i + 2)
    } else {
        None
    }
}

/// The optional `/` and occurrence after a tag that ends at `p`.
pub open spec fn dec_field_occurrence(s: Seq<u8>, p: int) -> Option<(Option<Seq<u8>>, int)> {
    if 0 <= p < s.len() && s[p] == 0x2f {
        match dec_occurrence(s, p + 1) {
            Some(e) => Some((Some(s.subrange(p + 1, e)), e)),
            None => None,
        }
    } else {
        Some((None, p))
    }
}

/// A field starting at `i`, and the position after it.
pub open spec fn dec_field(s: Seq<u8>, i: int) -> Option<(SpecField, int)> {
    if 0 <= i && i + 4 <= s.len() && is_tag(s.subrange(i, i + 4)) {
        match dec_field_occurrence(s, i + 4) {
            Some((occ, q)) => if 0 <= q < s.len() && s[q] == 0x20 {
                let (ss, r) = dec_subfields(s, q + 1);
                if 0 <= r < s.len() && s[r] == RECORD_SEPARATOR {
                    Some((SpecField { tag: s.subrange(i, i + 4), occurrence: occ, subfields: ss }, r + 1))
                } else {
                    None
                }
            } else {
                None
            },
            None => None,
        }
    } else {
        None
    }
}

/// As many fields as follow each other from `i`, and the position after
/// the last.
pub open spec fn dec_fields(s: Seq<u8>, i: int) -> (Seq<SpecField>, int)
    decreases s.len() - i,
{
    match dec_field(s, i) {
        Some((f, e)) => if i < e <= s.len() {
            let r = dec_fields(s, e);
            (seq![f] + r.0, r.1)
        } else {
            (Seq::empty(), i)
        },
        None => (Seq::empty(), i),
    }
}

/// A whole record: at least one field, a line feed, and nothing after it.
pub open spec fn dec_record(s: Seq<u8>) -> Option<Seq<SpecField>> {
    let (fs, e) = dec_fields(s, 0);
    if fs.len() >= 1 && 0 <= e && e + 1 == s.len() && s[e] == LINE_FEED {
        Some(fs)
    } else {
        None
    }
}

// ---------------------------------------------------------------------
// Soundness: what is read is well-formed and its bytes are what was read.
// ---------------------------------------------------------------------

pub proof fn lemma_value_end(s: Seq<u8>, i: int)
    requires
        0 <= i <= s.len(),
    ensures
        i <= value_end(s, i) <= s.len(),
        is_subfield_value(s.subrange(i, value_end(s, i))),
        value_end(s, i) == s.len() || is_separator(s[value_end(s, i)]),
    decreases s.len() - i,
{
    if i >= s.len() || is_separator(s[i]) {
        assert(s.subrange(i, i) =~= Seq::<u8>::empty());
    } else {
        lemma_value_end(s, i + 1);
        let e = value_end(s, i);
        assert forall|k: int| 0 <= k < e - i implies !is_separator(#[trigger] s.subrange(i, e)[k]) by {
            if k > 0 {
                assert(s.subrange(i, e)[k] == s.subrange(i + 1, e)[k - 1]);
            }
        }
    }
}

pub proof fn lemma_dec_subfield_sound(s: Seq<u8>, i: int)
    requires
        dec_subfield(s, i) is Some,
    ensures
        ({
            let (sf, e) = dec_subfield(s, i).unwrap();
            &&& sf.wf()
            &&& i + 2 <= e <= s.len()
            &&& s.subrange(i, e) == sf.bytes()
            &&& (e == s.len() || is_separator(s[e]))
        }),
{
    lemma_value_end(s, i + 2);
    let (sf, e) = dec_subfield(s, i).unwrap();
    assert(s.subrange(i, e) =~= sf.bytes());
}

pub proof fn lemma_dec_subfields_sound(s: Seq<u8>, i: int)
    requires
        0 <= i <= s.len(),
    ensures
        ({
            let (ss, e) = dec_subfields(s, i);
            &&& subfields_wf(ss)
            &&& i <= e <= s.len()
            &&& s.subrange(i, e) == subfields_bytes(ss)
        }),
    decreases s.len() - i,
{
    match dec_subfield(s, i) {
        Some((sf, e)) => {
            lemma_dec_subfield_sound(s, i);
            lemma_dec_subfields_sound(s, e);
            let r = dec_subfields(s, e);
            let ss = seq![sf] + r.0;
            assert(ss.drop_first() =~= r.0);
            assert(ss[0] == sf);
            assert(s.subrange(i, r.1) =~= s.subrange(i, e) + s.subrange(e, r.1));
            assert forall|k: int| 0 <= k < ss.len() implies (#[trigger] ss[k]).wf() by {
                if k > 0 {
                    assert(ss[k] == r.0[k - 1]);
                }
            }
        },
        None => {
            assert(s.subrange(i, i) =~= Seq::<u8>::empty());
        },
    }
}

pub proof fn lemma_dec_field_sound(s: Seq<u8>, i: int)
    requires
        dec_field(s, i) is Some,
    ensures
        ({
            let (f, e) = dec_field(s, i).unwrap();
            &&& f.wf()
            &&& i < e <= s.len()
            &&& s.subrange(i, e) == f.bytes()
        }),
{
    let (occ, q) = dec_field_occurrence(s, i + 4).unwrap();
    lemma_dec_subfields_sound(s, q + 1);
    let (ss, r) = dec_subfields(s, q + 1);
    let (f, e) = dec_field(s, i).unwrap();
    if s[i + 4] == 0x2f && i + 4 < s.len() {
        let oe = dec_occurrence(s, i + 5).unwrap();
        let o = s.subrange(i + 5, oe);
        assert(all_digits(o)) by {
            assert forall|k: int| 0 <= k < o.len() implies is_digit(#[trigger] o[k]) by {
                assert(o[k] == s[i + 5 + k]);
            }
        }
        assert(occurrence_bytes(occ) =~= s.subrange(i + 4, q));
    } else {
        assert(occurrence_bytes(occ) =~= s.subrange(i + 4, q));
    }
    assert(s.subrange(i, e) =~= s.subrange(i, i + 4) + s.subrange(i + 4, q) + seq![0x20u8]
        + s.subrange(q + 1, r) + seq![RECORD_SEPARATOR]);
}

pub proof fn lemma_dec_fields_sound(s: Seq<u8>, i: int)
    requires
        0 <= i <= s.len(),
    ensures
        ({
            let (fs, e) = dec_fields(s, i);
            &&& fields_wf(fs)
            &&& i <= e <= s.len()
            &&& s.subrange(i, e) == fields_bytes(fs)
        }),
    decreases s.len() - i,
{
    match dec_field(s, i) {
        Some((f, e)) => {
            lemma_dec_field_sound(s, i);
            lemma_dec_fields_sound(s, e);
            let r = dec_fields(s, e);
            let fs = seq![f] + r.0;
            assert(fs.drop_first() =~= r.0);
            assert(fs[0] == f);
            assert(s.subrange(i, r.1) =~= s.subrange(i, e) + s.subrange(e, r.1));
            assert forall|k: int| 0 <= k < fs.len() implies (#[trigger] fs[k]).wf() by {
                if k > 0 {
                    assert(fs[k] == r.0[k - 1]);
                }
            }
        },
        None => {
            assert(s.subrange(i, i) =~= Seq::<u8>::empty());
        },
    }
}

pub proof fn lemma_dec_record_sound(s: Seq<u8>)
    requires
        dec_record(s) is Some,
    ensures
        record_wf(dec_record(s).unwrap()),
        record_bytes(dec_record(s).unwrap()) == s,
{
    lemma_dec_fields_sound(s, 0);
    let (fs, e) = dec_fields(s, 0);
    assert(s =~= s.subrange(0, e) + seq![LINE_FEED]);
}

// ---------------------------------------------------------------------
// Completeness: the bytes of a well-formed value are read back as it.
// ---------------------------------------------------------------------

pub proof fn lemma_value_end_complete(s: Seq<u8>, i: int, v: Seq<u8>)
    requires
        is_subfield_value(v),
        0 <= i,
        i + v.len() <= s.len(),
        s.subrange(i, i + v.len()) == v,
        i + v.len() == s.len() || is_separator(s[i + v.len()]),
    ensures
        value_end(s, i) == i + v.len(),
    decreases v.len(),
{
    if v.len() > 0 {
        assert(s[i] == v[0]);
        assert(s.subrange(i + 1, i + 1 + v.drop_first().len()) =~= v.drop_first());
        lemma_value_end_complete(s, i + 1, v.drop_first());
    }
}

pub proof fn lemma_dec_subfield_complete(s: Seq<u8>, i: int, sf: SpecSubfield)
    requires
        sf.wf(),
        0 <= i,
        i + sf.bytes().len() <= s.len(),
        s.subrange(i, i + sf.bytes().len()) == sf.bytes(),
        i + sf.bytes().len() == s.len() || is_separator(s[i + sf.bytes().len()]),
    ensures
        dec_subfield(s, i) == Some((sf, i + sf.bytes().len())),
{
    let b = sf.bytes();
    assert(s[i] == b[0]);
    assert(s[i + 1] == b[1]);
    assert(s.subrange(i + 2, i + 2 + sf.value.len()) =~= sf.value) by {
        assert forall|k: int| 0 <= k < sf.value.len() implies
            s.subrange(i + 2, i + 2 + sf.value.len())[k] == sf.value[k] by {
            assert(s.subrange(i, i + b.len())[k + 2] == b[k + 2]);
        }
    }
    lemma_value_end_complete(s, i + 2, sf.value);
}

pub proof fn lemma_dec_subfields_complete(s: Seq<u8>, i: int, ss: Seq<SpecSubfield>)
    requires
        subfields_wf(ss),
        0 <= i,
        i + subfields_bytes(ss).len() <= s.len(),
        s.subrange(i, i + subfields_bytes(ss).len()) == subfields_bytes(ss),
        i + subfields_bytes(ss).len() == s.len() || s[i + subfields_bytes(ss).len()] == RECORD_SEPARATOR,
    ensures
        dec_subfields(s, i) == (ss, i + subfields_bytes(ss).len()),
    decreases ss.len(),
{
    if ss.len() == 0 {
        assert(dec_subfield(s, i) is None);
        assert(ss =~= Seq::<SpecSubfield>::empty());
    } else {
        let sf = ss[0];
        let tail = ss.drop_first();
        let n = sf.bytes().len();
        let m = subfields_bytes(tail).len();
        assert(subfields_bytes(ss) == sf.bytes() + subfields_bytes(tail));
        assert(s.subrange(i, i + n) =~= sf.bytes()) by {
            assert forall|k: int| 0 <= k < n implies s.subrange(i, i + n)[k] == sf.bytes()[k] by {
                assert(s.subrange(i, i + n + m)[k] == subfields_bytes(ss)[k]);
            }
        }
        assert(s.subrange(i + n, i + n + m) =~= subfields_bytes(tail)) by {
            assert forall|k: int| 0 <= k < m implies
                s.subrange(i + n, i + n + m)[k] == subfields_bytes(tail)[k] by {
                assert(s.subrange(i, i + n + m)[n + k] == subfields_bytes(ss)[n + k]);
            }
        }
        if tail.len() > 0 {
            assert(subfields_bytes(tail) == tail[0].bytes() + subfields_bytes(tail.drop_first()));
            assert(s[i + n] == subfields_bytes(tail)[0]);
        }
        assert(sf.wf());
        assert(subfields_wf(tail)) by {
            assert forall|k: int| 0 <= k < tail.len() implies (#[trigger] tail[k]).wf() by {
                assert(tail[k] == ss[k + 1]);
            }
        }
        lemma_dec_subfield_complete(s, i, sf);
        lemma_dec_subfields_complete(s, i + n, tail);
        assert(seq![sf] + tail =~= ss);
    }
}

pub proof fn lemma_dec_field_complete(s: Seq<u8>, i: int, f: SpecField)
    requires
        f.wf(),
        0 <= i,
        i + f.bytes().len() <= s.len(),
        s.subrange(i, i + f.bytes().len()) == f.bytes(),
    ensures
        dec_field(s, i) == Some((f, i + f.bytes().len())),
{
    let b = f.bytes();
    let ob = occurrence_bytes(f.occurrence);
    let sb = subfields_bytes(f.subfields);
    let q = i + 4 + ob.len();
    let r = q + 1 + sb.len();
    assert(b.len() == 4 + ob.len() + 1 + sb.len() + 1);
    assert forall|k: int| 0 <= k < b.len() implies #[trigger] s[i + k] == b[k] by {
        assert(s.subrange(i, i + b.len())[k] == b[k]);
    }
    assert(s.subrange(i, i + 4) =~= f.tag) by {
        assert forall|k: int| 0 <= k < 4 implies s.subrange(i, i + 4)[k] == f.tag[k] by {
            assert(s[i + k] == b[k]);
        }
    }
    match f.occurrence {
        Some(o) => {
            assert(s[i + 4] == b[4]);
            assert forall|k: int| 0 <= k < o.len() implies #[trigger] s[i + 5 + k] == o[k] by {
                assert(s[i + 4 + (1 + k)] == b[4 + (1 + k)]);
            }
            assert(s[q] == b[4 + ob.len() as int]);
            assert(is_digit(o[0]) && is_digit(o[1]));
            if o.len() == 3 {
                assert(is_digit(o[2]));
            }
            assert(dec_occurrence(s, i + 5) == Some(q));
            assert(s.subrange(i + 5, q) =~= o);
        },
        None => {
            assert(s[q] == b[4]);
        },
    }
    assert(dec_field_occurrence(s, i + 4) == Some((f.occurrence, q)));
    assert(s[q] == 0x20);
    assert(s.subrange(q + 1, r) =~= sb) by {
        assert forall|k: int| 0 <= k < sb.len() implies s.subrange(q + 1, r)[k] == sb[k] by {
            assert(s[i + (4 + ob.len() + 1 + k)] == b[4 + ob.len() + 1 + k]);
        }
    }
    assert(s[r] == b[b.len() - 1]);
    lemma_dec_subfields_complete(s, q + 1, f.subfields);
}

pub proof fn lemma_dec_fields_complete(s: Seq<u8>, i: int, fs: Seq<SpecField>)
    requires
        fields_wf(fs),
        0 <= i,
        i + fields_bytes(fs).len() <= s.len(),
        s.subrange(i, i + fields_bytes(fs).len()) == fields_bytes(fs),
        i + fields_bytes(fs).len() == s.len() || s[i + fields_bytes(fs).len()] == LINE_FEED,
    ensures
        dec_fields(s, i) == (fs, i + fields_bytes(fs).len()),
    decreases fs.len(),
{
    if fs.len() == 0 {
        assert(dec_field(s, i) is None);
        assert(fs =~= Seq::<SpecField>::empty());
    } else {
        let f = fs[0];
        let tail = fs.drop_first();
        let n = f.bytes().len();
        let m = fields_bytes(tail).len();
        assert(fields_bytes(fs) == f.bytes() + fields_bytes(tail));
        assert(s.subrange(i, i + n) =~= f.bytes()) by {
            assert forall|k: int| 0 <= k < n implies s.subrange(i, i + n)[k] == f.bytes()[k] by {
                assert(s.subrange(i, i + n + m)[k] == fields_bytes(fs)[k]);
            }
        }
        assert(s.subrange(i + n, i + n + m) =~= fields_bytes(tail)) by {
            assert forall|k: int| 0 <= k < m implies
                s.subrange(i + n, i + n + m)[k] == fields_bytes(tail)[k] by {
                assert(s.subrange(i, i + n + m)[n + k] == fields_bytes(fs)[n + k]);
            }
        }
        assert(f.wf());
        assert(fields_wf(tail)) by {
            assert forall|k: int| 0 <= k < tail.len() implies (#[trigger] tail[k]).wf() by {
                assert(tail[k] == fs[k + 1]);
            }
        }
        lemma_dec_field_complete(s, i, f);
        lemma_dec_fields_complete(s, i + n, tail);
        assert(seq![f] + tail =~= fs);
    }
}

pub proof fn lemma_dec_record_complete(r: Seq<SpecField>)
    requires
        record_wf(r),
    ensures
        dec_record(record_bytes(r)) == Some(r),
{
    let s = record_bytes(r);
    let n = fields_bytes(r).len() as int;
    assert(s.subrange(0, n) =~= fields_bytes(r));
    lemma_dec_fields_complete(s, 0, r);
}

pub proof fn lemma_dec_occurrence(s: Seq<u8>, i: int)
    requires
        dec_occurrence(s, i) is Some,
    ensures
        i + 2 <= dec_occurrence(s, i).unwrap() <= s.len(),
        is_occurrence(s.subrange(i, dec_occurrence(s, i).unwrap())),
{
    let e = dec_occurrence(s, i).unwrap();
    let o = s.subrange(i, e);
    assert forall|k: int| 0 <= k < o.len() implies is_digit(#[trigger] o[k]) by {
        assert(o[k] == s[i + k]);
    }
}

} // verus!
