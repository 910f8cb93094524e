//! Paths: which subfield values of which fields of a record to take.
use vstd::prelude::*;
use vstd::string::StringSliceAdditionalSpecFns;
use vstd::utf8::decode_utf8;

use crate::matcher::field::field_selected;
use crate::matcher::occurrence::{occurrence_ast, occurrence_matcher_at, parse_occurrence_matcher, OccurrenceAst};
use crate::matcher::subfield::parser::{
    parse_subfield_matcher_at, raw_chars, raw_text_of, subfield_ast, subfield_matcher_at, SubfieldAst,
};
use crate::matcher::subfield::{code_views, codes_from_bytes, SubfieldMatcher};
use crate::matcher::tag::{parse_tag_matcher, tag_ast, tag_matcher_at, TagAst};
use crate::matcher::{MatcherOptions, OccurrenceMatcher, TagMatcher};
use crate::parser::{byte_at, byte_is, codes_at, lemma_skip_ws, parse_codes, skip_ws, skip_ws_at};
use crate::primitives::model::{SpecField, SpecSubfield};
use crate::primitives::{FieldRef, RecordRef, SubfieldCode};
use crate::record::{record_utf8, ByteRecord, StringRecord};
use crate::text::{push_str, str_from_utf8};

verus! {

/// An error that can occur when parsing a path.
#[derive(Debug)]
pub struct ParsePathError(pub(crate) String);

impl View for ParsePathError {
    type V = Seq<char>;

    closed spec fn view(&self) -> Seq<char> {
        self.0@
    }
}

impl ParsePathError {
    /// The message of the error.
    pub fn to_string(&self) -> (r: String)
        ensures
            r@ == self@,
    {
        self.0.clone()
    }
}

/// The bytes of each list of codes.
pub open spec fn code_lists(v: Seq<Vec<SubfieldCode>>) -> Seq<Seq<u8>> {
    v.map_values(|c: Vec<SubfieldCode>| code_views(c@))
}

/// A path: the fields whose tag and occurrence match and, where there is a
/// subfield matcher, whose subfields match; of their subfields, those
/// whose code is in one of the lists.
#[derive(Debug, PartialEq)]
pub struct Path {
    pub(crate) tag_matcher: TagMatcher,
    pub(crate) occurrence_matcher: OccurrenceMatcher,
    pub(crate) subfield_matcher: Option<SubfieldMatcher>,
    pub(crate) codes: Vec<Vec<SubfieldCode>>,
    pub(crate) raw_path: String,
}

/// The parts of a path.
pub struct PathSpec {
    pub tag_matcher: TagMatcher,
    pub occurrence_matcher: OccurrenceMatcher,
    pub subfield_matcher: Option<SubfieldMatcher>,
    pub codes: Seq<Seq<u8>>,
}

impl View for Path {
    type V = PathSpec;

    closed spec fn view(&self) -> PathSpec {
        PathSpec {
            tag_matcher: self.tag_matcher,
            occurrence_matcher: self.occurrence_matcher,
            subfield_matcher: self.subfield_matcher,
            codes: code_lists(self.codes@),
        }
    }
}

/// The field is one the path takes values from.
pub open spec fn path_selects(p: PathSpec, f: SpecField, case_ignore: bool, threshold: u32) -> bool {
    field_selected(p.tag_matcher, p.occurrence_matcher, f) && match p.subfield_matcher {
        Some(m) => m.spec_is_match(f.subfields, case_ignore, threshold),
        None => true,
    }
}

/// The code is in one of the lists.
pub open spec fn in_some_list(codes: Seq<Seq<u8>>, c: u8) -> bool {
    exists|k: int| 0 <= k < codes.len() && (#[trigger] codes[k]).contains(c)
}

/// The values of the subfields whose code is in one of the lists, in
/// order.
pub open spec fn subfield_values(codes: Seq<Seq<u8>>, subfields: Seq<SpecSubfield>) -> Seq<Seq<u8>>
    decreases subfields.len(),
{
    if subfields.len() == 0 {
        Seq::empty()
    } else {
        let rest = subfield_values(codes, subfields.drop_last());
        if in_some_list(codes, subfields.last().code) {
            rest.push(subfields.last().value)
        } else {
            rest
        }
    }
}

/// The values taken from the fields, field after field: of each field
/// that is selected, the values of the subfields whose code is in one of
/// the lists.
pub open spec fn values_of(select: spec_fn(SpecField) -> bool, codes: Seq<Seq<u8>>, fields: Seq<SpecField>) -> Seq<Seq<u8>>
    decreases fields.len(),
{
    if fields.len() == 0 {
        Seq::empty()
    } else {
        let rest = values_of(select, codes, fields.drop_last());
        if select(fields.last()) {
            rest + subfield_values(codes, fields.last().subfields)
        } else {
            rest
        }
    }
}

/// The values the path takes from the fields.
pub open spec fn path_values(p: PathSpec, fields: Seq<SpecField>, case_ignore: bool, threshold: u32) -> Seq<Seq<u8>> {
    values_of(|f: SpecField| path_selects(p, f, case_ignore, threshold), p.codes, fields)
}

/// The fields with tag `003@` and no occurrence (or occurrence `00`).
pub open spec fn is_ppn_field(f: SpecField) -> bool {
    f.tag == seq![0x30u8, 0x30u8, 0x33u8, 0x40u8] && (f.occurrence is None || f.occurrence == Some(
        seq![0x30u8, 0x30u8],
    ))
}

/// The values of subfield `0` of the fields with tag `003@`.
pub open spec fn ppn_values(fields: Seq<SpecField>) -> Seq<Seq<u8>> {
    values_of(|f: SpecField| is_ppn_field(f), seq![seq![0x30u8]], fields)
}

/// The bytes of each value.
pub open spec fn slice_views<'a>(v: Seq<&'a [u8]>) -> Seq<Seq<u8>> {
    v.map_values(|s: &'a [u8]| s@)
}

/// Tells whether the code is in one of the lists.
fn in_some_code_list(codes: &Vec<Vec<SubfieldCode>>, c: u8) -> (r: bool)
    ensures
        r == in_some_list(code_lists(codes@), c),
{
    let mut k: usize = 0;
    while k < codes.len()
        invariant
            0 <= k <= codes@.len(),
            forall|j: int| 0 <= j < k ==> !(#[trigger] code_lists(codes@)[j]).contains(c),
        decreases codes@.len() - k,
    {
        assert(code_lists(codes@)[k as int] == code_views(codes@[k as int]@));
        if crate::matcher::subfield::has_code(codes[k].as_slice(), c) {
            return true;
        }
        k = k + 1;
    }
    false
}

/// The lists of codes of a path are those it holds.
pub(crate) proof fn lemma_path_codes(p: &Path)
    ensures
        p@.codes == code_lists(p.codes@),
{
}

impl Path {
    /// The text the path was read from.
    pub closed spec fn raw_text(&self) -> Seq<char> {
        self.raw_path@
    }

    /// The path as it was written.
    pub fn to_string(&self) -> (r: String)
        ensures
            r@ == self.raw_text(),
    {
        self.raw_path.clone()
    }

    /// The path that takes the values of subfield `0` of field `003@`,
    /// the record's PPN.
    pub fn ppn_path() -> (r: Self)
        ensures
            forall|f: SpecField, ci: bool, t: u32| path_selects(r@, f, ci, t) == is_ppn_field(f),
            r@.codes == seq![seq![0x30u8]],
    {
        let codes = vec![vec![SubfieldCode::from_byte(0x30)]];
        assert(code_lists(codes@) =~= seq![seq![0x30u8]]) by {
            assert(code_views(codes@[0]@) =~= seq![0x30u8]);
        }
        let bytes: [u8; 4] = [0x30, 0x30, 0x33, 0x40];
        assert(crate::primitives::model::is_tag(bytes@));
        let tag = crate::primitives::Tag::from_ref(crate::primitives::TagRef::from_unchecked(bytes.as_slice()));
        assert(tag@ =~= seq![0x30u8, 0x30u8, 0x33u8, 0x40u8]);
        Path {
            tag_matcher: TagMatcher::Tag(tag),
            occurrence_matcher: OccurrenceMatcher::Absent,
            subfield_matcher: None,
            codes,
            raw_path: "003@.0".to_string(),
        }
    }

    /// Tells whether the path takes values from the field.
    pub(crate) fn selects(&self, field: &FieldRef<'_>, options: &MatcherOptions) -> (r: bool)
        ensures
            r == path_selects(self@, field@, options.spec_case_ignore(), options.spec_strsim_threshold()),
    {
        if !(self.tag_matcher.is_match(field.tag()) && self.occurrence_matcher.is_match(
            field.occurrence(),
        )) {
            return false;
        }
        match &self.subfield_matcher {
            Some(m) => m.is_match(field.subfields(), options),
            None => true,
        }
    }

    /// Appends the values of the subfields whose code is in one of the
    /// lists.
    fn push_values<'a>(&self, field: &FieldRef<'a>, out: &mut Vec<&'a [u8]>)
        ensures
            slice_views(final(out)@) == slice_views(old(out)@) + subfield_values(self@.codes, field@.subfields),
    {
        let subfields = field.subfields();
        let ghost sfs = field@.subfields;
        let ghost start = slice_views(out@);
        let mut i: usize = 0;
        while i < subfields.len()
            invariant
                0 <= i <= subfields@.len(),
                sfs == crate::primitives::subfield::subfield_views(subfields@),
                slice_views(out@) == start + subfield_values(self@.codes, sfs.take(i as int)),
            decreases subfields@.len() - i,
        {
            assert(sfs.take(i + 1).drop_last() =~= sfs.take(i as int));
            assert(sfs.take(i + 1).last() == subfields@[i as int]@);
            let sf = &subfields[i];
            let c = sf.code().as_byte();
            assert(c == sfs.take(i + 1).last().code);
            if in_some_code_list(&self.codes, c) {
                let ghost before = out@;
                let v = sf.value().as_bytes();
                assert(v@ == sfs.take(i + 1).last().value);
                out.push(v);
                assert(slice_views(out@) =~= slice_views(before).push(v@));
                assert(subfield_values(self@.codes, sfs.take(i + 1)) == subfield_values(self@.codes, sfs.take(i as int)).push(v@));
                assert(slice_views(out@) =~= start + subfield_values(self@.codes, sfs.take(i + 1)));
            } else {
                assert(!in_some_list(self@.codes, sfs.take(i + 1).last().code));
                assert(subfield_values(self@.codes, sfs.take(i + 1)) == subfield_values(self@.codes, sfs.take(i as int)));
                assert(slice_views(out@) =~= start + subfield_values(self@.codes, sfs.take(i + 1)));
            }
            i = i + 1;
        }
        assert(sfs.take(i as int) =~= sfs);
    }
}

impl<'a> RecordRef<'a> {
    /// The values the path takes from the record: field after field, of
    /// each field that the path selects, the values of the subfields whose
    /// code is in one of the path's lists.
    pub fn path(&self, path: &Path, options: &MatcherOptions) -> (r: Vec<&'a [u8]>)
        ensures
            slice_views(r@) == path_values(
                path@,
                self@,
                options.spec_case_ignore(),
                options.spec_strsim_threshold(),
            ),
    {
        let ghost sel = |f: SpecField|
            path_selects(path@, f, options.spec_case_ignore(), options.spec_strsim_threshold());
        let fields = self.fields();
        let ghost fs = self@;
        let mut out: Vec<&'a [u8]> = Vec::new();
        let mut i: usize = 0;
        while i < fields.len()
            invariant
                0 <= i <= fields@.len(),
                fs == crate::primitives::field::field_views(fields@),
                sel == (|f: SpecField|
                    path_selects(path@, f, options.spec_case_ignore(), options.spec_strsim_threshold())),
                slice_views(out@) == values_of(sel, path@.codes, fs.take(i as int)),
            decreases fields@.len() - i,
        {
            assert(fs.take(i + 1).drop_last() =~= fs.take(i as int));
            assert(fs.take(i + 1).last() == fields@[i as int]@);
            if path.selects(&fields[i], options) {
                path.push_values(&fields[i], &mut out);
            }
            i = i + 1;
        }
        assert(fs.take(i as int) =~= fs);
        out
    }

    /// The first value the path takes from the record, if any.
    pub fn first(&self, path: &Path, options: &MatcherOptions) -> (r: Option<&'a [u8]>)
        ensures
            ({
                let vs = path_values(
                    path@,
                    self@,
                    options.spec_case_ignore(),
                    options.spec_strsim_threshold(),
                );
                match r {
                    Some(v) => vs.len() > 0 && v@ == vs[0],
                    None => vs.len() == 0,
                }
            }),
    {
        let values = self.path(path, options);
        if values.len() > 0 {
            assert(slice_views(values@)[0] == values@[0]@);
            Some(values[0])
        } else {
            None
        }
    }

    /// The record's PPN: the first value of subfield `0` of field `003@`;
    /// the record must have one.
    pub fn ppn(&self) -> (r: &'a [u8])
        requires
            ppn_values(self@).len() > 0,
        ensures
            r@ == ppn_values(self@)[0],
    {
        let path = Path::ppn_path();
        let options = MatcherOptions::new();
        assert((|f: SpecField|
            path_selects(path@, f, options.spec_case_ignore(), options.spec_strsim_threshold()))
            =~= (|f: SpecField| is_ppn_field(f)));
        match self.first(&path, &options) {
            Some(v) => v,
            None => {
                assert(false);
                self.fields()[0].subfields()[0].value().as_bytes()
            },
        }
    }
}

/// What a path is read as.
pub struct PathAst {
    pub tag: TagAst,
    pub occurrence: OccurrenceAst,
    pub subfields: Option<SubfieldAst>,
    pub codes: Seq<Seq<u8>>,
    pub raw: Seq<char>,
}

/// What the path is read as.
pub open spec fn path_ast(p: Path) -> PathAst {
    PathAst {
        tag: tag_ast(p@.tag_matcher),
        occurrence: occurrence_ast(p@.occurrence_matcher),
        subfields: match p@.subfield_matcher {
            Some(m) => Some(subfield_ast(m)),
            None => None,
        },
        codes: p@.codes,
        raw: p.raw_text(),
    }
}

/// A simple path at `i`: a tag matcher, an occurrence matcher, `.` and
/// subfield codes, with white space around it.
pub open spec fn path_simple_at(b: Seq<u8>, i: int) -> Option<(PathAst, int)> {
    match tag_matcher_at(b, skip_ws(b, i)) {
        Some((t, e1)) => {
            let (o, e2) = occurrence_matcher_at(b, e1);
            if byte_at(b, e2, 0x2e) {
                match codes_at(b, e2 + 1) {
                    Some((c, e3)) => {
                        let end = skip_ws(b, e3);
                        Some(
                            (
                                PathAst {
                                    tag: t,
                                    occurrence: o,
                                    subfields: None,
                                    codes: seq![c],
                                    raw: raw_chars(b, i, end),
                                },
                                end,
                            ),
                        )
                    },
                    None => None,
                }
            } else {
                None
            }
        },
        None => None,
    }
}

/// The lists of codes after the first: each after `,`, with white space
/// around the commas.
pub open spec fn codes_list_rest(b: Seq<u8>, i: int) -> Option<(Seq<Seq<u8>>, int)>
    decreases b.len() - i,
{
    let s = skip_ws(b, i);
    if byte_at(b, s, 0x2c) {
        match codes_at(b, skip_ws(b, s + 1)) {
            Some((c, e)) => if i < e <= b.len() {
                match codes_list_rest(b, e) {
                    Some((rest, k)) => Some((seq![c] + rest, k)),
                    None => None,
                }
            } else {
                None
            },
            None => None,
        }
    } else {
        Some((Seq::empty(), i))
    }
}

/// Lists of codes separated by commas at `i`.
pub open spec fn codes_list_at(b: Seq<u8>, i: int) -> Option<(Seq<Seq<u8>>, int)> {
    match codes_at(b, i) {
        Some((c, e)) => match codes_list_rest(b, e) {
            Some((rest, k)) => Some((seq![c] + rest, k)),
            None => None,
        },
        None => None,
    }
}

/// The lists of codes in braces: as they are, or in parentheses.
pub open spec fn curly_codes_at(b: Seq<u8>, i: int) -> Option<(Seq<Seq<u8>>, int)> {
    match codes_list_at(b, i) {
        Some(x) => Some(x),
        None => {
            let p = skip_ws(b, i);
            if byte_at(b, p, 0x28) {
                match codes_list_at(b, skip_ws(b, p + 1)) {
                    Some((cs, e)) => {
                        let f = skip_ws(b, e);
                        if byte_at(b, f, 0x29) {
                            Some((cs, skip_ws(b, f + 1)))
                        } else {
                            None
                        }
                    },
                    None => None,
                }
            } else {
                None
            }
        },
    }
}

/// A path with braces at `i`: a tag matcher, an occurrence matcher and, in
/// braces, lists of codes and an optional subfield matcher after `|`.
pub open spec fn path_curly_at(b: Seq<u8>, i: int) -> Option<(PathAst, int)> {
    match tag_matcher_at(b, skip_ws(b, i)) {
        Some((t, e1)) => {
            let (o, e2) = occurrence_matcher_at(b, e1);
            let q = skip_ws(b, e2);
            if byte_at(b, q, 0x7b) {
                match curly_codes_at(b, skip_ws(b, q + 1)) {
                    Some((cs, e3)) => {
                        let s = skip_ws(b, e3);
                        let (m, e4) = if byte_at(b, s, 0x7c) {
                            match subfield_matcher_at(b, skip_ws(b, s + 1)) {
                                Some((m, e)) => (Some(m), e),
                                None => (None, e3),
                            }
                        } else {
                            (None, e3)
                        };
                        let f = skip_ws(b, e4);
                        if byte_at(b, f, 0x7d) {
                            let end = skip_ws(b, f + 1);
                            Some(
                                (
                                    PathAst {
                                        tag: t,
                                        occurrence: o,
                                        subfields: m,
                                        codes: cs,
                                        raw: raw_chars(b, i, end),
                                    },
                                    end,
                                ),
                            )
                        } else {
                            None
                        }
                    },
                    None => None,
                }
            } else {
                None
            }
        },
        None => None,
    }
}

/// A path at `i`: a simple path, or a path with braces.
pub open spec fn path_at(b: Seq<u8>, i: int) -> Option<(PathAst, int)> {
    match path_simple_at(b, i) {
        Some(x) => Some(x),
        None => path_curly_at(b, i),
    }
}

/// The codes of each list.
fn code_lists_from(v: Vec<Vec<u8>>) -> (r: Vec<Vec<SubfieldCode>>)
    ensures
        code_lists(r@) == crate::matcher::subfield::value_views(v@),
{
    let mut out: Vec<Vec<SubfieldCode>> = Vec::new();
    let mut k: usize = 0;
    while k < v.len()
        invariant
            0 <= k <= v@.len(),
            out@.len() == k,
            forall|j: int| 0 <= j < k ==> code_views((#[trigger] out@[j])@) == v@[j]@,
        decreases v@.len() - k,
    {
        out.push(codes_from_bytes(v[k].as_slice()));
        k = k + 1;
    }
    assert(code_lists(out@) =~= crate::matcher::subfield::value_views(v@));
    out
}

fn parse_codes_list_rest(b: &[u8], i: usize) -> (r: Option<(Vec<Vec<u8>>, usize)>)
    requires
        i <= b@.len(),
    ensures
        match codes_list_rest(b@, i as int) {
            Some((v, e)) => r matches Some((w, k)) && crate::matcher::subfield::value_views(w@) == v
                && k == e && i <= k <= b@.len(),
            None => r is None,
        },
    decreases b@.len() - i,
{
    let s = skip_ws_at(b, i);
    if byte_is(b, s, 0x2c) {
        let q = skip_ws_at(b, s + 1);
        proof {
            lemma_skip_ws(b@, s + 1);
            lemma_skip_ws(b@, i as int);
        }
        match parse_codes(b, q) {
            Some((c, e)) => {
                proof {
                    lemma_codes_in(b@, q as int);
                }
                match parse_codes_list_rest(b, e) {
                    Some((rest, k)) => {
                        let ghost cv = c@;
                        let mut out: Vec<Vec<u8>> = Vec::new();
                        out.push(c);
                        let mut rest = rest;
                        out.append(&mut rest);
                        assert(crate::matcher::subfield::value_views(out@) =~= seq![cv]
                            + codes_list_rest(b@, e as int).unwrap().0);
                        Some((out, k))
                    },
                    None => None,
                }
            },
            None => None,
        }
    } else {
        let out: Vec<Vec<u8>> = Vec::new();
        assert(crate::matcher::subfield::value_views(out@) =~= Seq::<Seq<u8>>::empty());
        Some((out, i))
    }
}

/// Codes end after their start, within the bytes.
proof fn lemma_codes_in(b: Seq<u8>, i: int)
    requires
        0 <= i,
    ensures
        codes_at(b, i) matches Some((c, e)) ==> i < e <= b.len(),
{
    if byte_at(b, i, 0x5b) {
        if let Some((first, j)) = crate::parser::code_item(b, i + 1) {
            lemma_items_in(b, j);
        }
    }
}

proof fn lemma_items_in(b: Seq<u8>, i: int)
    requires
        0 <= i <= b.len(),
    ensures
        i <= crate::parser::code_items(b, i).1 <= b.len(),
    decreases b.len() - i,
{
    if let Some((s, j)) = crate::parser::code_item(b, i) {
        if j > i {
            lemma_items_in(b, j);
        }
    }
}

fn parse_codes_list(b: &[u8], i: usize) -> (r: Option<(Vec<Vec<u8>>, usize)>)
    requires
        i <= b@.len(),
    ensures
        match codes_list_at(b@, i as int) {
            Some((v, e)) => r matches Some((w, k)) && crate::matcher::subfield::value_views(w@) == v
                && k == e && i <= k <= b@.len(),
            None => r is None,
        },
{
    match parse_codes(b, i) {
        Some((c, e)) => {
            proof {
                lemma_codes_in(b@, i as int);
            }
            match parse_codes_list_rest(b, e) {
                Some((rest, k)) => {
                    let ghost cv = c@;
                    let mut out: Vec<Vec<u8>> = Vec::new();
                    out.push(c);
                    let mut rest = rest;
                    out.append(&mut rest);
                    assert(crate::matcher::subfield::value_views(out@) =~= seq![cv]
                        + codes_list_rest(b@, e as int).unwrap().0);
                    Some((out, k))
                },
                None => None,
            }
        },
        None => None,
    }
}

fn parse_curly_codes(b: &[u8], i: usize) -> (r: Option<(Vec<Vec<u8>>, usize)>)
    requires
        i <= b@.len(),
    ensures
        match curly_codes_at(b@, i as int) {
            Some((v, e)) => r matches Some((w, k)) && crate::matcher::subfield::value_views(w@) == v
                && k == e && i <= k <= b@.len(),
            None => r is None,
        },
{
    if let Some(x) = parse_codes_list(b, i) {
        return Some(x);
    }
    let p = skip_ws_at(b, i);
    if !byte_is(b, p, 0x28) {
        return None;
    }
    let q = skip_ws_at(b, p + 1);
    proof {
        lemma_skip_ws(b@, p + 1);
        lemma_skip_ws(b@, i as int);
    }
    match parse_codes_list(b, q) {
        Some((cs, e)) => {
            let f = skip_ws_at(b, e);
            if byte_is(b, f, 0x29) {
                proof {
                    lemma_skip_ws(b@, f + 1);
                    lemma_skip_ws(b@, e as int);
                }
                Some((cs, skip_ws_at(b, f + 1)))
            } else {
                None
            }
        },
        None => None,
    }
}

/// Reads a path of the form `<tag><occurrence>.<codes>` at `i`.
pub fn parse_path_simple(b: &[u8], i: usize) -> (r: Option<(Path, usize)>)
    requires
        i <= b@.len(),
    ensures
        match path_simple_at(b@, i as int) {
            Some((a, e)) => r matches Some((p, k)) && path_ast(p) == a && k == e,
            None => r is None,
        },
{
    let p = skip_ws_at(b, i);
    let (t, e1) = match parse_tag_matcher(b, p) {
        Some(x) => x,
        None => return None,
    };
    let (o, e2) = parse_occurrence_matcher(b, e1);
    if !byte_is(b, e2, 0x2e) {
        return None;
    }
    let (c, e3) = match parse_codes(b, e2 + 1) {
        Some(x) => x,
        None => return None,
    };
    proof {
        lemma_codes_in(b@, e2 + 1);
        lemma_skip_ws(b@, i as int);
        lemma_skip_ws(b@, e3 as int);
    }
    let end = skip_ws_at(b, e3);
    let raw = raw_text_of(b, i, end);
    let codes = vec![codes_from_bytes(c.as_slice())];
    assert(code_lists(codes@) =~= seq![c@]);
    let path = Path { tag_matcher: t, occurrence_matcher: o, subfield_matcher: None, codes, raw_path: raw };
    Some((path, end))
}

/// Reads a path of the form `<tag><occurrence>{ <codes> | <matcher> }`
/// at `i`.
pub fn parse_path_curly(b: &[u8], i: usize) -> (r: Option<(Path, usize)>)
    requires
        i <= b@.len(),
    ensures
        match path_curly_at(b@, i as int) {
            Some((a, e)) => r matches Some((p, k)) && path_ast(p) == a && k == e,
            None => r is None,
        },
{
    let p = skip_ws_at(b, i);
    let (t, e1) = match parse_tag_matcher(b, p) {
        Some(x) => x,
        None => return None,
    };
    let (o, e2) = parse_occurrence_matcher(b, e1);
    let q = skip_ws_at(b, e2);
    if !byte_is(b, q, 0x7b) {
        return None;
    }
    let q1 = skip_ws_at(b, q + 1);
    proof {
        lemma_skip_ws(b@, q + 1);
    }
    let (cs, e3) = match parse_curly_codes(b, q1) {
        Some(x) => x,
        None => return None,
    };
    let s = skip_ws_at(b, e3);
    let (m, e4) = if byte_is(b, s, 0x7c) {
        let s1 = skip_ws_at(b, s + 1);
        proof {
            lemma_skip_ws(b@, s + 1);
        }
        match parse_subfield_matcher_at(b, s1) {
            Some((m, e)) => (Some(m), e),
            None => (None, e3),
        }
    } else {
        (None, e3)
    };
    let f = skip_ws_at(b, e4);
    if !byte_is(b, f, 0x7d) {
        return None;
    }
    proof {
        lemma_skip_ws(b@, i as int);
        lemma_skip_ws(b@, e2 as int);
        lemma_skip_ws(b@, e3 as int);
        lemma_skip_ws(b@, e4 as int);
        lemma_skip_ws(b@, f + 1);
    }
    let end = skip_ws_at(b, f + 1);
    let raw = raw_text_of(b, i, end);
    let codes = code_lists_from(cs);
    let path = Path { tag_matcher: t, occurrence_matcher: o, subfield_matcher: m, codes, raw_path: raw };
    Some((path, end))
}

/// Reads a path at `i`.
pub(crate) fn parse_path_at(b: &[u8], i: usize) -> (r: Option<(Path, usize)>)
    requires
        i <= b@.len(),
    ensures
        match path_at(b@, i as int) {
            Some((a, e)) => r matches Some((p, k)) && path_ast(p) == a && k == e,
            None => r is None,
        },
{
    match parse_path_simple(b, i) {
        Some(x) => Some(x),
        None => parse_path_curly(b, i),
    }
}

impl Path {
    /// A path made of its parts, with the text it was read from.
    pub fn from_parts(
        tag_matcher: TagMatcher,
        occurrence_matcher: OccurrenceMatcher,
        subfield_matcher: Option<SubfieldMatcher>,
        codes: Vec<Vec<SubfieldCode>>,
        raw_path: String,
    ) -> (r: Self)
        ensures
            r@ == (PathSpec { tag_matcher, occurrence_matcher, subfield_matcher, codes: code_lists(codes@) }),
            r.raw_text() == raw_path@,
    {
        Path { tag_matcher, occurrence_matcher, subfield_matcher, codes, raw_path }
    }

    /// Creates a path from its text, such as `003@.0` or
    /// `045E{ (e, f) | E == 'm' }`; fails unless the whole text is one.
    pub fn new(path: &str) -> (r: Result<Self, ParsePathError>)
        ensures
            r is Ok <==> (path_at(path.spec_bytes(), 0) matches Some((_, e)) && e == path.spec_bytes().len()),
            r matches Ok(p) ==> path_at(path.spec_bytes(), 0) == Some((path_ast(p), path.spec_bytes().len() as int)),
            r matches Err(e) ==> e@ == "invalid path '"@ + path@ + "'"@,
    {
        let b = path.as_bytes();
        let r = parse_path_at(b, 0);
        if let Some((p, e)) = r {
            if e == b.len() {
                return Ok(p);
            }
        }
        let mut msg = String::new();
        push_str(&mut msg, "invalid path '");
        push_str(&mut msg, path);
        push_str(&mut msg, "'");
        assert(msg@ =~= "invalid path '"@ + path@ + "'"@);
        Err(ParsePathError(msg))
    }
}

/// `v` is the value of one of the subfields of `fields`.
pub open spec fn is_field_value(fields: Seq<SpecField>, v: Seq<u8>) -> bool {
    exists|i: int, j: int|
        0 <= i < fields.len() && 0 <= j < fields[i].subfields.len() && #[trigger] fields[i].subfields[j].value
            == v
}

/// `v` is the value of one of `subfields`.
pub open spec fn is_subfield_value(subfields: Seq<SpecSubfield>, v: Seq<u8>) -> bool {
    exists|j: int| 0 <= j < subfields.len() && #[trigger] subfields[j].value == v
}

/// Each value taken from a list of fields is the value of one of their
/// subfields.
proof fn lemma_values_are_subfield_values(
    select: spec_fn(SpecField) -> bool,
    codes: Seq<Seq<u8>>,
    fields: Seq<SpecField>,
)
    ensures
        forall|k: int|
            0 <= k < values_of(select, codes, fields).len() ==> is_field_value(
                fields,
                #[trigger] values_of(select, codes, fields)[k],
            ),
    decreases fields.len(),
{
    if fields.len() > 0 {
        let init = fields.drop_last();
        lemma_values_are_subfield_values(select, codes, init);
        let last = fields.last();
        lemma_subfield_values_in(codes, last.subfields);
        let vs = values_of(select, codes, fields);
        let rest = values_of(select, codes, init);
        assert forall|k: int| 0 <= k < vs.len() implies is_field_value(fields, #[trigger] vs[k]) by {
            if k < rest.len() {
                assert(vs[k] == rest[k]);
                assert(is_field_value(init, rest[k]));
                let (i, j) = choose|i: int, j: int|
                    0 <= i < init.len() && 0 <= j < init[i].subfields.len()
                        && init[i].subfields[j].value == rest[k];
                assert(fields[i] == init[i]);
                assert(fields[i].subfields[j].value == vs[k]);
            } else {
                let sv = subfield_values(codes, last.subfields);
                assert(vs[k] == sv[k - rest.len()]);
                assert(is_subfield_value(last.subfields, sv[k - rest.len()]));
                let j = choose|j: int|
                    0 <= j < last.subfields.len() && last.subfields[j].value == sv[k - rest.len()];
                assert(fields[fields.len() - 1] == last);
                assert(fields[fields.len() - 1].subfields[j].value == vs[k]);
            }
        }
    }
}

/// Each value a path takes from a record is the value of one of its
/// subfields.
proof fn lemma_path_values_in(p: PathSpec, fields: Seq<SpecField>, case_ignore: bool, threshold: u32)
    ensures
        forall|k: int|
            0 <= k < path_values(p, fields, case_ignore, threshold).len() ==> is_field_value(
                fields,
                #[trigger] path_values(p, fields, case_ignore, threshold)[k],
            ),
{
    let select = |f: SpecField| path_selects(p, f, case_ignore, threshold);
    lemma_values_are_subfield_values(select, p.codes, fields);
    let vs = path_values(p, fields, case_ignore, threshold);
    assert(vs == values_of(select, p.codes, fields));
    assert forall|k: int| 0 <= k < vs.len() implies is_field_value(fields, #[trigger] vs[k]) by {
        assert(vs[k] == values_of(select, p.codes, fields)[k]);
    }
}

/// Each value of a subfield list is the value of one of its subfields.
proof fn lemma_subfield_values_in(codes: Seq<Seq<u8>>, subfields: Seq<SpecSubfield>)
    ensures
        forall|k: int|
            0 <= k < subfield_values(codes, subfields).len() ==> is_subfield_value(
                subfields,
                #[trigger] subfield_values(codes, subfields)[k],
            ),
    decreases subfields.len(),
{
    if subfields.len() > 0 {
        let init = subfields.drop_last();
        lemma_subfield_values_in(codes, init);
        let sv = subfield_values(codes, subfields);
        let rest = subfield_values(codes, init);
        assert forall|k: int| 0 <= k < sv.len() implies is_subfield_value(subfields, #[trigger] sv[k]) by {
            if k < rest.len() {
                assert(sv[k] == rest[k]);
                assert(is_subfield_value(init, rest[k]));
                let j = choose|j: int| 0 <= j < init.len() && init[j].value == rest[k];
                assert(subfields[j] == init[j]);
                assert(subfields[j].value == sv[k]);
            } else {
                assert(sv[k] == subfields.last().value);
                assert(subfields[subfields.len() - 1].value == sv[k]);
            }
        }
    }
}

/// The chars of each value.
pub open spec fn str_views<'a>(v: Seq<&'a str>) -> Seq<Seq<char>> {
    v.map_values(|s: &'a str| s@)
}

impl<'a> ByteRecord<'a> {
    /// The values the path takes from the record.
    pub fn path(&self, path: &Path, options: &MatcherOptions) -> (r: Vec<&'a [u8]>)
        ensures
            slice_views(r@) == path_values(
                path@,
                self@,
                options.spec_case_ignore(),
                options.spec_strsim_threshold(),
            ),
    {
        self.record().path(path, options)
    }

    /// The first value the path takes from the record, if any.
    pub fn first(&self, path: &Path, options: &MatcherOptions) -> (r: Option<&'a [u8]>)
        ensures
            ({
                let vs = path_values(
                    path@,
                    self@,
                    options.spec_case_ignore(),
                    options.spec_strsim_threshold(),
                );
                match r {
                    Some(v) => vs.len() > 0 && v@ == vs[0],
                    None => vs.len() == 0,
                }
            }),
    {
        self.record().first(path, options)
    }

    /// The record's PPN: the first value of subfield `0` of field `003@`;
    /// the record must have one.
    pub fn ppn(&self) -> (r: &'a [u8])
        requires
            ppn_values(self@).len() > 0,
        ensures
            r@ == ppn_values(self@)[0],
    {
        self.record().ppn()
    }
}

impl<'a> StringRecord<'a> {
    /// The values the path takes from the record, as strings.
    pub fn path(&self, path: &Path, options: &MatcherOptions) -> (r: Vec<&'a str>)
        ensures
            str_views(r@) == path_values(
                path@,
                self@,
                options.spec_case_ignore(),
                options.spec_strsim_threshold(),
            ).map_values(|v: Seq<u8>| decode_utf8(v)),
    {
        let record = self.byte_record();
        let values = record.path(path, options);
        let ghost vs = slice_views(values@);
        proof {
            lemma_path_values_in(
                path@,
                self@,
                options.spec_case_ignore(),
                options.spec_strsim_threshold(),
            );
        }
        let mut out: Vec<&'a str> = Vec::new();
        let mut k: usize = 0;
        while k < values.len()
            invariant
                0 <= k <= values@.len(),
                vs == slice_views(values@),
                vs == path_values(
                    path@,
                    self@,
                    options.spec_case_ignore(),
                    options.spec_strsim_threshold(),
                ),
                record_utf8(self@),
                forall|m: int| 0 <= m < vs.len() ==> is_field_value(self@, #[trigger] vs[m]),
                out@.len() == k,
                forall|m: int| 0 <= m < k ==> (#[trigger] out@[m])@ == decode_utf8(vs[m]),
            decreases values@.len() - k,
        {
            assert(vs[k as int] == values@[k as int]@);
            proof {
                assert(is_field_value(self@, vs[k as int]));
                let (i, j) = choose|i: int, j: int|
                    0 <= i < self@.len() && 0 <= j < self@[i].subfields.len()
                        && self@[i].subfields[j].value == vs[k as int];
                assert(vstd::utf8::valid_utf8(vs[k as int]));
            }
            match str_from_utf8(values[k]) {
                Ok(s) => out.push(s),
                Err(_) => {
                    assert(false);
                },
            }
            k = k + 1;
        }
        assert(str_views(out@) =~= vs.map_values(|v: Seq<u8>| decode_utf8(v)));
        out
    }
}

} // verus!
