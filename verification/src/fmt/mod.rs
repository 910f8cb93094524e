//! Formats: how to render the subfields of a field as one value.
use vstd::prelude::*;
use vstd::string::StringSliceAdditionalSpecFns;

use crate::matcher::field::field_selected;
use crate::matcher::occurrence::{occurrence_ast, parse_occurrence_matcher};
use crate::matcher::subfield::parser::{parse_subfield_matcher_at, raw_text_of, subfield_ast};
use crate::matcher::subfield::{code_views, has_code, SubfieldMatcher};
use crate::matcher::tag::{parse_tag_matcher, tag_ast};
use crate::matcher::{MatcherOptions, OccurrenceMatcher, TagMatcher};
use crate::parser::{byte_is, skip_ws_at};
use crate::primitives::model::{SpecField, SpecSubfield};
use crate::primitives::subfield::append_bytes;
use crate::primitives::{FieldRef, RecordRef, SubfieldCode};
use crate::text::{
    lowercase_bytes, push_str, to_lowercase, to_uppercase, trim_bytes, trimmed_bytes, uppercase_bytes,
};

pub mod parser;

use parser::{format_at, parse_fragments, FormatAst};

verus! {

/// Changes applied to a formatted value.
#[derive(Debug, Clone, Copy, PartialEq, Eq, Structural)]
pub struct Modifier {
    /// Transform the value to lower case.
    pub lowercase: bool,
    /// Transform the value to upper case.
    pub uppercase: bool,
    /// Remove every space.
    pub remove_ws: bool,
    /// Remove white space at both ends.
    pub trim: bool,
    /// The `o` flag; it changes nothing in the value.
    pub strip_overread_char: bool,
}

/// The modifier that changes nothing.
pub open spec fn no_modifier() -> Modifier {
    Modifier { lowercase: false, uppercase: false, remove_ws: false, trim: false, strip_overread_char: false }
}

impl Modifier {
    /// The modifier that changes nothing.
    pub fn none() -> (r: Self)
        ensures
            r == no_modifier(),
    {
        Modifier { lowercase: false, uppercase: false, remove_ws: false, trim: false, strip_overread_char: false }
    }
}

/// The bytes without their first `@`, and whether there was one.
pub open spec fn strip_acc(v: Seq<u8>) -> (Seq<u8>, bool)
    decreases v.len(),
{
    if v.len() == 0 {
        (v, false)
    } else {
        let (r, found) = strip_acc(v.drop_last());
        if !found && v.last() == 0x40 {
            (r, true)
        } else {
            (r.push(v.last()), found)
        }
    }
}

/// The bytes without their first `@`.
pub open spec fn strip_first_at(v: Seq<u8>) -> Seq<u8> {
    strip_acc(v).0
}

/// The bytes without their spaces.
pub open spec fn without_spaces(v: Seq<u8>) -> Seq<u8>
    decreases v.len(),
{
    if v.len() == 0 {
        v
    } else if v.last() == 0x20 {
        without_spaces(v.drop_last())
    } else {
        without_spaces(v.drop_last()).push(v.last())
    }
}

/// The value after the modifier: trimmed, without spaces, in lower case,
/// in upper case, each where the modifier asks for it, in this order.
pub open spec fn modified(m: Modifier, v: Seq<u8>) -> Seq<u8> {
    let v1 = if m.trim {
        trimmed_bytes(v)
    } else {
        v
    };
    let v2 = if m.remove_ws {
        without_spaces(v1)
    } else {
        v1
    };
    let v3 = if m.lowercase {
        lowercase_bytes(v2)
    } else {
        v2
    };
    if m.uppercase {
        uppercase_bytes(v3)
    } else {
        v3
    }
}

/// What a value fragment is: the codes of the subfields it takes, at most
/// `bound` of them, each with an optional prefix and suffix.
pub struct ValueSpec {
    pub codes: Seq<u8>,
    pub prefix: Option<Seq<u8>>,
    pub suffix: Option<Seq<u8>>,
    pub bound: usize,
    pub modifier: Modifier,
}

/// What a fragment of a format is.
pub enum FormatNode {
    Value(ValueSpec),
    Group(Box<FormatNode>, usize, Modifier),
    AndThen(Seq<FormatNode>),
    Cons(Seq<FormatNode>),
}

/// The optional text, or nothing.
pub open spec fn text_or_empty(t: Option<Seq<u8>>) -> Seq<u8> {
    match t {
        Some(s) => s,
        None => Seq::empty(),
    }
}

/// The value of a subfield as a value fragment shows it.
pub open spec fn shown_value(v: Seq<u8>, strip: bool) -> Seq<u8> {
    if strip {
        strip_first_at(v)
    } else {
        v
    }
}

/// The text of a value fragment over the subfields, with the number of
/// subfields it took: each subfield whose code is in the list, until
/// `bound` of them are taken.
pub open spec fn value_acc(val: ValueSpec, subfields: Seq<SpecSubfield>, strip: bool) -> (Seq<u8>, nat)
    decreases subfields.len(),
{
    if subfields.len() == 0 {
        (Seq::empty(), 0)
    } else {
        let (v, cnt) = value_acc(val, subfields.drop_last(), strip);
        let s = subfields.last();
        if cnt >= val.bound || !val.codes.contains(s.code) {
            (v, cnt)
        } else {
            (v + text_or_empty(val.prefix) + shown_value(s.value, strip) + text_or_empty(val.suffix), cnt + 1)
        }
    }
}

/// The text of a value fragment, after its modifier.
pub open spec fn value_text(val: ValueSpec, subfields: Seq<SpecSubfield>, strip: bool) -> Seq<u8> {
    modified(val.modifier, value_acc(val, subfields, strip).0)
}

/// The subfields a value fragment takes: those whose code is in its list,
/// in order, the first `bound` of them.
pub open spec fn taken_subfields(val: ValueSpec, subfields: Seq<SpecSubfield>) -> Seq<SpecSubfield> {
    let f = subfields.filter(|s: SpecSubfield| val.codes.contains(s.code));
    if f.len() <= val.bound {
        f
    } else {
        f.take(val.bound as int)
    }
}

/// The value of each subfield between the fragment's prefix and suffix,
/// one after the other.
pub open spec fn framed_values(val: ValueSpec, subfields: Seq<SpecSubfield>, strip: bool) -> Seq<u8>
    decreases subfields.len(),
{
    if subfields.len() == 0 {
        Seq::empty()
    } else {
        framed_values(val, subfields.drop_last(), strip) + text_or_empty(val.prefix) + shown_value(
            subfields.last().value,
            strip,
        ) + text_or_empty(val.suffix)
    }
}

/// The text of a value fragment before its modifier frames each subfield
/// it takes, and it takes as many as `taken_subfields` gives.
proof fn lemma_value_acc(val: ValueSpec, subfields: Seq<SpecSubfield>, strip: bool)
    ensures
        value_acc(val, subfields, strip) == (
            framed_values(val, taken_subfields(val, subfields), strip),
            taken_subfields(val, subfields).len(),
        ),
    decreases subfields.len(),
{
    reveal(Seq::filter);
    let pred = |s: SpecSubfield| val.codes.contains(s.code);
    if subfields.len() > 0 {
        let rest = subfields.drop_last();
        let s = subfields.last();
        lemma_value_acc(val, rest, strip);
        let f0 = rest.filter(pred);
        let f = subfields.filter(pred);
        assert(f == if pred(s) { f0.push(s) } else { f0 });
        let t0 = taken_subfields(val, rest);
        if f0.len() >= val.bound {
            assert(t0 =~= f0.take(val.bound as int));
            if pred(s) {
                assert(f0.push(s).take(val.bound as int) =~= f0.take(val.bound as int));
            }
            assert(taken_subfields(val, subfields) =~= t0);
        } else if !pred(s) {
            assert(taken_subfields(val, subfields) == t0);
        } else {
            assert(t0 == f0);
            assert(taken_subfields(val, subfields) == f0.push(s));
            assert(f0.push(s).drop_last() =~= f0);
        }
    }
}

/// A value fragment writes, for each subfield it takes (those whose code
/// is in its list, the first `bound` of them), the prefix, the value and
/// the suffix, one after the other, and then applies its modifier.
pub proof fn law_value_text(val: ValueSpec, subfields: Seq<SpecSubfield>, strip: bool)
    ensures
        value_text(val, subfields, strip) == modified(
            val.modifier,
            framed_values(val, taken_subfields(val, subfields), strip),
        ),
        value_acc(val, subfields, strip).1 == taken_subfields(val, subfields).len(),
{
    lemma_value_acc(val, subfields, strip);
}

/// A modifier that asks for nothing leaves the text as it is.
pub proof fn law_no_modifier(v: Seq<u8>)
    ensures
        modified(no_modifier(), v) == v,
{
}

/// `<*>` writes the texts of both parts, one after the other; `<$>`
/// writes nothing once the first part gave no text, and only the first
/// part's text once the second gave none.
pub proof fn law_list_texts(a: FormatNode, b: FormatNode, subfields: Seq<SpecSubfield>, strip: bool)
    ensures
        node_text(FormatNode::Cons(seq![a, b]), subfields, strip) == node_text(a, subfields, strip)
            + node_text(b, subfields, strip),
        node_text(FormatNode::AndThen(seq![a, b]), subfields, strip) == if node_text(
            a,
            subfields,
            strip,
        ).len() == 0 {
            Seq::<u8>::empty()
        } else {
            node_text(a, subfields, strip) + node_text(b, subfields, strip)
        },
{
    let ns = seq![a, b];
    assert(ns.drop_last() =~= seq![a]);
    assert(seq![a].drop_last() =~= Seq::<FormatNode>::empty());
    assert(Seq::<u8>::empty() + node_text(a, subfields, strip) =~= node_text(a, subfields, strip));
    assert(node_text(a, subfields, strip) + Seq::<u8>::empty() =~= node_text(a, subfields, strip));
    let ta = node_text(a, subfields, strip);
    let tb = node_text(b, subfields, strip);
    assert(cons_text(Seq::empty(), subfields, strip) == Seq::<u8>::empty());
    assert(cons_text(seq![a], subfields, strip) == ta);
    assert(cons_text(ns, subfields, strip) == ta + tb);
    assert(and_then_text(Seq::empty(), subfields, strip) == (Seq::<u8>::empty(), false));
    if ta.len() == 0 {
        assert(and_then_text(seq![a], subfields, strip) == (Seq::<u8>::empty(), true));
        assert(and_then_text(ns, subfields, strip).0 == Seq::<u8>::empty());
    } else {
        assert(and_then_text(seq![a], subfields, strip) == (ta, false));
        if tb.len() == 0 {
            assert(ta + tb =~= ta);
            assert(and_then_text(ns, subfields, strip) == (ta, true));
        } else {
            assert(and_then_text(ns, subfields, strip) == (ta + tb, false));
        }
    }
}

/// The text of a fragment: a value; a group, after its modifier; the
/// parts of `<$>` up to the first empty one; all parts of `<*>`.
pub open spec fn node_text(n: FormatNode, subfields: Seq<SpecSubfield>, strip: bool) -> Seq<u8>
    decreases n,
{
    match n {
        FormatNode::Value(v) => value_text(v, subfields, strip),
        FormatNode::Group(inner, _, m) => modified(m, node_text(*inner, subfields, strip)),
        FormatNode::AndThen(ns) => and_then_text(ns, subfields, strip).0,
        FormatNode::Cons(ns) => cons_text(ns, subfields, strip),
    }
}

/// The texts of the parts up to the first empty one; whether one was
/// empty.
pub open spec fn and_then_text(ns: Seq<FormatNode>, subfields: Seq<SpecSubfield>, strip: bool) -> (Seq<u8>, bool)
    decreases ns,
{
    if ns.len() == 0 {
        (Seq::empty(), false)
    } else {
        let (acc, stopped) = and_then_text(ns.drop_last(), subfields, strip);
        if stopped {
            (acc, true)
        } else {
            let v = node_text(ns.last(), subfields, strip);
            if v.len() == 0 {
                (acc, true)
            } else {
                (acc + v, false)
            }
        }
    }
}

/// The texts of all parts, one after the other.
pub open spec fn cons_text(ns: Seq<FormatNode>, subfields: Seq<SpecSubfield>, strip: bool) -> Seq<u8>
    decreases ns,
{
    if ns.len() == 0 {
        Seq::empty()
    } else {
        cons_text(ns.drop_last(), subfields, strip) + node_text(ns.last(), subfields, strip)
    }
}

/// A fragment that takes the values of subfields.
#[derive(Debug, PartialEq)]
pub struct Value {
    pub codes: Vec<SubfieldCode>,
    pub prefix: Option<Vec<u8>>,
    pub suffix: Option<Vec<u8>>,
    pub bounds: usize,
    pub modifier: Modifier,
}

/// The bytes of an optional text.
pub open spec fn opt_view(t: Option<Vec<u8>>) -> Option<Seq<u8>> {
    match t {
        Some(v) => Some(v@),
        None => None,
    }
}

/// What a value fragment is.
pub open spec fn value_spec(v: Value) -> ValueSpec {
    ValueSpec {
        codes: code_views(v.codes@),
        prefix: opt_view(v.prefix),
        suffix: opt_view(v.suffix),
        bound: v.bounds,
        modifier: v.modifier,
    }
}

/// A fragment in brackets, with a modifier for its text.
#[derive(Debug, PartialEq)]
pub struct Group {
    pub fragments: Box<Fragments>,
    pub bounds: usize,
    pub modifier: Modifier,
}

/// A part of a format: a group, a value, or fragments joined by `<$>`
/// (each only while the ones before gave text) or by `<*>` (all of them).
#[derive(Debug, PartialEq)]
pub enum Fragments {
    Group(Group),
    Value(Value),
    AndThen(Vec<Fragments>),
    Cons(Vec<Fragments>),
}

/// What a fragment is.
pub open spec fn node_of(f: Fragments) -> FormatNode
    decreases f,
{
    match f {
        Fragments::Value(v) => FormatNode::Value(value_spec(v)),
        Fragments::Group(g) => FormatNode::Group(Box::new(node_of(*g.fragments)), g.bounds, g.modifier),
        Fragments::AndThen(v) => FormatNode::AndThen(nodes_of(v@)),
        Fragments::Cons(v) => FormatNode::Cons(nodes_of(v@)),
    }
}

/// What each fragment is.
pub open spec fn nodes_of(s: Seq<Fragments>) -> Seq<FormatNode>
    decreases s,
{
    if s.len() == 0 {
        Seq::empty()
    } else {
        nodes_of(s.drop_last()).push(node_of(s.last()))
    }
}

/// The bytes without their first `@`.
fn strip_at(v: &[u8]) -> (r: Vec<u8>)
    ensures
        r@ == strip_first_at(v@),
{
    let mut out: Vec<u8> = Vec::new();
    let mut found = false;
    let mut i: usize = 0;
    while i < v.len()
        invariant
            0 <= i <= v@.len(),
            strip_acc(v@.take(i as int)) == (out@, found),
        decreases v@.len() - i,
    {
        assert(v@.take(i + 1).drop_last() =~= v@.take(i as int));
        assert(v@.take(i + 1).last() == v@[i as int]);
        if !found && v[i] == 0x40 {
            found = true;
        } else {
            out.push(v[i]);
        }
        i = i + 1;
    }
    assert(v@.take(i as int) =~= v@);
    out
}

/// The bytes without their spaces.
fn remove_spaces(v: &[u8]) -> (r: Vec<u8>)
    ensures
        r@ == without_spaces(v@),
{
    let mut out: Vec<u8> = Vec::new();
    let mut i: usize = 0;
    while i < v.len()
        invariant
            0 <= i <= v@.len(),
            out@ == without_spaces(v@.take(i as int)),
        decreases v@.len() - i,
    {
        assert(v@.take(i + 1).drop_last() =~= v@.take(i as int));
        assert(v@.take(i + 1).last() == v@[i as int]);
        if v[i] != 0x20 {
            out.push(v[i]);
        }
        i = i + 1;
    }
    assert(v@.take(i as int) =~= v@);
    out
}

/// The value after the modifier.
fn modify(m: Modifier, v: Vec<u8>) -> (r: Vec<u8>)
    ensures
        r@ == modified(m, v@),
{
    let v1 = if m.trim {
        trim_bytes(v.as_slice())
    } else {
        v
    };
    let v2 = if m.remove_ws {
        remove_spaces(v1.as_slice())
    } else {
        v1
    };
    let v3 = if m.lowercase {
        to_lowercase(v2.as_slice())
    } else {
        v2
    };
    if m.uppercase {
        to_uppercase(v3.as_slice())
    } else {
        v3
    }
}

impl Value {
    /// The text of the value fragment over the field's subfields.
    fn text(&self, field: &FieldRef<'_>, strip: bool) -> (r: Vec<u8>)
        ensures
            r@ == value_text(value_spec(*self), field@.subfields, strip),
    {
        let ghost val = value_spec(*self);
        let subfields = field.subfields();
        let ghost sfs = field@.subfields;
        let mut out: Vec<u8> = Vec::new();
        let mut cnt: usize = 0;
        let mut i: usize = 0;
        while i < subfields.len()
            invariant
                0 <= i <= subfields@.len(),
                val == value_spec(*self),
                sfs == crate::primitives::subfield::subfield_views(subfields@),
                value_acc(val, sfs.take(i as int), strip) == (out@, cnt as nat),
                cnt <= i,
            ensures
                0 <= i <= sfs.len(),
                value_acc(val, sfs.take(i as int), strip) == (out@, cnt as nat),
                i == sfs.len() || cnt >= val.bound,
            decreases subfields@.len() - i,
        {
            assert(sfs.take(i + 1).drop_last() =~= sfs.take(i as int));
            assert(sfs.take(i + 1).last() == subfields@[i as int]@);
            if cnt >= self.bounds {
                break;
            }
            let sf = &subfields[i];
            if has_code(self.codes.as_slice(), sf.code().as_byte()) {
                match &self.prefix {
                    Some(p) => append_bytes(&mut out, p.as_slice()),
                    None => {},
                }
                if strip {
                    let s = strip_at(sf.value().as_bytes());
                    append_bytes(&mut out, s.as_slice());
                } else {
                    append_bytes(&mut out, sf.value().as_bytes());
                }
                match &self.suffix {
                    Some(p) => append_bytes(&mut out, p.as_slice()),
                    None => {},
                }
                cnt = cnt + 1;
            }
            i = i + 1;
        }
        proof {
            lemma_value_acc_stops(val, sfs, i as int, strip);
        }
        modify(self.modifier, out)
    }
}

/// Once a value fragment has taken `bound` subfields, the later ones
/// change nothing.
proof fn lemma_value_acc_stops(val: ValueSpec, sfs: Seq<SpecSubfield>, i: int, strip: bool)
    requires
        0 <= i <= sfs.len(),
        i == sfs.len() || value_acc(val, sfs.take(i), strip).1 >= val.bound,
    ensures
        value_acc(val, sfs, strip) == value_acc(val, sfs.take(i), strip),
    decreases sfs.len() - i,
{
    if i < sfs.len() {
        assert(sfs.take(i + 1).drop_last() =~= sfs.take(i));
        lemma_value_acc_stops(val, sfs, i + 1, strip);
    } else {
        assert(sfs.take(i) =~= sfs);
    }
}

impl Fragments {
    /// The text of the fragment over the field's subfields.
    fn text(&self, field: &FieldRef<'_>, strip: bool) -> (r: Vec<u8>)
        ensures
            r@ == node_text(node_of(*self), field@.subfields, strip),
        decreases self,
    {
        match self {
            Fragments::Value(v) => v.text(field, strip),
            Fragments::Group(g) => {
                let t = g.fragments.text(field, strip);
                modify(g.modifier, t)
            },
            Fragments::AndThen(v) => {
                let ghost ns = nodes_of(v@);
                proof {
                    lemma_nodes_of(v@);
                }
                let mut acc: Vec<u8> = Vec::new();
                let mut k: usize = 0;
                while k < v.len()
                    invariant
                        0 <= k <= v@.len(),
                        *self == Fragments::AndThen(*v),
                        ns == nodes_of(v@),
                        forall|j: int| 0 <= j < v@.len() ==> #[trigger] ns[j] == node_of(v@[j]),
                        ns.len() == v@.len(),
                        and_then_text(ns.take(k as int), field@.subfields, strip) == (acc@, false),
                    decreases v@.len() - k,
                {
                    assert(ns.take(k + 1).drop_last() =~= ns.take(k as int));
                    assert(ns.take(k + 1).last() == node_of(v@[k as int]));
                    proof {
                        assert(decreases_to!(*self => self->AndThen_0));
                        assert(decreases_to!(*v => v@));
                        assert(decreases_to!(v@ => v@[k as int]));
                    }
                    let t = v[k].text(field, strip);
                    if t.len() == 0 {
                        proof {
                            lemma_and_then_stops(ns, k + 1, field@.subfields, strip);
                        }
                        return acc;
                    }
                    append_bytes(&mut acc, t.as_slice());
                    k = k + 1;
                }
                assert(ns.take(k as int) =~= ns);
                acc
            },
            Fragments::Cons(v) => {
                let ghost ns = nodes_of(v@);
                proof {
                    lemma_nodes_of(v@);
                }
                let mut acc: Vec<u8> = Vec::new();
                let mut k: usize = 0;
                while k < v.len()
                    invariant
                        0 <= k <= v@.len(),
                        *self == Fragments::Cons(*v),
                        ns == nodes_of(v@),
                        forall|j: int| 0 <= j < v@.len() ==> #[trigger] ns[j] == node_of(v@[j]),
                        ns.len() == v@.len(),
                        cons_text(ns.take(k as int), field@.subfields, strip) == acc@,
                    decreases v@.len() - k,
                {
                    assert(ns.take(k + 1).drop_last() =~= ns.take(k as int));
                    assert(ns.take(k + 1).last() == node_of(v@[k as int]));
                    proof {
                        assert(decreases_to!(*self => self->Cons_0));
                        assert(decreases_to!(*v => v@));
                        assert(decreases_to!(v@ => v@[k as int]));
                    }
                    let t = v[k].text(field, strip);
                    append_bytes(&mut acc, t.as_slice());
                    k = k + 1;
                }
                assert(ns.take(k as int) =~= ns);
                acc
            },
        }
    }
}

/// Once a part of `<$>` gave no text, the later ones change nothing.
proof fn lemma_and_then_stops(ns: Seq<FormatNode>, i: int, subfields: Seq<SpecSubfield>, strip: bool)
    requires
        0 < i <= ns.len(),
        and_then_text(ns.take(i), subfields, strip).1,
    ensures
        and_then_text(ns, subfields, strip) == and_then_text(ns.take(i), subfields, strip),
    decreases ns.len() - i,
{
    if i < ns.len() {
        assert(ns.take(i + 1).drop_last() =~= ns.take(i));
        lemma_and_then_stops(ns, i + 1, subfields, strip);
    } else {
        assert(ns.take(i) =~= ns);
    }
}

/// The views of the parts of a list are those of each part.
pub(crate) proof fn lemma_nodes_of(s: Seq<Fragments>)
    ensures
        nodes_of(s).len() == s.len(),
        forall|j: int| 0 <= j < s.len() ==> #[trigger] nodes_of(s)[j] == node_of(s[j]),
    decreases s.len(),
{
    if s.len() > 0 {
        lemma_nodes_of(s.drop_last());
        assert forall|j: int| 0 <= j < s.len() implies #[trigger] nodes_of(s)[j] == node_of(s[j]) by {
            if j < s.len() - 1 {
                assert(nodes_of(s)[j] == nodes_of(s.drop_last())[j]);
                assert(s.drop_last()[j] == s[j]);
            }
        }
    }
}

/// An error that can occur when parsing a format expression.
#[derive(Debug)]
pub struct ParseFormatError(pub(crate) String);

impl View for ParseFormatError {
    type V = Seq<char>;

    closed spec fn view(&self) -> Seq<char> {
        self.0@
    }
}

impl ParseFormatError {
    /// The message of the error.
    pub fn to_string(&self) -> (r: String)
        ensures
            r@ == self@,
    {
        self.0.clone()
    }
}

/// A format: which fields to format (their tag, occurrence and, where
/// given, subfields) and how.
#[derive(Debug, PartialEq)]
pub struct Format {
    pub(crate) tag_matcher: TagMatcher,
    pub(crate) occurrence_matcher: OccurrenceMatcher,
    pub(crate) subfield_matcher: Option<SubfieldMatcher>,
    pub(crate) raw_format: String,
    pub(crate) fragments: Fragments,
}

/// The parts of a format.
pub struct FormatSpec {
    pub tag_matcher: TagMatcher,
    pub occurrence_matcher: OccurrenceMatcher,
    pub subfield_matcher: Option<SubfieldMatcher>,
    pub fragments: FormatNode,
}

impl View for Format {
    type V = FormatSpec;

    closed spec fn view(&self) -> FormatSpec {
        FormatSpec {
            tag_matcher: self.tag_matcher,
            occurrence_matcher: self.occurrence_matcher,
            subfield_matcher: self.subfield_matcher,
            fragments: node_of(self.fragments),
        }
    }
}

/// Options for formatting.
#[derive(Debug, Clone, Copy, PartialEq, Eq)]
pub struct FormatOptions {
    /// Whether to strip the overread character `@` from values.
    pub(crate) strip_overread_char: bool,
    /// The similarity threshold, in thousandths, of the similarity
    /// operator (`=*`).
    pub(crate) strsim_threshold: u32,
    /// Whether to ignore case when comparing values.
    pub(crate) case_ignore: bool,
}

impl FormatOptions {
    /// Whether the overread character `@` is stripped from values.
    pub closed spec fn spec_strip(&self) -> bool {
        self.strip_overread_char
    }

    /// The similarity threshold, in thousandths.
    pub closed spec fn spec_threshold(&self) -> u32 {
        self.strsim_threshold
    }

    /// Whether case is ignored when comparing values.
    pub closed spec fn spec_case_ignore(&self) -> bool {
        self.case_ignore
    }

    /// The default options: strip `@`, threshold 800, case matters.
    pub fn new() -> (r: Self)
        ensures
            r.spec_strip(),
            r.spec_threshold() == 800,
            !r.spec_case_ignore(),
    {
        FormatOptions { strip_overread_char: true, strsim_threshold: 800, case_ignore: false }
    }

    /// Whether to strip the overread character `@` from a value or not.
    pub fn strip_overread_char(self, yes: bool) -> (r: Self)
        ensures
            r.spec_strip() == yes,
            r.spec_threshold() == self.spec_threshold(),
            r.spec_case_ignore() == self.spec_case_ignore(),
    {
        FormatOptions { strip_overread_char: yes, ..self }
    }

    /// Whether to ignore case when comparing strings or not.
    pub fn case_ignore(self, yes: bool) -> (r: Self)
        ensures
            r.spec_strip() == self.spec_strip(),
            r.spec_threshold() == self.spec_threshold(),
            r.spec_case_ignore() == yes,
    {
        FormatOptions { case_ignore: yes, ..self }
    }

    /// Sets the similarity threshold, in thousandths, of the similarity
    /// operator (`=*`).
    pub fn strsim_threshold(self, threshold: u32) -> (r: Self)
        ensures
            r.spec_strip() == self.spec_strip(),
            r.spec_threshold() == threshold,
            r.spec_case_ignore() == self.spec_case_ignore(),
    {
        FormatOptions { strsim_threshold: threshold, ..self }
    }

    /// The matcher options that these options stand for.
    fn matcher_options(&self) -> (r: MatcherOptions)
        ensures
            r.spec_case_ignore() == self.spec_case_ignore(),
            r.spec_strsim_threshold() == self.spec_threshold(),
    {
        MatcherOptions::new().case_ignore(self.case_ignore).strsim_threshold(self.strsim_threshold)
    }
}

impl Default for FormatOptions {
    fn default() -> (r: Self)
        ensures
            r.spec_strip(),
            r.spec_threshold() == 800,
            !r.spec_case_ignore(),
    {
        FormatOptions::new()
    }
}

/// The field is one the format formats.
pub open spec fn format_selects(f: FormatSpec, field: SpecField, case_ignore: bool, threshold: u32) -> bool {
    field_selected(f.tag_matcher, f.occurrence_matcher, field) && match f.subfield_matcher {
        Some(m) => m.spec_is_match(field.subfields, case_ignore, threshold),
        None => true,
    }
}

/// The text of a field, where it is not empty.
pub open spec fn field_text(f: FormatSpec, field: SpecField, strip: bool) -> Option<Seq<u8>> {
    let v = node_text(f.fragments, field.subfields, strip);
    if v.len() > 0 {
        Some(v)
    } else {
        None
    }
}

/// The texts of the fields the format selects, where they are not empty,
/// in order.
pub open spec fn format_values(f: FormatSpec, fields: Seq<SpecField>, o: FormatOptions) -> Seq<Seq<u8>>
    decreases fields.len(),
{
    if fields.len() == 0 {
        Seq::empty()
    } else {
        let rest = format_values(f, fields.drop_last(), o);
        if format_selects(f, fields.last(), o.spec_case_ignore(), o.spec_threshold()) {
            match field_text(f, fields.last(), o.spec_strip()) {
                Some(v) => rest.push(v),
                None => rest,
            }
        } else {
            rest
        }
    }
}

impl Format {
    /// The text the format was read from, without white space at its end.
    pub closed spec fn raw_text(&self) -> Seq<char> {
        self.raw_format@
    }

    /// The format as it was written.
    pub fn to_string(&self) -> (r: String)
        ensures
            r@ == self.raw_text(),
    {
        self.raw_format.clone()
    }

    /// The text of the field under the format, where it is not empty.
    pub(crate) fn fmt_field(&self, field: &FieldRef<'_>, options: &FormatOptions) -> (r: Option<Vec<u8>>)
        ensures
            match field_text(self@, field@, options.spec_strip()) {
                Some(v) => r matches Some(x) && x@ == v,
                None => r is None,
            },
    {
        let value = self.fragments.text(field, options.strip_overread_char);
        if value.len() > 0 {
            Some(value)
        } else {
            None
        }
    }

    /// Tells whether the format formats the field.
    fn selects(&self, field: &FieldRef<'_>, options: &MatcherOptions) -> (r: bool)
        ensures
            r == format_selects(self@, field@, options.spec_case_ignore(), options.spec_strsim_threshold()),
    {
        if !(self.tag_matcher.is_match(field.tag()) && self.occurrence_matcher.is_match(
            field.occurrence(),
        )) {
            return false;
        }
        match &self.subfield_matcher {
            Some(m) => m.is_match(field.subfields(), options),
            None => true,
        }
    }
}

/// Formatting the fields of a record.
pub trait FormatExt {
    type Value;

    /// The texts of the fields that the format selects, where they are not
    /// empty, in order.
    fn format(&self, format: &Format, options: &FormatOptions) -> Vec<Self::Value>;
}

impl<'a> FormatExt for RecordRef<'a> {
    type Value = Vec<u8>;

    /// The texts of the fields that the format selects, where they are not
    /// empty, in order.
    fn format(&self, format: &Format, options: &FormatOptions) -> (r: Vec<Vec<u8>>)
        ensures
            r@.map_values(|v: Vec<u8>| v@) == format_values(format@, self@, *options),
    {
        let mo = options.matcher_options();
        let fields = self.fields();
        let ghost fs = self@;
        let mut out: Vec<Vec<u8>> = Vec::new();
        let mut i: usize = 0;
        while i < fields.len()
            invariant
                0 <= i <= fields@.len(),
                fs == crate::primitives::field::field_views(fields@),
                mo.spec_case_ignore() == options.spec_case_ignore(),
                mo.spec_strsim_threshold() == options.spec_threshold(),
                out@.map_values(|v: Vec<u8>| v@) == format_values(format@, fs.take(i as int), *options),
            decreases fields@.len() - i,
        {
            assert(fs.take(i + 1).drop_last() =~= fs.take(i as int));
            assert(fs.take(i + 1).last() == fields@[i as int]@);
            if format.selects(&fields[i], &mo) {
                match format.fmt_field(&fields[i], options) {
                    Some(v) => {
                        let ghost before = out@;
                        let ghost vv = v@;
                        out.push(v);
                        assert(out@.map_values(|v: Vec<u8>| v@) =~= before.map_values(|v: Vec<u8>| v@).push(vv));
                    },
                    None => {},
                }
            }
            i = i + 1;
        }
        assert(fs.take(i as int) =~= fs);
        out
    }
}

impl<'a> FormatExt for crate::record::ByteRecord<'a> {
    type Value = Vec<u8>;

    /// The texts of the fields that the format selects, where they are not
    /// empty, in order.
    fn format(&self, format: &Format, options: &FormatOptions) -> (r: Vec<Vec<u8>>)
        ensures
            r@.map_values(|v: Vec<u8>| v@) == format_values(format@, self@, *options),
    {
        self.record().format(format, options)
    }
}

impl<'a> FormatExt for crate::record::StringRecord<'a> {
    type Value = String;

    /// The texts of the fields that the format selects, where they are not
    /// empty, in order, read as UTF-8 with each invalid sequence replaced
    /// by U+FFFD.
    fn format(&self, format: &Format, options: &FormatOptions) -> (r: Vec<String>)
        ensures
            r@.map_values(|v: String| v@) == format_values(format@, self@, *options).map_values(
                |v: Seq<u8>| crate::text::lossy_chars(v),
            ),
    {
        let values = self.byte_record().record().format(format, options);
        let ghost vs = values@.map_values(|v: Vec<u8>| v@);
        let mut out: Vec<String> = Vec::new();
        let mut i: usize = 0;
        while i < values.len()
            invariant
                0 <= i <= values@.len(),
                vs == values@.map_values(|v: Vec<u8>| v@),
                out@.len() == i,
                forall|k: int| 0 <= k < i ==> (#[trigger] out@[k])@ == crate::text::lossy_chars(vs[k]),
            decreases values@.len() - i,
        {
            assert(vs[i as int] == values@[i as int]@);
            out.push(crate::text::to_str_lossy(values[i].as_slice()));
            i = i + 1;
        }
        assert(out@.map_values(|v: String| v@) =~= vs.map_values(|v: Seq<u8>| crate::text::lossy_chars(v)));
        out
    }
}

impl Format {
    /// What the format is read as.
    pub closed spec fn ast(&self) -> FormatAst {
        FormatAst {
            tag: tag_ast(self.tag_matcher),
            occurrence: occurrence_ast(self.occurrence_matcher),
            subfields: match self.subfield_matcher {
                Some(m) => Some(subfield_ast(m)),
                None => None,
            },
            fragments: node_of(self.fragments),
            raw: self.raw_format@,
        }
    }

    /// Creates a format from its text, such as `028A{ a <$> ', ' d }`;
    /// fails unless the whole text is one.
    pub fn new(fmt: &str) -> (r: Result<Self, ParseFormatError>)
        ensures
            r is Ok <==> (format_at(fmt.spec_bytes()) matches Some((_, e)) && e == fmt.spec_bytes().len()),
            r matches Ok(f) ==> format_at(fmt.spec_bytes()) == Some((f.ast(), fmt.spec_bytes().len() as int)),
            r matches Err(e) ==> e@ == "invalid format '"@ + fmt@ + "'"@,
    {
        let b = fmt.as_bytes();
        match Self::parse(b) {
            Some((f, e)) => {
                if e == b.len() {
                    return Ok(f);
                }
            },
            None => {},
        }
        let mut msg = String::new();
        push_str(&mut msg, "invalid format '");
        push_str(&mut msg, fmt);
        push_str(&mut msg, "'");
        assert(msg@ =~= "invalid format '"@ + fmt@ + "'"@);
        Err(ParseFormatError(msg))
    }

    /// Reads a format at the start of the bytes.
    fn parse(b: &[u8]) -> (r: Option<(Self, usize)>)
        ensures
            match format_at(b@) {
                Some((a, e)) => r matches Some((f, k)) && f.ast() == a && k == e,
                None => r is None,
            },
    {
        let (t, p1) = match parse_tag_matcher(b, 0) {
            Some(x) => x,
            None => return None,
        };
        let (o, p2) = parse_occurrence_matcher(b, p1);
        let p3 = skip_ws_at(b, p2);
        if !byte_is(b, p3, 0x7b) {
            return None;
        }
        let p4 = skip_ws_at(b, p3 + 1);
        let (n, p5) = match parse_fragments(b, p4) {
            Some(x) => x,
            None => return None,
        };
        let s0 = skip_ws_at(b, p5);
        let (sm, p6) = if byte_is(b, s0, 0x7c) {
            let s1 = skip_ws_at(b, s0 + 1);
            match parse_subfield_matcher_at(b, s1) {
                Some((m, e)) => (Some(m), e),
                None => (None, p5),
            }
        } else {
            (None, p5)
        };
        let c = skip_ws_at(b, p6);
        if !byte_is(b, c, 0x7d) {
            return None;
        }
        let raw = raw_text_of(b, 0, c + 1);
        let end = skip_ws_at(b, c + 1);
        Some((Format { tag_matcher: t, occurrence_matcher: o, subfield_matcher: sm, raw_format: raw, fragments: n }, end))
    }
}

} // verus!
