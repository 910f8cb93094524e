//! What the connectives of matchers mean.
use vstd::prelude::*;

use super::field::{self, FieldMatcher};
use super::subfield::{and_operand, composite, negation, xor_operand, SubfieldMatcher};
use super::tag::{
    allowed_digit, allowed_first, allowed_last, byte_range, fragment_at, fragment_item,
    fragment_items, pattern_views, tag_ast, tag_matcher_at, TagAst, TagMatcher,
};
use super::occurrence::OccurrenceMatcher;
use super::subfield::{
    relation_holds, CardinalityMatcher, CardinalitySpec, ExistsMatcher, RelationMatcher, RelationSpec,
};
use super::Quantifier;
use super::{BooleanOp, RelationalOp};
use crate::bytes::{contains_bytes, is_prefix, is_suffix, lex_le};
use crate::primitives::Occurrence;
use crate::text::lowercase_bytes;
use crate::parser::byte_at;
use crate::primitives::model::{is_tag, SpecField, SpecSubfield};

verus! {

/// Putting a matcher in a group changes nothing it says.
proof fn lemma_grouping(m: SubfieldMatcher, subfields: Seq<SpecSubfield>, case_ignore: bool, threshold: u32)
    ensures
        and_operand(m).spec_is_match(subfields, case_ignore, threshold) == m.spec_is_match(
            subfields,
            case_ignore,
            threshold,
        ),
        xor_operand(m).spec_is_match(subfields, case_ignore, threshold) == m.spec_is_match(
            subfields,
            case_ignore,
            threshold,
        ),
{
    let g = SubfieldMatcher::Group(Box::new(m));
    assert(g.spec_is_match(subfields, case_ignore, threshold) == m.spec_is_match(
        subfields,
        case_ignore,
        threshold,
    ));
}

/// A group says of the subfields what the matcher in it says.
pub proof fn law_subfield_group(m: SubfieldMatcher, subfields: Seq<SpecSubfield>, case_ignore: bool, threshold: u32)
    ensures
        SubfieldMatcher::Group(Box::new(m)).spec_is_match(subfields, case_ignore, threshold)
            == m.spec_is_match(subfields, case_ignore, threshold),
{
}

/// The negation of a matcher (`!m`) matches exactly where the matcher does
/// not.
pub proof fn law_subfield_not(m: SubfieldMatcher, subfields: Seq<SpecSubfield>, case_ignore: bool, threshold: u32)
    ensures
        negation(m).spec_is_match(subfields, case_ignore, threshold) == !m.spec_is_match(
            subfields,
            case_ignore,
            threshold,
        ),
{
    let g = SubfieldMatcher::Group(Box::new(m));
    assert(g.spec_is_match(subfields, case_ignore, threshold) == m.spec_is_match(
        subfields,
        case_ignore,
        threshold,
    ));
    assert(SubfieldMatcher::Not(Box::new(g)).spec_is_match(subfields, case_ignore, threshold)
        == !g.spec_is_match(subfields, case_ignore, threshold));
}

/// Two matchers joined by `&` match exactly where both do.
pub proof fn law_subfield_and(
    a: SubfieldMatcher,
    b: SubfieldMatcher,
    subfields: Seq<SpecSubfield>,
    case_ignore: bool,
    threshold: u32,
)
    ensures
        composite(and_operand(a), BooleanOp::And, and_operand(b)).spec_is_match(
            subfields,
            case_ignore,
            threshold,
        ) == (a.spec_is_match(subfields, case_ignore, threshold) && b.spec_is_match(
            subfields,
            case_ignore,
            threshold,
        )),
{
    lemma_grouping(a, subfields, case_ignore, threshold);
    lemma_grouping(b, subfields, case_ignore, threshold);
}

/// Two matchers joined by `|` match exactly where one of them does.
pub proof fn law_subfield_or(
    a: SubfieldMatcher,
    b: SubfieldMatcher,
    subfields: Seq<SpecSubfield>,
    case_ignore: bool,
    threshold: u32,
)
    ensures
        composite(a, BooleanOp::Or, b).spec_is_match(subfields, case_ignore, threshold) == (
        a.spec_is_match(subfields, case_ignore, threshold) || b.spec_is_match(
            subfields,
            case_ignore,
            threshold,
        )),
{
}

/// Two matchers joined by `^` match exactly where one of them does and the
/// other does not.
pub proof fn law_subfield_xor(
    a: SubfieldMatcher,
    b: SubfieldMatcher,
    subfields: Seq<SpecSubfield>,
    case_ignore: bool,
    threshold: u32,
)
    ensures
        composite(xor_operand(a), BooleanOp::Xor, xor_operand(b)).spec_is_match(
            subfields,
            case_ignore,
            threshold,
        ) == (a.spec_is_match(subfields, case_ignore, threshold) != b.spec_is_match(
            subfields,
            case_ignore,
            threshold,
        )),
{
    lemma_grouping(a, subfields, case_ignore, threshold);
    lemma_grouping(b, subfields, case_ignore, threshold);
}


/// Putting a field matcher in a group changes nothing it says.
proof fn lemma_field_grouping(m: FieldMatcher, fields: Seq<SpecField>, case_ignore: bool, threshold: u32)
    ensures
        field::and_operand(m).spec_is_match(fields, case_ignore, threshold) == m.spec_is_match(
            fields,
            case_ignore,
            threshold,
        ),
        field::xor_operand(m).spec_is_match(fields, case_ignore, threshold) == m.spec_is_match(
            fields,
            case_ignore,
            threshold,
        ),
{
    let g = FieldMatcher::Group(Box::new(m));
    assert(g.spec_is_match(fields, case_ignore, threshold) == m.spec_is_match(
        fields,
        case_ignore,
        threshold,
    ));
}

/// The negation of a field matcher (`!m`) matches exactly where the
/// matcher does not.
pub proof fn law_field_not(m: FieldMatcher, fields: Seq<SpecField>, case_ignore: bool, threshold: u32)
    ensures
        field::negation(m).spec_is_match(fields, case_ignore, threshold) == !m.spec_is_match(
            fields,
            case_ignore,
            threshold,
        ),
{
    let g = FieldMatcher::Group(Box::new(m));
    assert(g.spec_is_match(fields, case_ignore, threshold) == m.spec_is_match(
        fields,
        case_ignore,
        threshold,
    ));
    assert(FieldMatcher::Not(Box::new(g)).spec_is_match(fields, case_ignore, threshold)
        == !g.spec_is_match(fields, case_ignore, threshold));
}

/// Two field matchers joined by `&` match exactly where both do.
pub proof fn law_field_and(
    a: FieldMatcher,
    b: FieldMatcher,
    fields: Seq<SpecField>,
    case_ignore: bool,
    threshold: u32,
)
    ensures
        field::composite(field::and_operand(a), BooleanOp::And, field::and_operand(b)).spec_is_match(
            fields,
            case_ignore,
            threshold,
        ) == (a.spec_is_match(fields, case_ignore, threshold) && b.spec_is_match(
            fields,
            case_ignore,
            threshold,
        )),
{
    lemma_field_grouping(a, fields, case_ignore, threshold);
    lemma_field_grouping(b, fields, case_ignore, threshold);
}

/// Two field matchers joined by `|` match exactly where one of them does.
pub proof fn law_field_or(
    a: FieldMatcher,
    b: FieldMatcher,
    fields: Seq<SpecField>,
    case_ignore: bool,
    threshold: u32,
)
    ensures
        field::composite(a, BooleanOp::Or, b).spec_is_match(fields, case_ignore, threshold) == (
        a.spec_is_match(fields, case_ignore, threshold) || b.spec_is_match(
            fields,
            case_ignore,
            threshold,
        )),
{
}

/// Two field matchers joined by `^` match exactly where one of them does
/// and the other does not.
pub proof fn law_field_xor(
    a: FieldMatcher,
    b: FieldMatcher,
    fields: Seq<SpecField>,
    case_ignore: bool,
    threshold: u32,
)
    ensures
        field::composite(field::xor_operand(a), BooleanOp::Xor, field::xor_operand(b)).spec_is_match(
            fields,
            case_ignore,
            threshold,
        ) == (a.spec_is_match(fields, case_ignore, threshold) != b.spec_is_match(
            fields,
            case_ignore,
            threshold,
        )),
{
    lemma_field_grouping(a, fields, case_ignore, threshold);
    lemma_field_grouping(b, fields, case_ignore, threshold);
}

/// The bytes in `allowed` are those from `lo` to `hi`.
spec fn is_interval(allowed: Seq<u8>, lo: u8, hi: u8) -> bool {
    forall|c: u8| #[trigger] allowed.contains(c) <==> lo <= c <= hi
}

/// The bytes of a range are those from its first to its last.
proof fn lemma_byte_range(lo: u8, hi: u8)
    requires
        lo <= hi,
    ensures
        is_interval(byte_range(lo, hi), lo, hi),
{
    let r = byte_range(lo, hi);
    assert forall|c: u8| #[trigger] r.contains(c) <==> lo <= c <= hi by {
        if lo <= c <= hi {
            assert(r[c - lo] == c);
        }
    }
}

/// The bytes allowed at each position of a tag form an interval.
proof fn lemma_allowed_intervals()
    ensures
        is_interval(allowed_first(), 0x30, 0x32),
        is_interval(allowed_digit(), 0x30, 0x39),
        is_interval(allowed_last(), 0x40, 0x5a),
{
    lemma_byte_range(0x30, 0x39);
    lemma_byte_range(0x41, 0x5a);
    let f = allowed_first();
    assert forall|c: u8| #[trigger] f.contains(c) <==> 0x30 <= c <= 0x32 by {
        if 0x30 <= c <= 0x32 {
            assert(f[c - 0x30] == c);
        }
    }
    let l = allowed_last();
    assert forall|c: u8| #[trigger] l.contains(c) <==> 0x40 <= c <= 0x5a by {
        if l.contains(c) {
            let k = choose|k: int| 0 <= k < l.len() && l[k] == c;
            if k < 26 {
                assert(byte_range(0x41, 0x5a).contains(c));
            }
        }
        if 0x41 <= c <= 0x5a {
            assert(byte_range(0x41, 0x5a).contains(c));
            let k = choose|k: int| 0 <= k < 26 && byte_range(0x41, 0x5a)[k] == c;
            assert(l[k] == c);
        }
        if c == 0x40 {
            assert(l[26] == c);
        }
    }
}

/// The bytes a fragment item reads lie in the interval of allowed bytes.
proof fn lemma_fragment_item_within(b: Seq<u8>, i: int, allowed: Seq<u8>, lo: u8, hi: u8)
    requires
        is_interval(allowed, lo, hi),
        fragment_item(b, i, allowed) is Some,
    ensures
        forall|c: u8| #[trigger] fragment_item(b, i, allowed).unwrap().0.contains(c) ==> lo <= c <= hi,
{
    if 0 <= i && i + 2 < b.len() && allowed.contains(b[i]) && b[i + 1] == 0x2d && allowed.contains(
        b[i + 2],
    ) && b[i] < b[i + 2] {
        lemma_byte_range(b[i], b[i + 2]);
    } else {
        assert(allowed.contains(b[i]));
    }
}

/// The bytes the items of a fragment list read lie in the interval of
/// allowed bytes.
proof fn lemma_fragment_items_within(b: Seq<u8>, i: int, allowed: Seq<u8>, lo: u8, hi: u8)
    requires
        is_interval(allowed, lo, hi),
    ensures
        forall|c: u8| #[trigger] fragment_items(b, i, allowed).0.contains(c) ==> lo <= c <= hi,
    decreases b.len() - i,
{
    match fragment_item(b, i, allowed) {
        Some((s, j)) => if j > i {
            lemma_fragment_item_within(b, i, allowed, lo, hi);
            lemma_fragment_items_within(b, j, allowed, lo, hi);
            let rest = fragment_items(b, j, allowed).0;
            assert forall|c: u8| #[trigger] (s + rest).contains(c) implies lo <= c <= hi by {
                let k = choose|k: int| 0 <= k < (s + rest).len() && (s + rest)[k] == c;
                if k < s.len() {
                    assert(s[k] == c);
                    assert(s.contains(c));
                } else {
                    assert(rest[k - s.len()] == c);
                    assert(rest.contains(c));
                }
            }
        },
        None => {},
    }
}

/// The bytes a fragment allows lie in the interval of allowed bytes.
proof fn lemma_fragment_within(b: Seq<u8>, i: int, allowed: Seq<u8>, lo: u8, hi: u8)
    requires
        is_interval(allowed, lo, hi),
        fragment_at(b, i, allowed) is Some,
    ensures
        forall|c: u8| #[trigger] fragment_at(b, i, allowed).unwrap().0.contains(c) ==> lo <= c <= hi,
{
    if 0 <= i < b.len() && allowed.contains(b[i]) {
    } else if byte_at(b, i, 0x2e) {
    } else {
        let (first, j) = fragment_item(b, i + 1, allowed).unwrap();
        lemma_fragment_item_within(b, i + 1, allowed, lo, hi);
        lemma_fragment_items_within(b, j, allowed, lo, hi);
        let rest = fragment_items(b, j, allowed).0;
        assert forall|c: u8| #[trigger] (first + rest).contains(c) implies lo <= c <= hi by {
            let k = choose|k: int| 0 <= k < (first + rest).len() && (first + rest)[k] == c;
            if k < first.len() {
                assert(first[k] == c);
                assert(first.contains(c));
            } else {
                assert(rest[k - first.len()] == c);
                assert(rest.contains(c));
            }
        }
    }
}

/// A tag matcher made of a tag accepts that tag and no other; one made of
/// a pattern accepts exactly the tags whose byte at each position is one
/// the pattern allows there.
pub proof fn law_tag_matcher(m: TagMatcher, tag: Seq<u8>)
    ensures
        m matches TagMatcher::Tag(t) ==> (m.spec_is_match(tag) <==> tag == t@),
        m matches TagMatcher::Pattern(p, _) ==> (m.spec_is_match(tag) <==> forall|k: int|
            0 <= k < 4 ==> #[trigger] pattern_views(p)[k].contains(tag[k])),
{
}

/// The text of a tag reads as the matcher of exactly that tag.
pub proof fn law_tag_text_reads_as_tag(t: Seq<u8>)
    requires
        is_tag(t),
    ensures
        tag_matcher_at(t, 0) == Some((TagAst::Tag(t), 4int)),
{
    assert(t.subrange(0, 4) =~= t);
}

/// A tag matcher read from text accepts only tags: a pattern allows at
/// each position only bytes that a tag may have there.
pub proof fn law_tag_matcher_accepts_only_tags(b: Seq<u8>, i: int, m: TagMatcher, e: int, tag: Seq<u8>)
    requires
        tag_matcher_at(b, i) == Some((tag_ast(m), e)),
        tag.len() == 4,
        m.spec_is_match(tag),
    ensures
        is_tag(tag),
{
    lemma_allowed_intervals();
    if 0 <= i && i + 4 <= b.len() && is_tag(b.subrange(i, i + 4)) {
        assert(m is Tag);
    } else {
        let (p0, e0) = fragment_at(b, i, allowed_first()).unwrap();
        let (p1, e1) = fragment_at(b, e0, allowed_digit()).unwrap();
        let (p2, e2) = fragment_at(b, e1, allowed_digit()).unwrap();
        let (p3, e3) = fragment_at(b, e2, allowed_last()).unwrap();
        lemma_fragment_within(b, i, allowed_first(), 0x30, 0x32);
        lemma_fragment_within(b, e0, allowed_digit(), 0x30, 0x39);
        lemma_fragment_within(b, e1, allowed_digit(), 0x30, 0x39);
        lemma_fragment_within(b, e2, allowed_last(), 0x40, 0x5a);
        let p = match m {
            TagMatcher::Pattern(p, _) => pattern_views(p),
            TagMatcher::Tag(_) => seq![p0, p1, p2, p3],
        };
        assert(p =~= seq![p0, p1, p2, p3]);
        assert(p[0].contains(tag[0]));
        assert(p[1].contains(tag[1]));
        assert(p[2].contains(tag[2]));
        assert(p[3].contains(tag[3]));
    }
}

/// A subfield cardinality matcher compares the number of subfields with
/// its code to its value by its operator: `==`, `!=`, `>=`, `>`, `<=` and
/// `<` as on integers, and no other operator ever holds.
pub proof fn law_subfield_cardinality(m: CardinalitySpec, subfields: Seq<SpecSubfield>)
    ensures
        ({
            let n = subfields.filter(|s: SpecSubfield| s.code == m.code).len() as int;
            let v = m.value as int;
            let holds = CardinalityMatcher::spec_is_match(m, subfields);
            &&& m.op is Eq ==> (holds <==> n == v)
            &&& m.op is Ne ==> (holds <==> n != v)
            &&& m.op is Ge ==> (holds <==> n >= v)
            &&& m.op is Gt ==> (holds <==> n > v)
            &&& m.op is Le ==> (holds <==> n <= v)
            &&& m.op is Lt ==> (holds <==> n < v)
            &&& !(m.op is Eq || m.op is Ne || m.op is Ge || m.op is Gt || m.op is Le || m.op is Lt) ==> !holds
        }),
{
}

/// A field cardinality matcher compares the number of fields it counts to
/// its value by its operator: `==`, `!=`, `>=`, `>`, `<=` and `<` as on
/// integers, and no other operator ever holds.
pub proof fn law_field_cardinality(
    m: field::CardinalitySpec,
    fields: Seq<SpecField>,
    case_ignore: bool,
    threshold: u32,
)
    ensures
        ({
            let n = fields.filter(|f: SpecField| field::field_counts(m, f, case_ignore, threshold)).len() as int;
            let v = m.value as int;
            let holds = field::CardinalityMatcher::spec_is_match(m, fields, case_ignore, threshold);
            &&& m.op is Eq ==> (holds <==> n == v)
            &&& m.op is Ne ==> (holds <==> n != v)
            &&& m.op is Ge ==> (holds <==> n >= v)
            &&& m.op is Gt ==> (holds <==> n > v)
            &&& m.op is Le ==> (holds <==> n <= v)
            &&& m.op is Lt ==> (holds <==> n < v)
            &&& !(m.op is Eq || m.op is Ne || m.op is Ge || m.op is Gt || m.op is Le || m.op is Lt) ==> !holds
        }),
{
}

/// A range of occurrences accepts an occurrence exactly when it lies
/// between the two bounds, both included, in the order of byte strings:
/// one below the first bound or above the last is refused.
pub proof fn law_occurrence_range(min: Occurrence, max: Occurrence, occ: Seq<u8>)
    ensures
        OccurrenceMatcher::Range(min, max).spec_is_match(Some(occ)) <==> (lex_le(min@, occ) && lex_le(
            occ,
            max@,
        )),
        !lex_le(occ, max@) ==> !OccurrenceMatcher::Range(min, max).spec_is_match(Some(occ)),
        !lex_le(min@, occ) ==> !OccurrenceMatcher::Range(min, max).spec_is_match(Some(occ)),
        !OccurrenceMatcher::Range(min, max).spec_is_match(None),
{
}

/// Each relation on strings: equality, starts with, ends with, contains
/// and their negations. Where case is ignored it holds exactly when it
/// holds of the two strings in lower case; otherwise of the strings as
/// they are.
pub proof fn law_relation_case(rhs: Seq<u8>, value: Seq<u8>, case_ignore: bool, threshold: u32)
    ensures
        ({
            let (r, v) = if case_ignore {
                (lowercase_bytes(rhs), lowercase_bytes(value))
            } else {
                (rhs, value)
            };
            &&& relation_holds(RelationalOp::Eq, rhs, value, case_ignore, threshold) <==> v == r
            &&& relation_holds(RelationalOp::Ne, rhs, value, case_ignore, threshold) <==> v != r
            &&& relation_holds(RelationalOp::StartsWith, rhs, value, case_ignore, threshold)
                <==> is_prefix(r, v)
            &&& relation_holds(RelationalOp::StartsNotWith, rhs, value, case_ignore, threshold)
                <==> !is_prefix(r, v)
            &&& relation_holds(RelationalOp::EndsWith, rhs, value, case_ignore, threshold)
                <==> is_suffix(r, v)
            &&& relation_holds(RelationalOp::EndsNotWith, rhs, value, case_ignore, threshold)
                <==> !is_suffix(r, v)
            &&& relation_holds(RelationalOp::Contains, rhs, value, case_ignore, threshold)
                <==> contains_bytes(v, r)
        }),
{
}

/// Where case is ignored, a relation on strings other than similarity
/// holds of a value exactly when it holds of any value with the same lower
/// case, against any matcher value with the same lower case.
pub proof fn law_relation_ignores_case(
    op: RelationalOp,
    rhs1: Seq<u8>,
    rhs2: Seq<u8>,
    value1: Seq<u8>,
    value2: Seq<u8>,
    threshold: u32,
)
    requires
        !(op is Similar),
        lowercase_bytes(rhs1) == lowercase_bytes(rhs2),
        lowercase_bytes(value1) == lowercase_bytes(value2),
    ensures
        relation_holds(op, rhs1, value1, true, threshold) == relation_holds(op, rhs2, value2, true, threshold),
{
}

/// What each occurrence matcher accepts: `/*` every occurrence and none,
/// no matcher none and `00`, a single occurrence only itself, a range
/// what lies between its bounds.
pub proof fn law_occurrence_matcher(m: OccurrenceMatcher, occ: Option<Seq<u8>>)
    ensures
        occ is None ==> (m.spec_is_match(occ) <==> (m is Any || m is Absent)),
        m is Any ==> m.spec_is_match(occ),
        occ matches Some(o) ==> match m {
            OccurrenceMatcher::Any => m.spec_is_match(occ),
            OccurrenceMatcher::Absent => m.spec_is_match(occ) <==> o == seq![0x30u8, 0x30u8],
            OccurrenceMatcher::Exact(x) => m.spec_is_match(occ) <==> o == x@,
            OccurrenceMatcher::Range(a, b) => m.spec_is_match(occ) <==> (lex_le(a@, o) && lex_le(o, b@)),
        },
{
}

/// An exists matcher holds exactly when a subfield has one of its codes.
pub proof fn law_subfield_exists(codes: Seq<u8>, subfields: Seq<SpecSubfield>)
    ensures
        ExistsMatcher::spec_is_match(codes, subfields) <==> exists|i: int|
            0 <= i < subfields.len() && codes.contains(#[trigger] subfields[i].code),
{
}

/// A relation matcher with `ANY` holds exactly when some subfield with one
/// of its codes stands in the relation; with `ALL` exactly when there is
/// such a subfield and every subfield with one of its codes stands in it.
pub proof fn law_relation_quantifier(m: RelationSpec, subfields: Seq<SpecSubfield>, case_ignore: bool, threshold: u32)
    ensures
        m.quantifier is Any ==> (RelationMatcher::spec_is_match(m, subfields, case_ignore, threshold)
            <==> exists|i: int|
            0 <= i < subfields.len() && m.codes.contains(#[trigger] subfields[i].code) && relation_holds(
                m.op,
                m.value,
                subfields[i].value,
                case_ignore,
                threshold,
            )),
        m.quantifier is All ==> (RelationMatcher::spec_is_match(m, subfields, case_ignore, threshold)
            <==> (exists|i: int| 0 <= i < subfields.len() && m.codes.contains(#[trigger] subfields[i].code))
            && forall|i: int|
            0 <= i < subfields.len() && m.codes.contains(#[trigger] subfields[i].code) ==> relation_holds(
                m.op,
                m.value,
                subfields[i].value,
                case_ignore,
                threshold,
            )),
{
}

/// A subfield without one of a relation matcher's codes changes nothing
/// of what the matcher says.
pub proof fn law_relation_ignores_other_codes(
    m: RelationSpec,
    subfields: Seq<SpecSubfield>,
    s: SpecSubfield,
    case_ignore: bool,
    threshold: u32,
)
    requires
        !m.codes.contains(s.code),
    ensures
        RelationMatcher::spec_is_match(m, subfields.push(s), case_ignore, threshold)
            == RelationMatcher::spec_is_match(m, subfields, case_ignore, threshold),
{
    let t = subfields.push(s);
    assert forall|i: int| 0 <= i < subfields.len() implies #[trigger] t[i] == subfields[i] by {}
    assert(t[subfields.len() as int] == s);
    law_relation_quantifier(m, subfields, case_ignore, threshold);
    law_relation_quantifier(m, t, case_ignore, threshold);
    if m.quantifier is Any {
        if RelationMatcher::spec_is_match(m, t, case_ignore, threshold) {
            let i = choose|i: int|
                0 <= i < t.len() && m.codes.contains(#[trigger] t[i].code) && relation_holds(
                    m.op,
                    m.value,
                    t[i].value,
                    case_ignore,
                    threshold,
                );
            assert(i < subfields.len());
            assert(subfields[i] == t[i]);
        }
        if RelationMatcher::spec_is_match(m, subfields, case_ignore, threshold) {
            let i = choose|i: int|
                0 <= i < subfields.len() && m.codes.contains(#[trigger] subfields[i].code) && relation_holds(
                    m.op,
                    m.value,
                    subfields[i].value,
                    case_ignore,
                    threshold,
                );
            assert(t[i] == subfields[i]);
        }
    } else {
        if exists|i: int| 0 <= i < t.len() && m.codes.contains(#[trigger] t[i].code) {
            let i = choose|i: int| 0 <= i < t.len() && m.codes.contains(#[trigger] t[i].code);
            assert(i < subfields.len());
            assert(subfields[i] == t[i]);
        }
        if exists|i: int| 0 <= i < subfields.len() && m.codes.contains(#[trigger] subfields[i].code) {
            let i = choose|i: int| 0 <= i < subfields.len() && m.codes.contains(#[trigger] subfields[i].code);
            assert(t[i] == subfields[i]);
        }
        let all_t = forall|i: int|
            0 <= i < t.len() && m.codes.contains(#[trigger] t[i].code) ==> relation_holds(
                m.op,
                m.value,
                t[i].value,
                case_ignore,
                threshold,
            );
        let all_s = forall|i: int|
            0 <= i < subfields.len() && m.codes.contains(#[trigger] subfields[i].code) ==> relation_holds(
                m.op,
                m.value,
                subfields[i].value,
                case_ignore,
                threshold,
            );
        if all_t {
            assert forall|i: int| 0 <= i < subfields.len() && m.codes.contains(#[trigger] subfields[i].code)
                implies relation_holds(m.op, m.value, subfields[i].value, case_ignore, threshold) by {
                assert(t[i] == subfields[i]);
            }
        }
        if all_s {
            assert forall|i: int| 0 <= i < t.len() && m.codes.contains(#[trigger] t[i].code)
                implies relation_holds(m.op, m.value, t[i].value, case_ignore, threshold) by {
                assert(i < subfields.len());
                assert(subfields[i] == t[i]);
            }
        }
    }
}

} // verus!
