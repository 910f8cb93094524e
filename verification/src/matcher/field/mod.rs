//! Matchers that can be applied on a list of fields.
use vstd::prelude::*;

use super::operator::{apply_boolean_op, usize_applicable};
use super::subfield::{self as sub, boolean_op_str, boolean_op_text, SubfieldMatcher};
use super::{BooleanOp, MatcherOptions, OccurrenceMatcher, Quantifier, RelationalOp, TagMatcher};
use crate::primitives::field::field_views;
use crate::primitives::model::SpecField;
use crate::primitives::FieldRef;
use super::occurrence::occurrence_matcher_text;
use super::tag::tag_matcher_text;
use crate::text::{push_char, push_str};

pub mod parser;

verus! {

/// The field's tag and occurrence match.
pub open spec fn field_selected(tm: TagMatcher, om: OccurrenceMatcher, f: SpecField) -> bool {
    tm.spec_is_match(f.tag) && om.spec_is_match(f.occurrence)
}

/// Tells whether the field's tag and occurrence match.
fn is_selected(tm: &TagMatcher, om: &OccurrenceMatcher, field: &FieldRef<'_>) -> (r: bool)
    ensures
        r == field_selected(*tm, *om, field@),
{
    tm.is_match(field.tag()) && om.is_match(field.occurrence())
}

/// The parts of an exists matcher.
pub struct ExistsSpec {
    pub tag_matcher: TagMatcher,
    pub occ_matcher: OccurrenceMatcher,
}

/// A matcher that checks for the existence of a field.
#[derive(Debug, Clone, PartialEq)]
pub struct ExistsMatcher {
    pub(crate) tag_matcher: TagMatcher,
    pub(crate) occ_matcher: OccurrenceMatcher,
}

impl View for ExistsMatcher {
    type V = ExistsSpec;

    closed spec fn view(&self) -> ExistsSpec {
        ExistsSpec { tag_matcher: self.tag_matcher, occ_matcher: self.occ_matcher }
    }
}

impl ExistsMatcher {
    /// An exists matcher with the given parts.
    pub(crate) fn from_parts(tag_matcher: TagMatcher, occ_matcher: OccurrenceMatcher) -> (r: Self)
        ensures
            r@ == (ExistsSpec { tag_matcher, occ_matcher }),
    {
        ExistsMatcher { tag_matcher, occ_matcher }
    }

    /// One of the fields has a matching tag and occurrence.
    pub open spec fn spec_is_match(m: ExistsSpec, fields: Seq<SpecField>) -> bool {
        exists|i: int|
            0 <= i < fields.len() && field_selected(m.tag_matcher, m.occ_matcher, #[trigger] fields[i])
    }

    /// Returns true if one of the fields has a matching tag and occurrence.
    pub fn is_match(&self, fields: &[FieldRef<'_>], _options: &MatcherOptions) -> (r: bool)
        ensures
            r == Self::spec_is_match(self@, field_views(fields@)),
    {
        let ghost fs = field_views(fields@);
        let mut i: usize = 0;
        while i < fields.len()
            invariant
                0 <= i <= fields@.len(),
                fs == field_views(fields@),
                forall|j: int| 0 <= j < i ==> !field_selected(self@.tag_matcher, self@.occ_matcher, #[trigger] fs[j]),
            decreases fields@.len() - i,
        {
            assert(fs[i as int] == fields@[i as int]@);
            if is_selected(&self.tag_matcher, &self.occ_matcher, &fields[i]) {
                return true;
            }
            i = i + 1;
        }
        false
    }

    /// The text of the matcher: tag matcher, occurrence matcher, `?`.
    pub open spec fn text(m: ExistsSpec) -> Seq<char> {
        tag_matcher_text(m.tag_matcher) + occurrence_matcher_text(m.occ_matcher) + seq!['?']
    }

    /// The matcher as a human-readable string.
    pub fn to_string(&self) -> (r: String)
        ensures
            r@ == Self::text(self@),
    {
        let mut out = self.tag_matcher.to_string();
        let occ = self.occ_matcher.to_string();
        push_str(&mut out, occ.as_str());
        push_char(&mut out, '?');
        out
    }
}

/// The parts of a subfields matcher.
pub struct SubfieldsSpec {
    pub quantifier: Quantifier,
    pub tag_matcher: TagMatcher,
    pub occurrence_matcher: OccurrenceMatcher,
    pub subfield_matcher: SubfieldMatcher,
}

/// A matcher that applies a subfield matcher to the fields with a matching
/// tag and occurrence.
#[derive(Debug, PartialEq)]
pub struct SubfieldsMatcher {
    pub(crate) quantifier: Quantifier,
    pub(crate) tag_matcher: TagMatcher,
    pub(crate) occurrence_matcher: OccurrenceMatcher,
    pub(crate) subfield_matcher: SubfieldMatcher,
    pub(crate) raw_data: String,
}

impl View for SubfieldsMatcher {
    type V = SubfieldsSpec;

    closed spec fn view(&self) -> SubfieldsSpec {
        SubfieldsSpec {
            quantifier: self.quantifier,
            tag_matcher: self.tag_matcher,
            occurrence_matcher: self.occurrence_matcher,
            subfield_matcher: self.subfield_matcher,
        }
    }
}

impl SubfieldsMatcher {
    /// A subfields matcher with the given parts and text.
    pub(crate) fn from_parts(
        quantifier: Quantifier,
        tag_matcher: TagMatcher,
        occurrence_matcher: OccurrenceMatcher,
        subfield_matcher: SubfieldMatcher,
        raw_data: String,
    ) -> (r: Self)
        ensures
            r@ == (SubfieldsSpec { quantifier, tag_matcher, occurrence_matcher, subfield_matcher }),
            r.raw_text() == raw_data@,
    {
        SubfieldsMatcher { quantifier, tag_matcher, occurrence_matcher, subfield_matcher, raw_data }
    }

    /// The subfield matcher matches the subfields of all (`ALL`) or one
    /// (`ANY`) of the fields with a matching tag and occurrence.
    pub open spec fn spec_is_match(m: SubfieldsSpec, fields: Seq<SpecField>, case_ignore: bool, threshold: u32) -> bool {
        match m.quantifier {
            Quantifier::All => forall|i: int|
                0 <= i < fields.len() && field_selected(m.tag_matcher, m.occurrence_matcher, #[trigger] fields[i])
                    ==> m.subfield_matcher.spec_is_match(fields[i].subfields, case_ignore, threshold),
            Quantifier::Any => exists|i: int|
                0 <= i < fields.len() && field_selected(m.tag_matcher, m.occurrence_matcher, #[trigger] fields[i])
                    && m.subfield_matcher.spec_is_match(fields[i].subfields, case_ignore, threshold),
        }
    }

    /// Returns true if the subfield matcher matches the subfields of all
    /// (`ALL`) or one (`ANY`) of the fields with a matching tag and
    /// occurrence.
    pub fn is_match(&self, fields: &[FieldRef<'_>], options: &MatcherOptions) -> (r: bool)
        ensures
            r == Self::spec_is_match(
                self@,
                field_views(fields@),
                options.spec_case_ignore(),
                options.spec_strsim_threshold(),
            ),
    {
        let ghost fs = field_views(fields@);
        let ghost m = self@;
        let ghost ci = options.spec_case_ignore();
        let ghost t = options.spec_strsim_threshold();
        let mut i: usize = 0;
        while i < fields.len()
            invariant
                0 <= i <= fields@.len(),
                fs == field_views(fields@),
                m == self@,
                ci == options.spec_case_ignore(),
                t == options.spec_strsim_threshold(),
                m.quantifier is All ==> forall|j: int|
                    0 <= j < i && field_selected(m.tag_matcher, m.occurrence_matcher, #[trigger] fs[j])
                        ==> m.subfield_matcher.spec_is_match(fs[j].subfields, ci, t),
                m.quantifier is Any ==> forall|j: int|
                    0 <= j < i && field_selected(m.tag_matcher, m.occurrence_matcher, #[trigger] fs[j])
                        ==> !m.subfield_matcher.spec_is_match(fs[j].subfields, ci, t),
            decreases fields@.len() - i,
        {
            assert(fs[i as int] == fields@[i as int]@);
            if is_selected(&self.tag_matcher, &self.occurrence_matcher, &fields[i]) {
                let b = self.subfield_matcher.is_match(fields[i].subfields(), options);
                match self.quantifier {
                    Quantifier::All => {
                        if !b {
                            return false;
                        }
                    },
                    Quantifier::Any => {
                        if b {
                            return true;
                        }
                    },
                }
            }
            i = i + 1;
        }
        match self.quantifier {
            Quantifier::All => true,
            Quantifier::Any => false,
        }
    }

    /// The text the matcher was read from.
    pub closed spec fn raw_text(&self) -> Seq<char> {
        self.raw_data@
    }

    /// The matcher as it was written.
    pub fn to_string(&self) -> (r: String)
        ensures
            r@ == self.raw_text(),
    {
        self.raw_data.clone()
    }
}

/// A field matcher that is not built from others.
#[derive(Debug, PartialEq)]
pub enum SingletonMatcher {
    Subfields(SubfieldsMatcher),
    Exists(ExistsMatcher),
}

impl SingletonMatcher {
    /// What the matcher says of the fields.
    pub open spec fn spec_is_match(&self, fields: Seq<SpecField>, case_ignore: bool, threshold: u32) -> bool {
        match self {
            SingletonMatcher::Subfields(m) => SubfieldsMatcher::spec_is_match(
                m@,
                fields,
                case_ignore,
                threshold,
            ),
            SingletonMatcher::Exists(m) => ExistsMatcher::spec_is_match(m@, fields),
        }
    }

    /// Applies the matcher to the fields.
    pub fn is_match(&self, fields: &[FieldRef<'_>], options: &MatcherOptions) -> (r: bool)
        ensures
            r == self.spec_is_match(
                field_views(fields@),
                options.spec_case_ignore(),
                options.spec_strsim_threshold(),
            ),
    {
        match self {
            SingletonMatcher::Subfields(m) => m.is_match(fields, options),
            SingletonMatcher::Exists(m) => m.is_match(fields, options),
        }
    }

    /// The text of the matcher.
    pub open spec fn text(&self) -> Seq<char> {
        match self {
            SingletonMatcher::Subfields(m) => m.raw_text(),
            SingletonMatcher::Exists(m) => ExistsMatcher::text(m@),
        }
    }

    /// The matcher as a human-readable string.
    pub fn to_string(&self) -> (r: String)
        ensures
            r@ == self.text(),
    {
        match self {
            SingletonMatcher::Subfields(m) => m.to_string(),
            SingletonMatcher::Exists(m) => m.to_string(),
        }
    }
}

/// The parts of a cardinality matcher.
pub struct CardinalitySpec {
    pub tag_matcher: TagMatcher,
    pub occ_matcher: OccurrenceMatcher,
    pub subfield_matcher: Option<SubfieldMatcher>,
    pub op: RelationalOp,
    pub value: usize,
}

/// A field counts: its tag and occurrence match, and so do its subfields
/// where there is a subfield matcher.
pub open spec fn field_counts(m: CardinalitySpec, f: SpecField, case_ignore: bool, threshold: u32) -> bool {
    field_selected(m.tag_matcher, m.occ_matcher, f) && match m.subfield_matcher {
        Some(sm) => sm.spec_is_match(f.subfields, case_ignore, threshold),
        None => true,
    }
}

/// A matcher that checks the number of matching fields.
#[derive(Debug, PartialEq)]
pub struct CardinalityMatcher {
    pub(crate) tag_matcher: TagMatcher,
    pub(crate) occ_matcher: OccurrenceMatcher,
    pub(crate) subfield_matcher: Option<SubfieldMatcher>,
    pub(crate) op: RelationalOp,
    pub(crate) value: usize,
    pub(crate) raw_data: String,
}

impl View for CardinalityMatcher {
    type V = CardinalitySpec;

    closed spec fn view(&self) -> CardinalitySpec {
        CardinalitySpec {
            tag_matcher: self.tag_matcher,
            occ_matcher: self.occ_matcher,
            subfield_matcher: self.subfield_matcher,
            op: self.op,
            value: self.value,
        }
    }
}

impl CardinalityMatcher {
    /// A cardinality matcher with the given parts and text.
    pub(crate) fn from_parts(
        tag_matcher: TagMatcher,
        occ_matcher: OccurrenceMatcher,
        subfield_matcher: Option<SubfieldMatcher>,
        op: RelationalOp,
        value: usize,
        raw_data: String,
    ) -> (r: Self)
        requires
            usize_applicable(op),
        ensures
            r@ == (CardinalitySpec { tag_matcher, occ_matcher, subfield_matcher, op, value }),
            r.raw_text() == raw_data@,
    {
        CardinalityMatcher { tag_matcher, occ_matcher, subfield_matcher, op, value, raw_data }
    }

    #[verifier::type_invariant]
    spec fn op_applies(self) -> bool {
        usize_applicable(self.op)
    }

    /// The number of fields that count stands in the relation to the
    /// matcher's value.
    pub open spec fn spec_is_match(m: CardinalitySpec, fields: Seq<SpecField>, case_ignore: bool, threshold: u32) -> bool {
        sub::count_holds(
            m.op,
            fields.filter(|f: SpecField| field_counts(m, f, case_ignore, threshold)).len() as int,
            m.value as int,
        )
    }

    /// Tells whether the field counts.
    fn counts(&self, field: &FieldRef<'_>, options: &MatcherOptions) -> (r: bool)
        ensures
            r == field_counts(self@, field@, options.spec_case_ignore(), options.spec_strsim_threshold()),
    {
        if !is_selected(&self.tag_matcher, &self.occ_matcher, field) {
            return false;
        }
        match &self.subfield_matcher {
            Some(m) => m.is_match(field.subfields(), options),
            None => true,
        }
    }

    /// Returns true if the number of fields that count stands in the
    /// relation to the matcher's value.
    pub fn is_match(&self, fields: &[FieldRef<'_>], options: &MatcherOptions) -> (r: bool)
        ensures
            r == Self::spec_is_match(
                self@,
                field_views(fields@),
                options.spec_case_ignore(),
                options.spec_strsim_threshold(),
            ),
    {
        proof {
            use_type_invariant(self);
        }
        let ghost fs = field_views(fields@);
        let ghost pred = |f: SpecField|
            field_counts(self@, f, options.spec_case_ignore(), options.spec_strsim_threshold());
        let mut count: usize = 0;
        let mut i: usize = 0;
        while i < fields.len()
            invariant
                0 <= i <= fields@.len(),
                fs == field_views(fields@),
                pred == (|f: SpecField|
                    field_counts(self@, f, options.spec_case_ignore(), options.spec_strsim_threshold())),
                count == fs.take(i as int).filter(pred).len(),
                count <= i,
            decreases fields@.len() - i,
        {
            proof {
                reveal(Seq::filter);
                assert(fs.take(i + 1).drop_last() =~= fs.take(i as int));
                assert(fs.take(i + 1).last() == fields@[i as int]@);
            }
            if self.counts(&fields[i], options) {
                count = count + 1;
            }
            i = i + 1;
        }
        assert(fs.take(i as int) =~= fs);
        match self.op {
            RelationalOp::Eq => count == self.value,
            RelationalOp::Ne => count != self.value,
            RelationalOp::Ge => count >= self.value,
            RelationalOp::Gt => count > self.value,
            RelationalOp::Le => count <= self.value,
            RelationalOp::Lt => count < self.value,
            _ => false,
        }
    }

    /// The text the matcher was read from.
    pub closed spec fn raw_text(&self) -> Seq<char> {
        self.raw_data@
    }

    /// The matcher as it was written.
    pub fn to_string(&self) -> (r: String)
        ensures
            r@ == self.raw_text(),
    {
        self.raw_data.clone()
    }
}


/// A matcher on a list of fields: a singleton or cardinality matcher, a
/// group, a negation, or two matchers joined by a boolean connective.
#[derive(Debug, PartialEq)]
pub enum FieldMatcher {
    Singleton(SingletonMatcher),
    Cardinality(CardinalityMatcher),
    Group(Box<FieldMatcher>),
    Not(Box<FieldMatcher>),
    Composite { lhs: Box<FieldMatcher>, op: BooleanOp, rhs: Box<FieldMatcher> },
}

/// An operand of `&`: a composite matcher joined by `||` or `^` is put in
/// a group.
pub open spec fn and_operand(m: FieldMatcher) -> FieldMatcher {
    if m is Composite && !(m->op is And) {
        FieldMatcher::Group(Box::new(m))
    } else {
        m
    }
}

/// An operand of `^`: a composite matcher joined by `||` is put in a group.
pub open spec fn xor_operand(m: FieldMatcher) -> FieldMatcher {
    if m is Composite && m->op is Or {
        FieldMatcher::Group(Box::new(m))
    } else {
        m
    }
}

/// The matcher tests the existence of subfields (as in `012A.a?`).
pub open spec fn is_subfield_exists(m: FieldMatcher) -> bool {
    &&& m is Singleton
    &&& m->Singleton_0 is Subfields
    &&& m->Singleton_0->Subfields_0@.subfield_matcher is Singleton
    &&& m->Singleton_0->Subfields_0@.subfield_matcher->Singleton_0 is Exists
}

/// The negation of a matcher: a subfield existence test, a group or a
/// negation is negated as it is, any other matcher is put in a group
/// first.
pub open spec fn negation(m: FieldMatcher) -> FieldMatcher {
    if m is Group || m is Not || is_subfield_exists(m) {
        FieldMatcher::Not(Box::new(m))
    } else {
        FieldMatcher::Not(Box::new(FieldMatcher::Group(Box::new(m))))
    }
}

/// Two matchers joined by a connective.
pub open spec fn composite(lhs: FieldMatcher, op: BooleanOp, rhs: FieldMatcher) -> FieldMatcher {
    FieldMatcher::Composite { lhs: Box::new(lhs), op, rhs: Box::new(rhs) }
}

impl FieldMatcher {
    /// What the matcher says of the fields: a group as its content, a
    /// negation the opposite, a composite matcher the connective of both
    /// sides.
    pub open spec fn spec_is_match(&self, fields: Seq<SpecField>, case_ignore: bool, threshold: u32) -> bool
        decreases self,
    {
        match self {
            FieldMatcher::Singleton(m) => m.spec_is_match(fields, case_ignore, threshold),
            FieldMatcher::Cardinality(m) => CardinalityMatcher::spec_is_match(
                m@,
                fields,
                case_ignore,
                threshold,
            ),
            FieldMatcher::Group(m) => m.spec_is_match(fields, case_ignore, threshold),
            FieldMatcher::Not(m) => !m.spec_is_match(fields, case_ignore, threshold),
            FieldMatcher::Composite { lhs, op, rhs } => apply_boolean_op(
                *op,
                lhs.spec_is_match(fields, case_ignore, threshold),
                rhs.spec_is_match(fields, case_ignore, threshold),
            ),
        }
    }

    /// The text of the matcher: a group in parentheses, a negation after
    /// `!`, a composite matcher as both sides around the connective.
    pub open spec fn text(&self) -> Seq<char>
        decreases self,
    {
        match self {
            FieldMatcher::Singleton(m) => m.text(),
            FieldMatcher::Cardinality(m) => m.raw_text(),
            FieldMatcher::Group(m) => "("@ + m.text() + ")"@,
            FieldMatcher::Not(m) => "!"@ + m.text(),
            FieldMatcher::Composite { lhs, op, rhs } => lhs.text() + " "@ + boolean_op_text(*op) + " "@
                + rhs.text(),
        }
    }

    /// Applies the matcher to the fields.
    pub fn is_match(&self, fields: &[FieldRef<'_>], options: &MatcherOptions) -> (r: bool)
        ensures
            r == self.spec_is_match(
                field_views(fields@),
                options.spec_case_ignore(),
                options.spec_strsim_threshold(),
            ),
        decreases self,
    {
        match self {
            FieldMatcher::Singleton(m) => m.is_match(fields, options),
            FieldMatcher::Cardinality(m) => m.is_match(fields, options),
            FieldMatcher::Group(m) => m.is_match(fields, options),
            FieldMatcher::Not(m) => !m.is_match(fields, options),
            FieldMatcher::Composite { lhs, op, rhs } => {
                let l = lhs.is_match(fields, options);
                match op {
                    BooleanOp::Xor => l != rhs.is_match(fields, options),
                    BooleanOp::And => l && rhs.is_match(fields, options),
                    BooleanOp::Or => l || rhs.is_match(fields, options),
                }
            },
        }
    }

    /// Appends the text of the matcher.
    fn write_text(&self, out: &mut String)
        ensures
            final(out)@ == old(out)@ + self.text(),
        decreases self,
    {
        match self {
            FieldMatcher::Singleton(m) => {
                let t = m.to_string();
                push_str(out, t.as_str());
            },
            FieldMatcher::Cardinality(m) => {
                let t = m.to_string();
                push_str(out, t.as_str());
            },
            FieldMatcher::Group(m) => {
                push_str(out, "(");
                m.write_text(out);
                push_str(out, ")");
            },
            FieldMatcher::Not(m) => {
                push_str(out, "!");
                m.write_text(out);
            },
            FieldMatcher::Composite { lhs, op, rhs } => {
                lhs.write_text(out);
                push_str(out, " ");
                push_str(out, boolean_op_str(*op));
                push_str(out, " ");
                rhs.write_text(out);
            },
        }
        assert(final(out)@ =~= old(out)@ + self.text());
    }

    /// The matcher as a human-readable string.
    pub fn to_string(&self) -> (r: String)
        ensures
            r@ == self.text(),
    {
        let mut out = String::new();
        self.write_text(&mut out);
        assert(out@ =~= self.text());
        out
    }

    /// A matcher that stands in for a moment while another is moved out.
    pub(crate) fn placeholder() -> (r: Self) {
        FieldMatcher::Singleton(
            SingletonMatcher::Exists(
                ExistsMatcher { tag_matcher: TagMatcher::Tag(crate::primitives::Tag(Vec::new())), occ_matcher: OccurrenceMatcher::Any },
            ),
        )
    }

    /// Puts the matcher in a group if it is a composite matcher joined by
    /// `||` or `^`.
    fn into_and_operand(self) -> (r: Self)
        ensures
            r == and_operand(self),
    {
        let grouped = match &self {
            FieldMatcher::Composite { op, .. } => match op {
                BooleanOp::And => false,
                _ => true,
            },
            _ => false,
        };
        if grouped {
            FieldMatcher::Group(Box::new(self))
        } else {
            self
        }
    }

    /// Puts the matcher in a group if it is a composite matcher joined by
    /// `||`.
    fn into_xor_operand(self) -> (r: Self)
        ensures
            r == xor_operand(self),
    {
        let grouped = match &self {
            FieldMatcher::Composite { op, .. } => match op {
                BooleanOp::Or => true,
                _ => false,
            },
            _ => false,
        };
        if grouped {
            FieldMatcher::Group(Box::new(self))
        } else {
            self
        }
    }
}

impl core::ops::BitAnd for FieldMatcher {
    type Output = Self;

    /// Joins two matchers by `&&`.
    fn bitand(self, rhs: Self) -> (r: Self::Output) {
        FieldMatcher::Composite {
            lhs: Box::new(self.into_and_operand()),
            op: BooleanOp::And,
            rhs: Box::new(rhs.into_and_operand()),
        }
    }
}

impl vstd::std_specs::ops::BitAndSpecImpl for FieldMatcher {
    open spec fn obeys_bitand_spec() -> bool {
        true
    }

    open spec fn bitand_req(self, rhs: Self) -> bool {
        true
    }

    open spec fn bitand_spec(self, rhs: Self) -> Self {
        composite(and_operand(self), BooleanOp::And, and_operand(rhs))
    }
}

impl core::ops::BitOr for FieldMatcher {
    type Output = Self;

    /// Joins two matchers by `||`.
    fn bitor(self, rhs: Self) -> (r: Self::Output) {
        FieldMatcher::Composite { lhs: Box::new(self), op: BooleanOp::Or, rhs: Box::new(rhs) }
    }
}

impl vstd::std_specs::ops::BitOrSpecImpl for FieldMatcher {
    open spec fn obeys_bitor_spec() -> bool {
        true
    }

    open spec fn bitor_req(self, rhs: Self) -> bool {
        true
    }

    open spec fn bitor_spec(self, rhs: Self) -> Self {
        composite(self, BooleanOp::Or, rhs)
    }
}

impl core::ops::BitXor for FieldMatcher {
    type Output = Self;

    /// Joins two matchers by `^`.
    fn bitxor(self, rhs: Self) -> (r: Self::Output) {
        FieldMatcher::Composite {
            lhs: Box::new(self.into_xor_operand()),
            op: BooleanOp::Xor,
            rhs: Box::new(rhs.into_xor_operand()),
        }
    }
}

impl vstd::std_specs::ops::BitXorSpecImpl for FieldMatcher {
    open spec fn obeys_bitxor_spec() -> bool {
        true
    }

    open spec fn bitxor_req(self, rhs: Self) -> bool {
        true
    }

    open spec fn bitxor_spec(self, rhs: Self) -> Self {
        composite(xor_operand(self), BooleanOp::Xor, xor_operand(rhs))
    }
}

impl core::ops::Not for FieldMatcher {
    type Output = Self;

    /// Negates a matcher.
    fn not(self) -> (r: Self::Output) {
        let plain = match &self {
            FieldMatcher::Group(_) | FieldMatcher::Not(_) => true,
            FieldMatcher::Singleton(SingletonMatcher::Subfields(m)) => match &m.subfield_matcher {
                SubfieldMatcher::Singleton(sub::SingletonMatcher::Exists(_)) => true,
                _ => false,
            },
            _ => false,
        };
        if plain {
            FieldMatcher::Not(Box::new(self))
        } else {
            FieldMatcher::Not(Box::new(FieldMatcher::Group(Box::new(self))))
        }
    }
}

impl vstd::std_specs::ops::NotSpecImpl for FieldMatcher {
    open spec fn obeys_not_spec() -> bool {
        true
    }

    open spec fn not_req(self) -> bool {
        true
    }

    open spec fn not_spec(self) -> Self {
        negation(self)
    }
}

impl core::ops::BitAndAssign for FieldMatcher {
    /// Joins the matcher and another by `&&`, in place.
    fn bitand_assign(&mut self, rhs: Self)
        ensures
            *final(self) == composite(and_operand(*old(self)), BooleanOp::And, and_operand(rhs)),
    {
        let mut lhs = FieldMatcher::placeholder();
        std::mem::swap(self, &mut lhs);
        *self = lhs & rhs;
    }
}

impl core::ops::BitOrAssign for FieldMatcher {
    /// Joins the matcher and another by `||`, in place.
    fn bitor_assign(&mut self, rhs: Self)
        ensures
            *final(self) == composite(*old(self), BooleanOp::Or, rhs),
    {
        let mut lhs = FieldMatcher::placeholder();
        std::mem::swap(self, &mut lhs);
        *self = lhs | rhs;
    }
}

impl core::ops::BitXorAssign for FieldMatcher {
    /// Joins the matcher and another by `^`, in place.
    fn bitxor_assign(&mut self, rhs: Self)
        ensures
            *final(self) == composite(xor_operand(*old(self)), BooleanOp::Xor, xor_operand(rhs)),
    {
        let mut lhs = FieldMatcher::placeholder();
        std::mem::swap(self, &mut lhs);
        *self = lhs ^ rhs;
    }
}

} // verus!
