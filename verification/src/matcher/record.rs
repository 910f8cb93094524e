//! Matchers that can be applied on a record.
use vstd::prelude::*;
use vstd::std_specs::ops::{BitAndSpec, BitOrSpec, BitXorSpec, NotSpec};

use super::field::{and_operand, composite, negation, xor_operand, FieldMatcher};
use super::laws::{law_field_and, law_field_not, law_field_or, law_field_xor};
use super::error::invalid_message;
use super::field::parser::{field_ast, field_matcher_at, whole};
use super::{BooleanOp, MatcherOptions, ParseMatcherError};
use vstd::string::StringSliceAdditionalSpecFns;
use crate::primitives::model::SpecField;
use crate::primitives::RecordRef;

verus! {

/// A matcher on records: a field matcher applied to the record's fields.
#[derive(Debug, PartialEq)]
pub struct RecordMatcher(pub(crate) FieldMatcher);

impl View for RecordMatcher {
    type V = FieldMatcher;

    /// The field matcher that is applied to the fields.
    closed spec fn view(&self) -> FieldMatcher {
        self.0
    }
}

impl RecordMatcher {
    /// Creates a record matcher from the text of a field matcher; fails
    /// unless the whole text is one.
    pub fn new(matcher: &str) -> (r: Result<Self, ParseMatcherError>)
        ensures
            r is Ok <==> whole(field_matcher_at(matcher.spec_bytes(), 0), matcher.spec_bytes().len()),
            r matches Ok(m) ==> field_matcher_at(matcher.spec_bytes(), 0) == Some(
                (field_ast(m@), matcher.spec_bytes().len() as int),
            ),
            r matches Err(e) ==> e@ == invalid_message("field matcher"@, matcher@),
    {
        match FieldMatcher::new(matcher) {
            Ok(m) => Ok(RecordMatcher(m)),
            Err(e) => Err(e),
        }
    }

    /// A record matcher that applies the field matcher.
    pub fn from_field_matcher(m: FieldMatcher) -> (r: Self)
        ensures
            r@ == m,
    {
        RecordMatcher(m)
    }

    /// The field matcher matches the record's fields.
    pub open spec fn spec_is_match(&self, fields: Seq<SpecField>, case_ignore: bool, threshold: u32) -> bool {
        self@.spec_is_match(fields, case_ignore, threshold)
    }

    /// Returns true if the matcher matches the record's fields.
    pub fn is_match(&self, record: &RecordRef<'_>, options: &MatcherOptions) -> (r: bool)
        ensures
            r == self.spec_is_match(
                record@,
                options.spec_case_ignore(),
                options.spec_strsim_threshold(),
            ),
    {
        self.0.is_match(record.fields(), options)
    }

    /// The matcher as a human-readable string.
    pub fn to_string(&self) -> (r: String)
        ensures
            r@ == self@.text(),
    {
        self.0.to_string()
    }
}

impl core::ops::BitAnd for RecordMatcher {
    type Output = Self;

    /// Joins two matchers by `&&`.
    fn bitand(self, rhs: Self) -> (r: Self::Output) {
        RecordMatcher(self.0 & rhs.0)
    }
}

impl vstd::std_specs::ops::BitAndSpecImpl for RecordMatcher {
    open spec fn obeys_bitand_spec() -> bool {
        true
    }

    open spec fn bitand_req(self, rhs: Self) -> bool {
        true
    }

    closed spec fn bitand_spec(self, rhs: Self) -> Self {
        RecordMatcher(composite(and_operand(self.0), BooleanOp::And, and_operand(rhs.0)))
    }
}

impl core::ops::BitOr for RecordMatcher {
    type Output = Self;

    /// Joins two matchers by `||`.
    fn bitor(self, rhs: Self) -> (r: Self::Output) {
        RecordMatcher(self.0 | rhs.0)
    }
}

impl vstd::std_specs::ops::BitOrSpecImpl for RecordMatcher {
    open spec fn obeys_bitor_spec() -> bool {
        true
    }

    open spec fn bitor_req(self, rhs: Self) -> bool {
        true
    }

    closed spec fn bitor_spec(self, rhs: Self) -> Self {
        RecordMatcher(composite(self.0, BooleanOp::Or, rhs.0))
    }
}

impl core::ops::BitXor for RecordMatcher {
    type Output = Self;

    /// Joins two matchers by `^`.
    fn bitxor(self, rhs: Self) -> (r: Self::Output) {
        RecordMatcher(self.0 ^ rhs.0)
    }
}

impl vstd::std_specs::ops::BitXorSpecImpl for RecordMatcher {
    open spec fn obeys_bitxor_spec() -> bool {
        true
    }

    open spec fn bitxor_req(self, rhs: Self) -> bool {
        true
    }

    closed spec fn bitxor_spec(self, rhs: Self) -> Self {
        RecordMatcher(composite(xor_operand(self.0), BooleanOp::Xor, xor_operand(rhs.0)))
    }
}

impl core::ops::Not for RecordMatcher {
    type Output = Self;

    /// Negates a matcher.
    fn not(self) -> (r: Self::Output) {
        RecordMatcher(core::ops::Not::not(self.0))
    }
}

impl vstd::std_specs::ops::NotSpecImpl for RecordMatcher {
    open spec fn obeys_not_spec() -> bool {
        true
    }

    open spec fn not_req(self) -> bool {
        true
    }

    closed spec fn not_spec(self) -> Self {
        RecordMatcher(negation(self.0))
    }
}

impl core::ops::BitAndAssign for RecordMatcher {
    /// Joins the matcher and another by `&&`, in place.
    fn bitand_assign(&mut self, rhs: Self)
        ensures
            final(self)@ == composite(and_operand(old(self)@), BooleanOp::And, and_operand(rhs@)),
    {
        let mut lhs = RecordMatcher(FieldMatcher::placeholder());
        std::mem::swap(self, &mut lhs);
        *self = lhs & rhs;
    }
}

impl core::ops::BitOrAssign for RecordMatcher {
    /// Joins the matcher and another by `||`, in place.
    fn bitor_assign(&mut self, rhs: Self)
        ensures
            final(self)@ == composite(old(self)@, BooleanOp::Or, rhs@),
    {
        let mut lhs = RecordMatcher(FieldMatcher::placeholder());
        std::mem::swap(self, &mut lhs);
        *self = lhs | rhs;
    }
}

impl core::ops::BitXorAssign for RecordMatcher {
    /// Joins the matcher and another by `^`, in place.
    fn bitxor_assign(&mut self, rhs: Self)
        ensures
            final(self)@ == composite(xor_operand(old(self)@), BooleanOp::Xor, xor_operand(rhs@)),
    {
        let mut lhs = RecordMatcher(FieldMatcher::placeholder());
        std::mem::swap(self, &mut lhs);
        *self = lhs ^ rhs;
    }
}


/// The negation of a record matcher applies the negation of its field
/// matcher.
pub proof fn lemma_record_not(a: RecordMatcher)
    ensures
        a.not_spec()@ == negation(a@),
{
}

/// Two record matchers joined by `&` match a record exactly where both do.
pub proof fn law_record_and(a: RecordMatcher, b: RecordMatcher, fields: Seq<SpecField>, case_ignore: bool, threshold: u32)
    ensures
        a.bitand_spec(b).spec_is_match(fields, case_ignore, threshold) == (a.spec_is_match(
            fields,
            case_ignore,
            threshold,
        ) && b.spec_is_match(fields, case_ignore, threshold)),
{
    law_field_and(a.0, b.0, fields, case_ignore, threshold);
}

/// Two record matchers joined by `|` match a record exactly where one of
/// them does.
pub proof fn law_record_or(a: RecordMatcher, b: RecordMatcher, fields: Seq<SpecField>, case_ignore: bool, threshold: u32)
    ensures
        a.bitor_spec(b).spec_is_match(fields, case_ignore, threshold) == (a.spec_is_match(
            fields,
            case_ignore,
            threshold,
        ) || b.spec_is_match(fields, case_ignore, threshold)),
{
    law_field_or(a.0, b.0, fields, case_ignore, threshold);
}

/// Two record matchers joined by `^` match a record exactly where one of
/// them does and the other does not.
pub proof fn law_record_xor(a: RecordMatcher, b: RecordMatcher, fields: Seq<SpecField>, case_ignore: bool, threshold: u32)
    ensures
        a.bitxor_spec(b).spec_is_match(fields, case_ignore, threshold) == (a.spec_is_match(
            fields,
            case_ignore,
            threshold,
        ) != b.spec_is_match(fields, case_ignore, threshold)),
{
    law_field_xor(a.0, b.0, fields, case_ignore, threshold);
}

/// The negation of a record matcher matches a record exactly where the
/// matcher does not.
pub proof fn law_record_not(a: RecordMatcher, fields: Seq<SpecField>, case_ignore: bool, threshold: u32)
    ensures
        a.not_spec().spec_is_match(fields, case_ignore, threshold) == !a.spec_is_match(
            fields,
            case_ignore,
            threshold,
        ),
{
    law_field_not(a.0, fields, case_ignore, threshold);
}

} // verus!
