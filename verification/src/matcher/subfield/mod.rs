//! Matchers that can be applied on a list of subfields.
use vstd::prelude::*;
use vstd::string::StrSliceExecFns;

use super::operator::{apply_boolean_op, str_applicable, usize_applicable};
use super::{BooleanOp, MatcherOptions, Quantifier, RelationalOp};
use crate::bytes::{
    bytes_eq, contains, contains_bytes, ends_with, is_prefix, is_suffix, starts_with,
};
use crate::primitives::model::SpecSubfield;
use crate::primitives::subfield::{copy_bytes, subfield_views};
use crate::primitives::{SubfieldCode, SubfieldRef};
use crate::text::{
    build_regex, build_regex_set, levenshtein, levenshtein_distance, lossy_chars,
    lowercase_bytes, lowercase_chars, regex_builds, regex_is_match, regex_matches,
    regex_set_builds, regex_set_is_match, any_regex_matches, str_to_lowercase,
    push_str, string_views, to_lowercase, to_str_lossy,
};

pub mod parser;

verus! {

/// The bytes of a list of subfield codes.
pub open spec fn code_views(codes: Seq<SubfieldCode>) -> Seq<u8> {
    codes.map_values(|c: SubfieldCode| c@)
}

/// The codes with the given bytes.
pub(crate) fn codes_from_bytes(b: &[u8]) -> (r: Vec<SubfieldCode>)
    ensures
        code_views(r@) == b@,
{
    let mut out: Vec<SubfieldCode> = Vec::new();
    let mut i: usize = 0;
    while i < b.len()
        invariant
            0 <= i <= b@.len(),
            out@.len() == i,
            forall|j: int| 0 <= j < i ==> (#[trigger] out@[j])@ == b@[j],
        decreases b@.len() - i,
    {
        out.push(SubfieldCode::from_byte(b[i]));
        i = i + 1;
    }
    assert(code_views(out@) =~= b@);
    out
}

/// Of the subfields whose code is one of `codes`, there is one, and the
/// check holds of the values of all of them (`ALL`); or the check holds of
/// the value of one of them (`ANY`).
pub open spec fn quantified(
    q: Quantifier,
    codes: Seq<u8>,
    subfields: Seq<SpecSubfield>,
    check: spec_fn(Seq<u8>) -> bool,
) -> bool {
    match q {
        Quantifier::All => (exists|i: int|
            0 <= i < subfields.len() && codes.contains(#[trigger] subfields[i].code)) && forall|i: int|
            0 <= i < subfields.len() && codes.contains(#[trigger] subfields[i].code) ==> check(
                subfields[i].value,
            ),
        Quantifier::Any => exists|i: int|
            0 <= i < subfields.len() && codes.contains(#[trigger] subfields[i].code) && check(
                subfields[i].value,
            ),
    }
}

/// Tells whether the code is in the list.
pub(crate) fn has_code(codes: &[SubfieldCode], code: u8) -> (r: bool)
    ensures
        r == code_views(codes@).contains(code),
{
    let mut i: usize = 0;
    while i < codes.len()
        invariant
            0 <= i <= codes@.len(),
            forall|j: int| 0 <= j < i ==> codes@[j]@ != code,
        decreases codes@.len() - i,
    {
        if codes[i].as_byte() == code {
            assert(code_views(codes@)[i as int] == code);
            return true;
        }
        i = i + 1;
    }
    assert forall|j: int| 0 <= j < code_views(codes@).len() implies code_views(codes@)[j] != code by {
        assert(code_views(codes@)[j] == codes@[j]@);
    }
    false
}

/// Runs the check over the values of the subfields with one of the codes,
/// and combines the results by the quantifier.
fn quantify<'a, F: Fn(&'a [u8]) -> bool>(
    q: Quantifier,
    codes: &[SubfieldCode],
    subfields: &[SubfieldRef<'a>],
    check: F,
    Ghost(spec_check): Ghost<spec_fn(Seq<u8>) -> bool>,
) -> (r: bool)
    requires
        forall|v: &'a [u8]| #[trigger] check.requires((v,)),
        forall|v: &'a [u8], b: bool| check.ensures((v,), b) ==> b == spec_check(v@),
    ensures
        r == quantified(q, code_views(codes@), subfield_views(subfields@), spec_check),
{
    let ghost sfs = subfield_views(subfields@);
    let ghost cs = code_views(codes@);
    let mut found = false;
    let mut i: usize = 0;
    while i < subfields.len()
        invariant
            0 <= i <= subfields@.len(),
            sfs == subfield_views(subfields@),
            cs == code_views(codes@),
            forall|v: &'a [u8]| #[trigger] check.requires((v,)),
            forall|v: &'a [u8], b: bool| check.ensures((v,), b) ==> b == spec_check(v@),
            q is All ==> forall|j: int|
                0 <= j < i && cs.contains(#[trigger] sfs[j].code) ==> spec_check(sfs[j].value),
            q is Any ==> forall|j: int|
                0 <= j < i && cs.contains(#[trigger] sfs[j].code) ==> !spec_check(sfs[j].value),
            found <==> exists|j: int| 0 <= j < i && cs.contains(#[trigger] sfs[j].code),
        decreases subfields@.len() - i,
    {
        let sf = subfields[i];
        assert(sfs[i as int] == sf@);
        if has_code(codes, sf.code().as_byte()) {
            found = true;
            let b = check(sf.value().as_bytes());
            match q {
                Quantifier::All => {
                    if !b {
                        return false;
                    }
                },
                Quantifier::Any => {
                    if b {
                        return true;
                    }
                },
            }
        }
        i = i + 1;
    }
    match q {
        Quantifier::All => found,
        Quantifier::Any => false,
    }
}

/// A matcher that checks for the existence of subfields.
#[derive(Debug, Clone, PartialEq)]
pub struct ExistsMatcher {
    pub(crate) codes: Vec<SubfieldCode>,
    pub(crate) raw_data: String,
}

impl View for ExistsMatcher {
    type V = Seq<u8>;

    /// The codes the matcher looks for.
    closed spec fn view(&self) -> Seq<u8> {
        code_views(self.codes@)
    }
}

impl ExistsMatcher {
    /// An exists matcher with the given codes and text.
    pub(crate) fn from_parts(codes: Vec<SubfieldCode>, raw_data: String) -> (r: Self)
        ensures
            r@ == code_views(codes@),
            r.raw_text() == raw_data@,
    {
        ExistsMatcher { codes, raw_data }
    }

    /// One of the subfields has one of the codes.
    pub open spec fn spec_is_match(codes: Seq<u8>, subfields: Seq<SpecSubfield>) -> bool {
        exists|i: int| 0 <= i < subfields.len() && codes.contains(#[trigger] subfields[i].code)
    }

    /// Checks whether the list of subfields contains at least one subfield
    /// with a code of the matcher's list.
    pub fn is_match(&self, subfields: &[SubfieldRef<'_>], _options: &MatcherOptions) -> (r: bool)
        ensures
            r == Self::spec_is_match(self@, subfield_views(subfields@)),
    {
        let ghost sfs = subfield_views(subfields@);
        let mut i: usize = 0;
        while i < subfields.len()
            invariant
                0 <= i <= subfields@.len(),
                sfs == subfield_views(subfields@),
                forall|j: int| 0 <= j < i ==> !self@.contains(#[trigger] sfs[j].code),
            decreases subfields@.len() - i,
        {
            assert(sfs[i as int] == subfields@[i as int]@);
            if has_code(&self.codes, subfields[i].code().as_byte()) {
                return true;
            }
            i = i + 1;
        }
        false
    }

    /// The text the matcher was read from.
    pub closed spec fn raw_text(&self) -> Seq<char> {
        self.raw_data@
    }

    /// The matcher as it was written.
    pub fn to_string(&self) -> (r: String)
        ensures
            r@ == self.raw_text(),
    {
        self.raw_data.clone()
    }
}

/// The parts of a relation matcher.
pub struct RelationSpec {
    pub quantifier: Quantifier,
    pub codes: Seq<u8>,
    pub op: RelationalOp,
    pub value: Seq<u8>,
}

/// Two values are equal, or equal once both are in lower case where case
/// is ignored.
pub open spec fn values_equal(value: Seq<u8>, rhs: Seq<u8>, case_ignore: bool) -> bool {
    if case_ignore {
        lowercase_bytes(value) == lowercase_bytes(rhs)
    } else {
        value == rhs
    }
}

/// The value in lower case where case is ignored.
pub open spec fn folded(value: Seq<u8>, case_ignore: bool) -> Seq<u8> {
    if case_ignore {
        lowercase_bytes(value)
    } else {
        value
    }
}

/// The chars of the value (invalid UTF-8 replaced), in lower case where
/// case is ignored.
pub open spec fn similarity_chars(value: Seq<u8>, case_ignore: bool) -> Seq<char> {
    if case_ignore {
        lowercase_chars(lossy_chars(value))
    } else {
        lossy_chars(value)
    }
}

/// The normalized Levenshtein score of the two strings, `1 - d / m` for the
/// distance `d` and the greater length `m` (and `1` for two empty strings),
/// is above the threshold given in thousandths.
pub open spec fn score_above(a: Seq<char>, b: Seq<char>, threshold: u32) -> bool {
    let m = if a.len() >= b.len() {
        a.len()
    } else {
        b.len()
    };
    if m == 0 {
        1000 > threshold
    } else {
        1000 * m > threshold * m + 1000 * levenshtein_distance(a, b)
    }
}

/// The value stands in the relation to the matcher's value.
pub open spec fn relation_holds(
    op: RelationalOp,
    rhs: Seq<u8>,
    value: Seq<u8>,
    case_ignore: bool,
    threshold: u32,
) -> bool {
    match op {
        RelationalOp::Eq => values_equal(value, rhs, case_ignore),
        RelationalOp::Ne => !values_equal(value, rhs, case_ignore),
        RelationalOp::StartsWith => is_prefix(folded(rhs, case_ignore), folded(value, case_ignore)),
        RelationalOp::StartsNotWith => !is_prefix(
            folded(rhs, case_ignore),
            folded(value, case_ignore),
        ),
        RelationalOp::EndsWith => is_suffix(folded(rhs, case_ignore), folded(value, case_ignore)),
        RelationalOp::EndsNotWith => !is_suffix(
            folded(rhs, case_ignore),
            folded(value, case_ignore),
        ),
        RelationalOp::Similar => score_above(
            similarity_chars(rhs, case_ignore),
            similarity_chars(value, case_ignore),
            threshold,
        ),
        RelationalOp::Contains => contains_bytes(
            folded(value, case_ignore),
            folded(rhs, case_ignore),
        ),
        _ => false,
    }
}

/// A matcher that checks relations between (string) values.
#[derive(Debug, PartialEq, Eq)]
pub struct RelationMatcher {
    pub(crate) quantifier: Quantifier,
    pub(crate) codes: Vec<SubfieldCode>,
    pub(crate) op: RelationalOp,
    pub(crate) value: Vec<u8>,
    pub(crate) raw_data: String,
}

impl View for RelationMatcher {
    type V = RelationSpec;

    closed spec fn view(&self) -> RelationSpec {
        RelationSpec {
            quantifier: self.quantifier,
            codes: code_views(self.codes@),
            op: self.op,
            value: self.value@,
        }
    }
}

/// The bytes in lower case where case is ignored.
fn fold(value: &[u8], case_ignore: bool) -> (r: Vec<u8>)
    ensures
        r@ == folded(value@, case_ignore),
{
    if case_ignore {
        to_lowercase(value)
    } else {
        copy_bytes(value)
    }
}

/// The chars of the bytes, in lower case where case is ignored.
fn similarity_text(value: &[u8], case_ignore: bool) -> (r: String)
    ensures
        r@ == similarity_chars(value@, case_ignore),
{
    let s = to_str_lossy(value);
    if case_ignore {
        str_to_lowercase(s.as_str())
    } else {
        s
    }
}

impl RelationMatcher {
    /// A relation matcher with the given parts and text.
    pub(crate) fn from_parts(
        quantifier: Quantifier,
        codes: Vec<SubfieldCode>,
        op: RelationalOp,
        value: Vec<u8>,
        raw_data: String,
    ) -> (r: Self)
        requires
            str_applicable(op),
        ensures
            r@ == (RelationSpec { quantifier, codes: code_views(codes@), op, value: value@ }),
            r.raw_text() == raw_data@,
    {
        RelationMatcher { quantifier, codes, op, value, raw_data }
    }

    #[verifier::type_invariant]
    spec fn op_applies(self) -> bool {
        str_applicable(self.op)
    }

    /// The relation holds of the values of all (`ALL`) or one (`ANY`) of
    /// the subfields with one of the codes.
    pub open spec fn spec_is_match(m: RelationSpec, subfields: Seq<SpecSubfield>, case_ignore: bool, threshold: u32) -> bool {
        quantified(
            m.quantifier,
            m.codes,
            subfields,
            |v: Seq<u8>| relation_holds(m.op, m.value, v, case_ignore, threshold),
        )
    }

    /// Tells whether the value stands in the relation.
    fn check(&self, value: &[u8], options: &MatcherOptions) -> (r: bool)
        ensures
            r == relation_holds(
                self@.op,
                self@.value,
                value@,
                options.spec_case_ignore(),
                options.spec_strsim_threshold(),
            ),
    {
        proof {
            use_type_invariant(self);
        }
        let ci = options.ignores_case();
        match self.op {
            RelationalOp::Eq => self.compare(value, ci),
            RelationalOp::Ne => !self.compare(value, ci),
            RelationalOp::StartsWith => starts_with(&fold(value, ci), &fold(&self.value, ci)),
            RelationalOp::StartsNotWith => !starts_with(&fold(value, ci), &fold(&self.value, ci)),
            RelationalOp::EndsWith => ends_with(&fold(value, ci), &fold(&self.value, ci)),
            RelationalOp::EndsNotWith => !ends_with(&fold(value, ci), &fold(&self.value, ci)),
            RelationalOp::Similar => self.is_similar(value, options),
            RelationalOp::Contains => contains(&fold(value, ci), &fold(&self.value, ci)),
            _ => false,
        }
    }

    /// Tells whether the value equals the matcher's value.
    fn compare(&self, value: &[u8], case_ignore: bool) -> (r: bool)
        ensures
            r == values_equal(value@, self@.value, case_ignore),
    {
        if case_ignore {
            bytes_eq(&to_lowercase(&self.value), &to_lowercase(value))
        } else {
            bytes_eq(&self.value, value)
        }
    }

    /// Tells whether the value is similar to the matcher's value.
    fn is_similar(&self, value: &[u8], options: &MatcherOptions) -> (r: bool)
        ensures
            r == score_above(
                similarity_chars(self@.value, options.spec_case_ignore()),
                similarity_chars(value@, options.spec_case_ignore()),
                options.spec_strsim_threshold(),
            ),
    {
        let lhs = similarity_text(&self.value, options.ignores_case());
        let rhs = similarity_text(value, options.ignores_case());
        let a = lhs.as_str().unicode_len();
        let b = rhs.as_str().unicode_len();
        let m: usize = if a >= b { a } else { b };
        let t = options.threshold();
        if m == 0 {
            return 1000 > t;
        }
        let d = levenshtein(lhs.as_str(), rhs.as_str());
        let m128 = m as u128;
        let t128 = t as u128;
        let d128 = d as u128;
        assert(m128 * 1000 <= 0xffff_ffff_ffff_ffffu128 * 1000) by (nonlinear_arith)
            requires m128 <= 0xffff_ffff_ffff_ffffu128;
        assert(t128 * m128 <= 0xffff_ffffu128 * 0xffff_ffff_ffff_ffffu128) by (nonlinear_arith)
            requires t128 <= 0xffff_ffffu128, m128 <= 0xffff_ffff_ffff_ffffu128;
        1000 * m128 > t128 * m128 + 1000 * d128
    }

    /// Returns true if the relation holds of the values of at least one
    /// (`ANY`) or all (`ALL`) of the subfields with one of the codes.
    pub fn is_match(&self, subfields: &[SubfieldRef<'_>], options: &MatcherOptions) -> (r: bool)
        ensures
            r == Self::spec_is_match(
                self@,
                subfield_views(subfields@),
                options.spec_case_ignore(),
                options.spec_strsim_threshold(),
            ),
    {
        let f = |v: &[u8]| -> (b: bool)
            ensures
                b == relation_holds(
                    self@.op,
                    self@.value,
                    v@,
                    options.spec_case_ignore(),
                    options.spec_strsim_threshold(),
                ),
            { self.check(v, options) };
        quantify(
            self.quantifier,
            &self.codes,
            subfields,
            f,
            Ghost(
                |v: Seq<u8>|
                    relation_holds(
                        self@.op,
                        self@.value,
                        v,
                        options.spec_case_ignore(),
                        options.spec_strsim_threshold(),
                    ),
            ),
        )
    }

    /// The text the matcher was read from.
    pub closed spec fn raw_text(&self) -> Seq<char> {
        self.raw_data@
    }

    /// The matcher as it was written.
    pub fn to_string(&self) -> (r: String)
        ensures
            r@ == self.raw_text(),
    {
        self.raw_data.clone()
    }
}

impl Clone for RelationMatcher {
    fn clone(&self) -> (r: Self) {
        proof {
            use_type_invariant(self);
        }
        RelationMatcher {
            quantifier: self.quantifier,
            codes: self.codes.clone(),
            op: self.op,
            value: self.value.clone(),
            raw_data: self.raw_data.clone(),
        }
    }
}


/// The parts of a regex matcher.
pub struct RegexSpec {
    pub quantifier: Quantifier,
    pub codes: Seq<u8>,
    pub regex: Seq<char>,
    pub invert: bool,
}

/// A matcher that checks subfield values against a regular expression.
#[derive(Debug, PartialEq, Eq)]
pub struct RegexMatcher {
    pub(crate) quantifier: Quantifier,
    pub(crate) codes: Vec<SubfieldCode>,
    pub(crate) regex: String,
    pub(crate) invert: bool,
    pub(crate) raw_data: String,
}

impl View for RegexMatcher {
    type V = RegexSpec;

    closed spec fn view(&self) -> RegexSpec {
        RegexSpec {
            quantifier: self.quantifier,
            codes: code_views(self.codes@),
            regex: self.regex@,
            invert: self.invert,
        }
    }
}

impl RegexMatcher {
    /// A regex matcher with the given parts and text.
    pub(crate) fn from_parts(
        quantifier: Quantifier,
        codes: Vec<SubfieldCode>,
        regex: String,
        invert: bool,
        raw_data: String,
    ) -> (r: Self)
        requires
            regex_builds(regex@, false),
            regex_builds(regex@, true),
        ensures
            r@ == (RegexSpec { quantifier, codes: code_views(codes@), regex: regex@, invert }),
            r.raw_text() == raw_data@,
    {
        RegexMatcher { quantifier, codes, regex, invert, raw_data }
    }

    /// The pattern builds with either case setting.
    #[verifier::type_invariant]
    spec fn regex_builds_both_ways(self) -> bool {
        regex_builds(self.regex@, false) && regex_builds(self.regex@, true)
    }

    /// The regex (built with the case setting) matches, or does not where
    /// the matcher is inverted, the values of all (`ALL`) or one (`ANY`)
    /// of the subfields with one of the codes.
    pub open spec fn spec_is_match(m: RegexSpec, subfields: Seq<SpecSubfield>, case_ignore: bool) -> bool {
        quantified(
            m.quantifier,
            m.codes,
            subfields,
            |v: Seq<u8>| regex_matches(m.regex, case_ignore, v) != m.invert,
        )
    }

    /// Returns true if at least one (`ANY`) or all (`ALL`) subfield values
    /// match against the regular expression.
    pub fn is_match(&self, subfields: &[SubfieldRef<'_>], options: &MatcherOptions) -> (r: bool)
        ensures
            r == Self::spec_is_match(self@, subfield_views(subfields@), options.spec_case_ignore()),
    {
        proof {
            use_type_invariant(self);
        }
        let ci = options.ignores_case();
        match build_regex(self.regex.as_str(), ci) {
            Some(re) => {
                let f = |v: &[u8]| -> (b: bool)
                    ensures
                        b == (regex_matches(self@.regex, options.spec_case_ignore(), v@) != self@.invert),
                    { regex_is_match(&re, v) != self.invert };
                quantify(
                    self.quantifier,
                    &self.codes,
                    subfields,
                    f,
                    Ghost(|v: Seq<u8>| regex_matches(self@.regex, options.spec_case_ignore(), v) != self@.invert),
                )
            },
            None => {
                assert(false);
                false
            },
        }
    }

    /// The text the matcher was read from.
    pub closed spec fn raw_text(&self) -> Seq<char> {
        self.raw_data@
    }

    /// The matcher as it was written.
    pub fn to_string(&self) -> (r: String)
        ensures
            r@ == self.raw_text(),
    {
        self.raw_data.clone()
    }
}

impl Clone for RegexMatcher {
    fn clone(&self) -> (r: Self) {
        proof {
            use_type_invariant(self);
        }
        RegexMatcher {
            quantifier: self.quantifier,
            codes: self.codes.clone(),
            regex: self.regex.clone(),
            invert: self.invert,
            raw_data: self.raw_data.clone(),
        }
    }
}

/// The parts of a regex-set matcher.
pub struct RegexSetSpec {
    pub quantifier: Quantifier,
    pub codes: Seq<u8>,
    pub regex: Seq<Seq<char>>,
    pub invert: bool,
}

/// A matcher that checks subfield values against a set of regular
/// expressions.
#[derive(Debug, PartialEq, Eq)]
pub struct RegexSetMatcher {
    pub(crate) quantifier: Quantifier,
    pub(crate) codes: Vec<SubfieldCode>,
    pub(crate) regex: Vec<String>,
    pub(crate) invert: bool,
    pub(crate) raw_data: String,
}

impl View for RegexSetMatcher {
    type V = RegexSetSpec;

    closed spec fn view(&self) -> RegexSetSpec {
        RegexSetSpec {
            quantifier: self.quantifier,
            codes: code_views(self.codes@),
            regex: string_views(self.regex@),
            invert: self.invert,
        }
    }
}

impl RegexSetMatcher {
    /// A regex-set matcher with the given parts and text.
    pub(crate) fn from_parts(
        quantifier: Quantifier,
        codes: Vec<SubfieldCode>,
        regex: Vec<String>,
        invert: bool,
        raw_data: String,
    ) -> (r: Self)
        requires
            regex_set_builds(string_views(regex@), false),
            regex_set_builds(string_views(regex@), true),
        ensures
            r@ == (RegexSetSpec {
                quantifier,
                codes: code_views(codes@),
                regex: string_views(regex@),
                invert,
            }),
            r.raw_text() == raw_data@,
    {
        RegexSetMatcher { quantifier, codes, regex, invert, raw_data }
    }

    /// The patterns build as a set with either case setting.
    #[verifier::type_invariant]
    spec fn regex_set_builds_both_ways(self) -> bool {
        regex_set_builds(string_views(self.regex@), false) && regex_set_builds(
            string_views(self.regex@),
            true,
        )
    }

    /// One of the regexes (built with the case setting) matches, or none
    /// does where the matcher is inverted, the values of all (`ALL`) or one
    /// (`ANY`) of the subfields with one of the codes.
    pub open spec fn spec_is_match(m: RegexSetSpec, subfields: Seq<SpecSubfield>, case_ignore: bool) -> bool {
        quantified(
            m.quantifier,
            m.codes,
            subfields,
            |v: Seq<u8>| any_regex_matches(m.regex, case_ignore, v) != m.invert,
        )
    }

    /// Returns true if at least one (`ANY`) or all (`ALL`) subfield values
    /// match against one of the regular expressions.
    pub fn is_match(&self, subfields: &[SubfieldRef<'_>], options: &MatcherOptions) -> (r: bool)
        ensures
            r == Self::spec_is_match(self@, subfield_views(subfields@), options.spec_case_ignore()),
    {
        proof {
            use_type_invariant(self);
        }
        let ci = options.ignores_case();
        match build_regex_set(self.regex.as_slice(), ci) {
            Some(set) => {
                let f = |v: &[u8]| -> (b: bool)
                    ensures
                        b == (any_regex_matches(self@.regex, options.spec_case_ignore(), v@)
                            != self@.invert),
                    { regex_set_is_match(&set, v) != self.invert };
                quantify(
                    self.quantifier,
                    &self.codes,
                    subfields,
                    f,
                    Ghost(
                        |v: Seq<u8>|
                            any_regex_matches(self@.regex, options.spec_case_ignore(), v)
                                != self@.invert,
                    ),
                )
            },
            None => {
                assert(false);
                false
            },
        }
    }

    /// The text the matcher was read from.
    pub closed spec fn raw_text(&self) -> Seq<char> {
        self.raw_data@
    }

    /// The matcher as it was written.
    pub fn to_string(&self) -> (r: String)
        ensures
            r@ == self.raw_text(),
    {
        self.raw_data.clone()
    }
}

/// A copy of each string.
fn clone_strings(v: &Vec<String>) -> (r: Vec<String>)
    ensures
        string_views(r@) == string_views(v@),
{
    let mut out: Vec<String> = Vec::new();
    let mut i: usize = 0;
    while i < v.len()
        invariant
            0 <= i <= v@.len(),
            out@.len() == i,
            forall|j: int| 0 <= j < i ==> (#[trigger] out@[j])@ == v@[j]@,
        decreases v@.len() - i,
    {
        out.push(v[i].clone());
        i = i + 1;
    }
    assert(string_views(out@) =~= string_views(v@));
    out
}

impl Clone for RegexSetMatcher {
    fn clone(&self) -> (r: Self) {
        proof {
            use_type_invariant(self);
        }
        RegexSetMatcher {
            quantifier: self.quantifier,
            codes: self.codes.clone(),
            regex: clone_strings(&self.regex),
            invert: self.invert,
            raw_data: self.raw_data.clone(),
        }
    }
}

/// The bytes of each value.
pub open spec fn value_views(values: Seq<Vec<u8>>) -> Seq<Seq<u8>> {
    values.map_values(|v: Vec<u8>| v@)
}

/// The parts of an in-matcher.
pub struct InSpec {
    pub quantifier: Quantifier,
    pub codes: Seq<u8>,
    pub values: Seq<Seq<u8>>,
    pub invert: bool,
}

/// The value is one of the values, compared in lower case where case is
/// ignored.
pub open spec fn value_in(value: Seq<u8>, values: Seq<Seq<u8>>, case_ignore: bool) -> bool {
    exists|k: int|
        0 <= k < values.len() && folded(value, case_ignore) == folded(
            #[trigger] values[k],
            case_ignore,
        )
}

/// A matcher that checks whether a subfield value is one of a list.
#[derive(Debug, Clone, PartialEq, Eq)]
pub struct InMatcher {
    pub(crate) quantifier: Quantifier,
    pub(crate) codes: Vec<SubfieldCode>,
    pub(crate) values: Vec<Vec<u8>>,
    pub(crate) invert: bool,
    pub(crate) raw_data: String,
}

impl View for InMatcher {
    type V = InSpec;

    closed spec fn view(&self) -> InSpec {
        InSpec {
            quantifier: self.quantifier,
            codes: code_views(self.codes@),
            values: value_views(self.values@),
            invert: self.invert,
        }
    }
}

impl InMatcher {
    /// An in-matcher with the given parts and text.
    pub(crate) fn from_parts(
        quantifier: Quantifier,
        codes: Vec<SubfieldCode>,
        values: Vec<Vec<u8>>,
        invert: bool,
        raw_data: String,
    ) -> (r: Self)
        ensures
            r@ == (InSpec {
                quantifier,
                codes: code_views(codes@),
                values: value_views(values@),
                invert,
            }),
            r.raw_text() == raw_data@,
    {
        InMatcher { quantifier, codes, values, invert, raw_data }
    }

    /// The values of all (`ALL`) or one (`ANY`) of the subfields with one
    /// of the codes are in the list, or not in it where the matcher is
    /// inverted.
    pub open spec fn spec_is_match(m: InSpec, subfields: Seq<SpecSubfield>, case_ignore: bool) -> bool {
        quantified(
            m.quantifier,
            m.codes,
            subfields,
            |v: Seq<u8>| value_in(v, m.values, case_ignore) != m.invert,
        )
    }

    /// Tells whether the value is in the list.
    fn contains_value(&self, value: &[u8], case_ignore: bool) -> (r: bool)
        ensures
            r == value_in(value@, self@.values, case_ignore),
    {
        let lhs = fold(value, case_ignore);
        let mut k: usize = 0;
        while k < self.values.len()
            invariant
                0 <= k <= self.values@.len(),
                lhs@ == folded(value@, case_ignore),
                forall|j: int| 0 <= j < k ==> folded(value@, case_ignore) != folded(
                    #[trigger] value_views(self.values@)[j],
                    case_ignore,
                ),
            decreases self.values@.len() - k,
        {
            assert(value_views(self.values@)[k as int] == self.values@[k as int]@);
            if bytes_eq(&lhs, &fold(self.values[k].as_slice(), case_ignore)) {
                return true;
            }
            k = k + 1;
        }
        false
    }

    /// Returns true if the values of at least one (`ANY`) or all (`ALL`)
    /// subfields with one of the codes are in the list (or not in it).
    pub fn is_match(&self, subfields: &[SubfieldRef<'_>], options: &MatcherOptions) -> (r: bool)
        ensures
            r == Self::spec_is_match(self@, subfield_views(subfields@), options.spec_case_ignore()),
    {
        let ci = options.ignores_case();
        let f = |v: &[u8]| -> (b: bool)
            ensures
                b == (value_in(v@, self@.values, options.spec_case_ignore()) != self@.invert),
            { self.contains_value(v, ci) != self.invert };
        quantify(
            self.quantifier,
            &self.codes,
            subfields,
            f,
            Ghost(|v: Seq<u8>| value_in(v, self@.values, options.spec_case_ignore()) != self@.invert),
        )
    }

    /// The text the matcher was read from.
    pub closed spec fn raw_text(&self) -> Seq<char> {
        self.raw_data@
    }

    /// The matcher as it was written.
    pub fn to_string(&self) -> (r: String)
        ensures
            r@ == self.raw_text(),
    {
        self.raw_data.clone()
    }
}

/// The parts of a contains-matcher.
pub struct ContainsSpec {
    pub quantifier: Quantifier,
    pub codes: Seq<u8>,
    pub values: Seq<Seq<u8>>,
}

/// The value contains one of the values, compared in lower case where case
/// is ignored.
pub open spec fn contains_one_of(value: Seq<u8>, values: Seq<Seq<u8>>, case_ignore: bool) -> bool {
    exists|k: int|
        0 <= k < values.len() && contains_bytes(
            folded(value, case_ignore),
            folded(#[trigger] values[k], case_ignore),
        )
}

/// A matcher that checks whether a subfield value contains one of a list
/// of values.
#[derive(Debug, Clone, PartialEq, Eq)]
pub struct ContainsMatcher {
    pub(crate) quantifier: Quantifier,
    pub(crate) codes: Vec<SubfieldCode>,
    pub(crate) values: Vec<Vec<u8>>,
    pub(crate) raw_data: String,
}

impl View for ContainsMatcher {
    type V = ContainsSpec;

    closed spec fn view(&self) -> ContainsSpec {
        ContainsSpec {
            quantifier: self.quantifier,
            codes: code_views(self.codes@),
            values: value_views(self.values@),
        }
    }
}

impl ContainsMatcher {
    /// A contains-matcher with the given parts and text.
    pub(crate) fn from_parts(
        quantifier: Quantifier,
        codes: Vec<SubfieldCode>,
        values: Vec<Vec<u8>>,
        raw_data: String,
    ) -> (r: Self)
        ensures
            r@ == (ContainsSpec { quantifier, codes: code_views(codes@), values: value_views(values@) }),
            r.raw_text() == raw_data@,
    {
        ContainsMatcher { quantifier, codes, values, raw_data }
    }

    /// The values of all (`ALL`) or one (`ANY`) of the subfields with one
    /// of the codes contain one of the matcher's values.
    pub open spec fn spec_is_match(m: ContainsSpec, subfields: Seq<SpecSubfield>, case_ignore: bool) -> bool {
        quantified(
            m.quantifier,
            m.codes,
            subfields,
            |v: Seq<u8>| contains_one_of(v, m.values, case_ignore),
        )
    }

    /// Tells whether the value contains one of the matcher's values.
    fn contains_any(&self, value: &[u8], case_ignore: bool) -> (r: bool)
        ensures
            r == contains_one_of(value@, self@.values, case_ignore),
    {
        let lhs = fold(value, case_ignore);
        let mut k: usize = 0;
        while k < self.values.len()
            invariant
                0 <= k <= self.values@.len(),
                lhs@ == folded(value@, case_ignore),
                forall|j: int| 0 <= j < k ==> !contains_bytes(
                    folded(value@, case_ignore),
                    folded(#[trigger] value_views(self.values@)[j], case_ignore),
                ),
            decreases self.values@.len() - k,
        {
            assert(value_views(self.values@)[k as int] == self.values@[k as int]@);
            if contains(&lhs, &fold(self.values[k].as_slice(), case_ignore)) {
                return true;
            }
            k = k + 1;
        }
        false
    }

    /// Returns true if the values of at least one (`ANY`) or all (`ALL`)
    /// subfields with one of the codes contain one of the values.
    pub fn is_match(&self, subfields: &[SubfieldRef<'_>], options: &MatcherOptions) -> (r: bool)
        ensures
            r == Self::spec_is_match(self@, subfield_views(subfields@), options.spec_case_ignore()),
    {
        let ci = options.ignores_case();
        let f = |v: &[u8]| -> (b: bool)
            ensures
                b == contains_one_of(v@, self@.values, options.spec_case_ignore()),
            { self.contains_any(v, ci) };
        quantify(
            self.quantifier,
            &self.codes,
            subfields,
            f,
            Ghost(|v: Seq<u8>| contains_one_of(v, self@.values, options.spec_case_ignore())),
        )
    }

    /// The text the matcher was read from.
    pub closed spec fn raw_text(&self) -> Seq<char> {
        self.raw_data@
    }

    /// The matcher as it was written.
    pub fn to_string(&self) -> (r: String)
        ensures
            r@ == self.raw_text(),
    {
        self.raw_data.clone()
    }
}

/// The parts of a cardinality matcher.
pub struct CardinalitySpec {
    pub code: u8,
    pub op: RelationalOp,
    pub value: usize,
}

/// The number of subfields with the code.
pub open spec fn count_code(subfields: Seq<SpecSubfield>, code: u8) -> nat {
    subfields.filter(|s: SpecSubfield| s.code == code).len()
}

/// The count stands in the relation to the value.
pub open spec fn count_holds(op: RelationalOp, count: int, value: int) -> bool {
    match op {
        RelationalOp::Eq => count == value,
        RelationalOp::Ne => count != value,
        RelationalOp::Ge => count >= value,
        RelationalOp::Gt => count > value,
        RelationalOp::Le => count <= value,
        RelationalOp::Lt => count < value,
        _ => false,
    }
}

/// A matcher that checks the number of occurrences of a subfield.
#[derive(Debug, PartialEq, Eq)]
pub struct CardinalityMatcher {
    pub(crate) code: SubfieldCode,
    pub(crate) op: RelationalOp,
    pub(crate) value: usize,
    pub(crate) raw_data: String,
}

impl View for CardinalityMatcher {
    type V = CardinalitySpec;

    closed spec fn view(&self) -> CardinalitySpec {
        CardinalitySpec { code: self.code@, op: self.op, value: self.value }
    }
}

impl CardinalityMatcher {
    /// A cardinality matcher with the given parts and text.
    pub(crate) fn from_parts(code: u8, op: RelationalOp, value: usize, raw_data: String) -> (r: Self)
        requires
            usize_applicable(op),
        ensures
            r@ == (CardinalitySpec { code, op, value }),
            r.raw_text() == raw_data@,
    {
        CardinalityMatcher { code: SubfieldCode::from_byte(code), op, value, raw_data }
    }

    #[verifier::type_invariant]
    spec fn op_applies(self) -> bool {
        usize_applicable(self.op)
    }

    /// The number of subfields with the code stands in the relation to the
    /// matcher's value.
    pub open spec fn spec_is_match(m: CardinalitySpec, subfields: Seq<SpecSubfield>) -> bool {
        count_holds(m.op, count_code(subfields, m.code) as int, m.value as int)
    }

    /// Returns true if the number of subfields with the code stands in the
    /// relation to the matcher's value.
    pub fn is_match(&self, subfields: &[SubfieldRef<'_>], _options: &MatcherOptions) -> (r: bool)
        ensures
            r == Self::spec_is_match(self@, subfield_views(subfields@)),
    {
        proof {
            use_type_invariant(self);
        }
        let ghost sfs = subfield_views(subfields@);
        let ghost pred = |s: SpecSubfield| s.code == self@.code;
        let code = self.code.as_byte();
        let mut count: usize = 0;
        let mut i: usize = 0;
        while i < subfields.len()
            invariant
                0 <= i <= subfields@.len(),
                sfs == subfield_views(subfields@),
                code == self@.code,
                pred == (|s: SpecSubfield| s.code == self@.code),
                count == sfs.take(i as int).filter(pred).len(),
                count <= i,
            decreases subfields@.len() - i,
        {
            proof {
                reveal(Seq::filter);
                assert(sfs.take(i + 1).drop_last() =~= sfs.take(i as int));
                assert(sfs.take(i + 1).last() == subfields@[i as int]@);
            }
            if subfields[i].code().as_byte() == code {
                count = count + 1;
            }
            i = i + 1;
        }
        assert(sfs.take(i as int) =~= sfs);
        match self.op {
            RelationalOp::Eq => count == self.value,
            RelationalOp::Ne => count != self.value,
            RelationalOp::Ge => count >= self.value,
            RelationalOp::Gt => count > self.value,
            RelationalOp::Le => count <= self.value,
            RelationalOp::Lt => count < self.value,
            _ => false,
        }
    }

    /// The text the matcher was read from.
    pub closed spec fn raw_text(&self) -> Seq<char> {
        self.raw_data@
    }

    /// The matcher as it was written.
    pub fn to_string(&self) -> (r: String)
        ensures
            r@ == self.raw_text(),
    {
        self.raw_data.clone()
    }
}

impl Clone for CardinalityMatcher {
    fn clone(&self) -> (r: Self) {
        proof {
            use_type_invariant(self);
        }
        CardinalityMatcher {
            code: self.code,
            op: self.op,
            value: self.value,
            raw_data: self.raw_data.clone(),
        }
    }
}


/// A matcher on a list of subfields that is not built from others.
#[derive(Debug, Clone, PartialEq)]
pub enum SingletonMatcher {
    Cardinality(CardinalityMatcher),
    Regex(RegexMatcher),
    RegexSet(RegexSetMatcher),
    Relation(RelationMatcher),
    Exists(ExistsMatcher),
    In(InMatcher),
    Contains(ContainsMatcher),
}

impl SingletonMatcher {
    /// What the matcher says of the subfields.
    pub open spec fn spec_is_match(&self, subfields: Seq<SpecSubfield>, case_ignore: bool, threshold: u32) -> bool {
        match self {
            SingletonMatcher::Cardinality(m) => CardinalityMatcher::spec_is_match(m@, subfields),
            SingletonMatcher::Regex(m) => RegexMatcher::spec_is_match(m@, subfields, case_ignore),
            SingletonMatcher::RegexSet(m) => RegexSetMatcher::spec_is_match(m@, subfields, case_ignore),
            SingletonMatcher::Relation(m) => RelationMatcher::spec_is_match(
                m@,
                subfields,
                case_ignore,
                threshold,
            ),
            SingletonMatcher::Exists(m) => ExistsMatcher::spec_is_match(m@, subfields),
            SingletonMatcher::In(m) => InMatcher::spec_is_match(m@, subfields, case_ignore),
            SingletonMatcher::Contains(m) => ContainsMatcher::spec_is_match(m@, subfields, case_ignore),
        }
    }

    /// The text the matcher was read from.
    pub open spec fn raw_text(&self) -> Seq<char> {
        match self {
            SingletonMatcher::Cardinality(m) => m.raw_text(),
            SingletonMatcher::Regex(m) => m.raw_text(),
            SingletonMatcher::RegexSet(m) => m.raw_text(),
            SingletonMatcher::Relation(m) => m.raw_text(),
            SingletonMatcher::Exists(m) => m.raw_text(),
            SingletonMatcher::In(m) => m.raw_text(),
            SingletonMatcher::Contains(m) => m.raw_text(),
        }
    }

    /// Applies the matcher to the subfields.
    pub fn is_match(&self, subfields: &[SubfieldRef<'_>], options: &MatcherOptions) -> (r: bool)
        ensures
            r == self.spec_is_match(
                subfield_views(subfields@),
                options.spec_case_ignore(),
                options.spec_strsim_threshold(),
            ),
    {
        match self {
            SingletonMatcher::Cardinality(m) => m.is_match(subfields, options),
            SingletonMatcher::Regex(m) => m.is_match(subfields, options),
            SingletonMatcher::RegexSet(m) => m.is_match(subfields, options),
            SingletonMatcher::Relation(m) => m.is_match(subfields, options),
            SingletonMatcher::Exists(m) => m.is_match(subfields, options),
            SingletonMatcher::In(m) => m.is_match(subfields, options),
            SingletonMatcher::Contains(m) => m.is_match(subfields, options),
        }
    }

    /// The matcher as it was written.
    pub fn to_string(&self) -> (r: String)
        ensures
            r@ == self.raw_text(),
    {
        match self {
            SingletonMatcher::Cardinality(m) => m.to_string(),
            SingletonMatcher::Regex(m) => m.to_string(),
            SingletonMatcher::RegexSet(m) => m.to_string(),
            SingletonMatcher::Relation(m) => m.to_string(),
            SingletonMatcher::Exists(m) => m.to_string(),
            SingletonMatcher::In(m) => m.to_string(),
            SingletonMatcher::Contains(m) => m.to_string(),
        }
    }
}

/// A matcher on a list of subfields: a singleton matcher, a group, a
/// negation, or two matchers joined by a boolean connective.
#[derive(Debug, PartialEq)]
pub enum SubfieldMatcher {
    Singleton(SingletonMatcher),
    Group(Box<SubfieldMatcher>),
    Not(Box<SubfieldMatcher>),
    Composite { lhs: Box<SubfieldMatcher>, op: BooleanOp, rhs: Box<SubfieldMatcher> },
}

/// The text of a boolean connective.
pub open spec fn boolean_op_text(op: BooleanOp) -> Seq<char> {
    match op {
        BooleanOp::And => "&&"@,
        BooleanOp::Or => "||"@,
        BooleanOp::Xor => "^"@,
    }
}

/// The text of a boolean connective.
pub(crate) fn boolean_op_str(op: BooleanOp) -> (r: &'static str)
    ensures
        r@ == boolean_op_text(op),
{
    match op {
        BooleanOp::And => "&&",
        BooleanOp::Or => "||",
        BooleanOp::Xor => "^",
    }
}

/// An operand of `&`: a composite matcher joined by `||` or `^` is put in
/// a group.
pub open spec fn and_operand(m: SubfieldMatcher) -> SubfieldMatcher {
    if m is Composite && !(m->op is And) {
        SubfieldMatcher::Group(Box::new(m))
    } else {
        m
    }
}

/// An operand of `^`: a composite matcher joined by `||` is put in a group.
pub open spec fn xor_operand(m: SubfieldMatcher) -> SubfieldMatcher {
    if m is Composite && m->op is Or {
        SubfieldMatcher::Group(Box::new(m))
    } else {
        m
    }
}

/// The negation of a matcher: an exists matcher, a group or a negation is
/// negated as it is, any other matcher is put in a group first.
pub open spec fn negation(m: SubfieldMatcher) -> SubfieldMatcher {
    if m is Group || m is Not || (m is Singleton && m->Singleton_0 is Exists) {
        SubfieldMatcher::Not(Box::new(m))
    } else {
        SubfieldMatcher::Not(Box::new(SubfieldMatcher::Group(Box::new(m))))
    }
}

/// Two matchers joined by a connective.
pub open spec fn composite(lhs: SubfieldMatcher, op: BooleanOp, rhs: SubfieldMatcher) -> SubfieldMatcher {
    SubfieldMatcher::Composite { lhs: Box::new(lhs), op, rhs: Box::new(rhs) }
}

impl SubfieldMatcher {
    /// What the matcher says of the subfields: a group as its content, a
    /// negation the opposite, a composite matcher the connective of both
    /// sides.
    pub open spec fn spec_is_match(&self, subfields: Seq<SpecSubfield>, case_ignore: bool, threshold: u32) -> bool
        decreases self,
    {
        match self {
            SubfieldMatcher::Singleton(m) => m.spec_is_match(subfields, case_ignore, threshold),
            SubfieldMatcher::Group(m) => m.spec_is_match(subfields, case_ignore, threshold),
            SubfieldMatcher::Not(m) => !m.spec_is_match(subfields, case_ignore, threshold),
            SubfieldMatcher::Composite { lhs, op, rhs } => apply_boolean_op(
                *op,
                lhs.spec_is_match(subfields, case_ignore, threshold),
                rhs.spec_is_match(subfields, case_ignore, threshold),
            ),
        }
    }

    /// The text of the matcher: a group in parentheses, a negation after
    /// `!`, a composite matcher as both sides around the connective.
    pub open spec fn text(&self) -> Seq<char>
        decreases self,
    {
        match self {
            SubfieldMatcher::Singleton(m) => m.raw_text(),
            SubfieldMatcher::Group(m) => "("@ + m.text() + ")"@,
            SubfieldMatcher::Not(m) => "!"@ + m.text(),
            SubfieldMatcher::Composite { lhs, op, rhs } => lhs.text() + " "@ + boolean_op_text(*op)
                + " "@ + rhs.text(),
        }
    }

    /// Applies the matcher to the subfields.
    pub fn is_match(&self, subfields: &[SubfieldRef<'_>], options: &MatcherOptions) -> (r: bool)
        ensures
            r == self.spec_is_match(
                subfield_views(subfields@),
                options.spec_case_ignore(),
                options.spec_strsim_threshold(),
            ),
        decreases self,
    {
        match self {
            SubfieldMatcher::Singleton(m) => m.is_match(subfields, options),
            SubfieldMatcher::Group(m) => m.is_match(subfields, options),
            SubfieldMatcher::Not(m) => !m.is_match(subfields, options),
            SubfieldMatcher::Composite { lhs, op, rhs } => {
                let l = lhs.is_match(subfields, options);
                match op {
                    BooleanOp::Xor => l != rhs.is_match(subfields, options),
                    BooleanOp::And => l && rhs.is_match(subfields, options),
                    BooleanOp::Or => l || rhs.is_match(subfields, options),
                }
            },
        }
    }

    /// Appends the text of the matcher.
    fn write_text(&self, out: &mut String)
        ensures
            final(out)@ == old(out)@ + self.text(),
        decreases self,
    {
        match self {
            SubfieldMatcher::Singleton(m) => {
                let t = m.to_string();
                push_str(out, t.as_str());
            },
            SubfieldMatcher::Group(m) => {
                push_str(out, "(");
                m.write_text(out);
                push_str(out, ")");
            },
            SubfieldMatcher::Not(m) => {
                push_str(out, "!");
                m.write_text(out);
            },
            SubfieldMatcher::Composite { lhs, op, rhs } => {
                lhs.write_text(out);
                push_str(out, " ");
                push_str(out, boolean_op_str(*op));
                push_str(out, " ");
                rhs.write_text(out);
            },
        }
        assert(final(out)@ =~= old(out)@ + self.text());
    }

    /// The matcher as a human-readable string.
    pub fn to_string(&self) -> (r: String)
        ensures
            r@ == self.text(),
    {
        let mut out = String::new();
        self.write_text(&mut out);
        assert(out@ =~= self.text());
        out
    }

    /// A matcher that stands in for a moment while another is moved out.
    fn placeholder() -> (r: Self) {
        SubfieldMatcher::Singleton(
            SingletonMatcher::Exists(ExistsMatcher { codes: Vec::new(), raw_data: String::new() }),
        )
    }

    /// Puts the matcher in a group if it is a composite matcher joined by
    /// `||` or `^`.
    fn into_and_operand(self) -> (r: Self)
        ensures
            r == and_operand(self),
    {
        let grouped = match &self {
            SubfieldMatcher::Composite { op, .. } => match op {
                BooleanOp::And => false,
                _ => true,
            },
            _ => false,
        };
        if grouped {
            SubfieldMatcher::Group(Box::new(self))
        } else {
            self
        }
    }

    /// Puts the matcher in a group if it is a composite matcher joined by
    /// `||`.
    fn into_xor_operand(self) -> (r: Self)
        ensures
            r == xor_operand(self),
    {
        let grouped = match &self {
            SubfieldMatcher::Composite { op, .. } => match op {
                BooleanOp::Or => true,
                _ => false,
            },
            _ => false,
        };
        if grouped {
            SubfieldMatcher::Group(Box::new(self))
        } else {
            self
        }
    }
}

impl core::ops::BitAnd for SubfieldMatcher {
    type Output = Self;

    /// Joins two matchers by `&&`.
    fn bitand(self, rhs: Self) -> (r: Self::Output) {
        SubfieldMatcher::Composite {
            lhs: Box::new(self.into_and_operand()),
            op: BooleanOp::And,
            rhs: Box::new(rhs.into_and_operand()),
        }
    }
}

impl vstd::std_specs::ops::BitAndSpecImpl for SubfieldMatcher {
    open spec fn obeys_bitand_spec() -> bool {
        true
    }

    open spec fn bitand_req(self, rhs: Self) -> bool {
        true
    }

    open spec fn bitand_spec(self, rhs: Self) -> Self {
        composite(and_operand(self), BooleanOp::And, and_operand(rhs))
    }
}

impl core::ops::BitOr for SubfieldMatcher {
    type Output = Self;

    /// Joins two matchers by `||`.
    fn bitor(self, rhs: Self) -> (r: Self::Output) {
        SubfieldMatcher::Composite { lhs: Box::new(self), op: BooleanOp::Or, rhs: Box::new(rhs) }
    }
}

impl vstd::std_specs::ops::BitOrSpecImpl for SubfieldMatcher {
    open spec fn obeys_bitor_spec() -> bool {
        true
    }

    open spec fn bitor_req(self, rhs: Self) -> bool {
        true
    }

    open spec fn bitor_spec(self, rhs: Self) -> Self {
        composite(self, BooleanOp::Or, rhs)
    }
}

impl core::ops::BitXor for SubfieldMatcher {
    type Output = Self;

    /// Joins two matchers by `^`.
    fn bitxor(self, rhs: Self) -> (r: Self::Output) {
        SubfieldMatcher::Composite {
            lhs: Box::new(self.into_xor_operand()),
            op: BooleanOp::Xor,
            rhs: Box::new(rhs.into_xor_operand()),
        }
    }
}

impl vstd::std_specs::ops::BitXorSpecImpl for SubfieldMatcher {
    open spec fn obeys_bitxor_spec() -> bool {
        true
    }

    open spec fn bitxor_req(self, rhs: Self) -> bool {
        true
    }

    open spec fn bitxor_spec(self, rhs: Self) -> Self {
        composite(xor_operand(self), BooleanOp::Xor, xor_operand(rhs))
    }
}

impl core::ops::Not for SubfieldMatcher {
    type Output = Self;

    /// Negates a matcher.
    fn not(self) -> (r: Self::Output) {
        let plain = match &self {
            SubfieldMatcher::Group(_) | SubfieldMatcher::Not(_) => true,
            SubfieldMatcher::Singleton(SingletonMatcher::Exists(_)) => true,
            _ => false,
        };
        if plain {
            SubfieldMatcher::Not(Box::new(self))
        } else {
            SubfieldMatcher::Not(Box::new(SubfieldMatcher::Group(Box::new(self))))
        }
    }
}

impl vstd::std_specs::ops::NotSpecImpl for SubfieldMatcher {
    open spec fn obeys_not_spec() -> bool {
        true
    }

    open spec fn not_req(self) -> bool {
        true
    }

    open spec fn not_spec(self) -> Self {
        negation(self)
    }
}


impl core::ops::BitAndAssign for SubfieldMatcher {
    /// Joins the matcher and another by `&&`, in place.
    fn bitand_assign(&mut self, rhs: Self)
        ensures
            *final(self) == composite(and_operand(*old(self)), BooleanOp::And, and_operand(rhs)),
    {
        let mut lhs = SubfieldMatcher::placeholder();
        std::mem::swap(self, &mut lhs);
        *self = lhs & rhs;
    }
}


impl core::ops::BitOrAssign for SubfieldMatcher {
    /// Joins the matcher and another by `||`, in place.
    fn bitor_assign(&mut self, rhs: Self)
        ensures
            *final(self) == composite(*old(self), BooleanOp::Or, rhs),
    {
        let mut lhs = SubfieldMatcher::placeholder();
        std::mem::swap(self, &mut lhs);
        *self = lhs | rhs;
    }
}

impl core::ops::BitXorAssign for SubfieldMatcher {
    /// Joins the matcher and another by `^`, in place.
    fn bitxor_assign(&mut self, rhs: Self)
        ensures
            *final(self) == composite(xor_operand(*old(self)), BooleanOp::Xor, xor_operand(rhs)),
    {
        let mut lhs = SubfieldMatcher::placeholder();
        std::mem::swap(self, &mut lhs);
        *self = lhs ^ rhs;
    }
}

} // verus!
