use vstd::prelude::*;

verus! {

/// Options that change how matchers compare values.
///
/// The similarity threshold is given in thousandths: a value of `800`
/// stands for a normalized Levenshtein score of `0.8`.
#[derive(Debug, Clone, Copy, PartialEq, Eq)]
pub struct MatcherOptions {
    pub(crate) strsim_threshold: u32,
    pub(crate) case_ignore: bool,
}

impl MatcherOptions {
    /// Whether values are compared without regard to case.
    pub closed spec fn spec_case_ignore(&self) -> bool {
        self.case_ignore
    }

    /// The similarity threshold, in thousandths.
    pub closed spec fn spec_strsim_threshold(&self) -> u32 {
        self.strsim_threshold
    }

    /// Whether values are compared without regard to case.
    pub(crate) fn ignores_case(&self) -> (r: bool)
        ensures
            r == self.spec_case_ignore(),
    {
        self.case_ignore
    }

    /// The similarity threshold, in thousandths.
    pub(crate) fn threshold(&self) -> (r: u32)
        ensures
            r == self.spec_strsim_threshold(),
    {
        self.strsim_threshold
    }

    /// The default options: case-sensitive, threshold `800`.
    pub fn new() -> (r: Self)
        ensures
            !r.spec_case_ignore(),
            r.spec_strsim_threshold() == 800,
    {
        MatcherOptions { strsim_threshold: 800, case_ignore: false }
    }

    /// Sets whether values are compared without regard to case.
    pub fn case_ignore(self, yes: bool) -> (r: Self)
        ensures
            r.spec_case_ignore() == yes,
            r.spec_strsim_threshold() == self.spec_strsim_threshold(),
    {
        MatcherOptions { case_ignore: yes, ..self }
    }

    /// Sets the similarity threshold, in thousandths.
    pub fn strsim_threshold(self, threshold: u32) -> (r: Self)
        ensures
            r.spec_case_ignore() == self.spec_case_ignore(),
            r.spec_strsim_threshold() == threshold,
    {
        MatcherOptions { strsim_threshold: threshold, ..self }
    }
}

impl Default for MatcherOptions {
    fn default() -> (r: Self)
        ensures
            !r.spec_case_ignore(),
            r.spec_strsim_threshold() == 800,
    {
        Self::new()
    }
}

} // verus!
