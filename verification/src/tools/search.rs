//! The filters of a search.

use vstd::prelude::*;

verus! {

/// What a search is restricted to: memories that apply to all of the named
/// domains, skills, projects and situations.
#[derive(Clone, Debug, PartialEq, Eq)]
pub struct AppliesTo {
    pub domains: Option<Vec<String>>,
    pub skills: Option<Vec<String>>,
    pub projects: Option<Vec<String>>,
    pub situations: Option<Vec<String>>,
}

impl Default for AppliesTo {
    /// No restriction.
    fn default() -> (r: AppliesTo)
        ensures
            r.domains is None,
            r.skills is None,
            r.projects is None,
            r.situations is None,
    {
        AppliesTo { domains: None, skills: None, projects: None, situations: None }
    }
}

/// A restriction to memories with an external reference of the given kind, and
/// with the given value where there is one.
#[derive(Clone, Debug, PartialEq, Eq)]
pub struct RefFilter {
    pub kind: String,
    pub ref_value: Option<String>,
}

} // verus!
