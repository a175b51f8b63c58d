//! Error taxonomy of the search engine.
//!
//! An empty generator range always indicates a defect in the replay logic,
//! never bad input data.  A missing catalog or jump-table entry aborts only
//! the evaluation of the current seed.  `NoOpenCandidate` is reported when the
//! filter tables leave no id that a stock slot could ever commit, a situation
//! in which the scan would otherwise never finish.

use vstd::prelude::*;

verus! {

#[derive(Clone, Copy, Debug, PartialEq, Eq, Structural)]
pub enum SearchError {
    /// A zero-width or inverted range was requested from a generator.
    EmptyRange,
    /// An id survived the filters but has no catalog entry.
    ObjectInformationMissing,
    /// An id has no entry in the fast-exclude jump table.
    FastExcludeMissing,
    /// The filter tables exclude every id, so no stock slot can be filled.
    NoOpenCandidate,
}

impl SearchError {
    /// A short human-readable description of the error.
    pub fn message(&self) -> (r: &'static str)
        ensures
            r@ == self.spec_message(),
    {
        match self {
            SearchError::EmptyRange => "empty range requested from the generator",
            SearchError::ObjectInformationMissing => "issue with object information",
            SearchError::FastExcludeMissing => "issue with fast exclude",
            SearchError::NoOpenCandidate => "filter tables leave no open candidate",
        }
    }

    pub open spec fn spec_message(&self) -> Seq<char> {
        match self {
            SearchError::EmptyRange => "empty range requested from the generator"@,
            SearchError::ObjectInformationMissing => "issue with object information"@,
            SearchError::FastExcludeMissing => "issue with fast exclude"@,
            SearchError::NoOpenCandidate => "filter tables leave no open candidate"@,
        }
    }
}

} // verus!
