//! A voter that represents an actual cast ordinal ballot — for example,
//! imported real-world ranked-choice data. It carries only that ranking:
//! every other capability (cardinal, approval, utility, head-to-head
//! preference) requires information this voter does not have and fails with
//! a typed error at the dispatch layer.

use vstd::prelude::*;

use crate::election_profile::CandidateID;
use crate::utility_functions::{copy_ids, distinct_ids, ids_below};

verus! {

/// A real-world ordinal ballot: a ranked list of candidates, most-preferred
/// first. The ballot may be partial (it need not mention every candidate),
/// but it never ranks a candidate twice and is never empty.
pub struct RealOrdinalVoter {
    /// The pre-cast ranking, most-preferred first.
    pub ordinal_ballot: Vec<CandidateID>,
}

impl RealOrdinalVoter {
    /// Valid for an `n`-candidate election: non-empty, in-range, no repeats.
    pub open spec fn wf(self, n: int) -> bool {
        &&& 1 <= self.ordinal_ballot@.len()
        &&& ids_below(self.ordinal_ballot@, n)
        &&& distinct_ids(self.ordinal_ballot@)
    }

    /// Wraps a pre-cast ordinal ballot.
    pub fn new(ballot: Vec<CandidateID>) -> (r: RealOrdinalVoter)
        ensures
            r.ordinal_ballot == ballot,
    {
        RealOrdinalVoter { ordinal_ballot: ballot }
    }

    /// The ballot as cast.
    pub fn cast_ordinal_ballot(&self) -> (r: Vec<CandidateID>)
        ensures
            r@ == self.ordinal_ballot@,
    {
        copy_ids(&self.ordinal_ballot)
    }
}

} // verus!
