//! An `ElectionProfile` represents one election instance as a system: the
//! voter population, the candidate set, and the tie-breaker. Constructed
//! once per simulated election, read-only for the duration of tabulation,
//! and discarded after the ranking is produced.

use vstd::prelude::*;

use crate::tie_breaker::TieBreaker;
use crate::utility_functions::generate_candidates;
use crate::voters::{voter_wf, Voters};

verus! {

/// Identifies a candidate within a fixed-size election: an index in
/// `[0, num_candidates)`. Never reused across elections of different sizes.
#[derive(Clone, Copy, Debug, PartialEq, Eq, Structural)]
pub struct CandidateID(pub usize);

/// The bundle of voters, candidates and tie-breaker defining one election.
pub struct ElectionProfile {
    /// The voter population.
    pub voters: Vec<Voters>,
    /// The candidate list, `CandidateID(0)` through `CandidateID(n - 1)`.
    pub candidates: Vec<CandidateID>,
    /// The tie-breaker every method of this election uses.
    pub tie_breaker: TieBreaker,
}

impl ElectionProfile {
    /// Every voter and the tie-breaker fit the election's candidate count,
    /// and the candidate list is the dense index list.
    pub open spec fn wf(self) -> bool {
        let n = self.candidates@.len() as int;
        &&& forall|i: int| 0 <= i < n ==> (#[trigger] self.candidates@[i]).0 as int == i
        &&& self.tie_breaker.wf(n as nat)
        &&& forall|i: int| 0 <= i < self.voters@.len() ==> voter_wf(#[trigger] self.voters@[i], n)
    }

    /// Assembles an election over `num_candidates` candidates.
    pub fn new(voters: Vec<Voters>, num_candidates: usize, tie_breaker: TieBreaker) -> (r:
        ElectionProfile)
        requires
            tie_breaker.wf(num_candidates as nat),
            forall|i: int|
                0 <= i < voters@.len() ==> voter_wf(#[trigger] voters@[i], num_candidates as int),
        ensures
            r.wf(),
            r.voters == voters,
            r.candidates@.len() == num_candidates,
            r.tie_breaker == tie_breaker,
    {
        let candidates = generate_candidates(num_candidates);
        ElectionProfile { voters, candidates, tie_breaker }
    }

    /// The voter population, mutably: ballot calls may fill per-voter
    /// caches.
    pub fn get_voters(&mut self) -> (r: &mut Vec<Voters>)
        ensures
            *r == old(self).voters,
            final(self).voters == *final(r),
            final(self).candidates == old(self).candidates,
            final(self).tie_breaker == old(self).tie_breaker,
    {
        &mut self.voters
    }

    /// The number of voters this election has.
    pub fn num_voters(&self) -> (r: usize)
        ensures
            r == self.voters@.len(),
    {
        self.voters.len()
    }

    /// The candidate list.
    pub fn get_candidates(&self) -> (r: &Vec<CandidateID>)
        ensures
            r == &self.candidates,
    {
        &self.candidates
    }

    /// The number of candidates this election has.
    pub fn num_candidates(&self) -> (r: usize)
        ensures
            r == self.candidates@.len(),
    {
        self.candidates.len()
    }

    /// The tie-breaker this election uses.
    pub fn get_tie_breaker(&self) -> (r: &TieBreaker)
        ensures
            r == &self.tie_breaker,
    {
        &self.tie_breaker
    }
}

} // verus!
