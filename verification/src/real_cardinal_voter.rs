//! A voter that represents a real cardinal ballot of fixed range — for
//! example, a real voter's 0-10 score ballot. The ordinal and
//! ordinal-with-equality ballots, and (for range 1) the approval ballot, are
//! derived from the ratings at construction; an approval ballot is never
//! empty — when no candidate is rated 1, the voter still approves of their
//! top choice. A cardinal ballot at any other range, and every
//! utility-based capability, fails with a typed error: honesty cannot be
//! inferred from a real ballot.

use vstd::prelude::*;

use crate::election_profile::CandidateID;
use crate::errors::ElectionError;
use crate::tie_breaker::TieBreaker;
use crate::utility_functions::{
    approval_list, build_equal_groups, copy_ids, copy_usizes, generate_candidates, group_views,
    is_ranking, ordinal_equal_ok, sort_candidates_by_vec, tally_beats,
};
use crate::voters::Preference;

verus! {

/// A real cardinal ballot of fixed range, with its derived ballots.
pub struct RealCardinalVoter {
    /// The rating range the ballot was cast at: ratings lie in `[0, range]`.
    pub range: usize,
    /// `cardinal_ballot[c]` is the rating cast for `CandidateID(c)`.
    pub cardinal_ballot: Vec<usize>,
    /// For a range-1 ballot, the candidates rated 1 — or the top choice of
    /// the derived ordinal ballot when no candidate is rated 1, so the
    /// ballot is never empty. Absent for any other range.
    pub approval_ballot: Option<Vec<CandidateID>>,
    /// Candidates grouped by exactly equal rating, groups in descending
    /// rating order.
    pub ordinal_equal_ballot: Vec<Vec<CandidateID>>,
    /// The candidates ranked by descending rating, rating ties resolved by
    /// the tie-breaker supplied at construction.
    pub ordinal_ballot: Vec<CandidateID>,
}

/// The approval ballot a range-1 cardinal ballot denotes: the candidates
/// rated 1, or — when none is — the head of the derived ordinal ballot, so
/// that the voter approves of at least their top choice.
pub open spec fn spec_real_approval_ballot(
    ballot: Seq<usize>,
    ordinal: Seq<CandidateID>,
) -> Seq<CandidateID> {
    let l = approval_list(ballot, 1, ballot.len() as int);
    if l.len() > 0 {
        l
    } else {
        seq![ordinal[0]]
    }
}

impl RealCardinalVoter {
    /// The number of candidates this voter rates.
    pub open spec fn spec_num_candidates(self) -> int {
        self.cardinal_ballot@.len() as int
    }

    /// Internal consistency: ratings are within the range and every derived
    /// ballot matches the ratings.
    pub open spec fn wf(self) -> bool {
        let n = self.cardinal_ballot@.len() as int;
        &&& 1 <= n
        &&& forall|i: int|
            0 <= i < n ==> (#[trigger] self.cardinal_ballot@[i]) <= self.range
        &&& is_ranking(self.ordinal_ballot@, n)
        &&& forall|i: int, j: int|
            0 <= i < j < n ==> self.cardinal_ballot@[(#[trigger] self.ordinal_ballot@[i]).0 as int]
                >= self.cardinal_ballot@[(#[trigger] self.ordinal_ballot@[j]).0 as int]
        &&& ordinal_equal_ok(self.cardinal_ballot@, group_views(self.ordinal_equal_ballot@))
        &&& match self.approval_ballot {
            Some(a) => self.range == 1 && a@ == spec_real_approval_ballot(
                self.cardinal_ballot@,
                self.ordinal_ballot@,
            ),
            None => self.range != 1,
        }
    }

    /// Builds a voter from a cast cardinal ballot of the given range, using
    /// the tie-breaker to order candidates with equal ratings in the derived
    /// ordinal ballot (the tie-breaker's lesser candidate ranks earlier).
    pub fn new(range: usize, ballot: Vec<usize>, tiebreaker: &TieBreaker) -> (r: RealCardinalVoter)
        requires
            1 <= ballot@.len(),
            tiebreaker.wf(ballot@.len()),
            forall|i: int| 0 <= i < ballot@.len() ==> (#[trigger] ballot@[i]) <= range,
        ensures
            r.wf(),
            r.range == range,
            r.cardinal_ballot == ballot,
            forall|i: int, j: int|
                0 <= i < j < r.ordinal_ballot@.len() ==> {
                    let a = (#[trigger] r.ordinal_ballot@[i]).0 as int;
                    let b = (#[trigger] r.ordinal_ballot@[j]).0 as int;
                    ballot@[a] > ballot@[b] || (ballot@[a] == ballot@[b]
                        && tiebreaker.spec_prefers(b, a))
                },
    {
        let n = ballot.len();

        let rev = tiebreaker.reversed();
        let mut ordinal_ballot = generate_candidates(n);
        sort_candidates_by_vec(&mut ordinal_ballot, &ballot, &rev);
        proof {
            assert forall|i: int, j: int| 0 <= i < j < ordinal_ballot@.len() implies {
                let a = (#[trigger] ordinal_ballot@[i]).0 as int;
                let b = (#[trigger] ordinal_ballot@[j]).0 as int;
                ballot@[a] > ballot@[b] || (ballot@[a] == ballot@[b] && tiebreaker.spec_prefers(
                    b,
                    a,
                ))
            } by {
                assert(tally_beats(ballot@, rev, ordinal_ballot@[i].0 as int, ordinal_ballot@[j].0 as int));
            }
        }

        let approval_ballot = if range == 1 {
            let mut a: Vec<CandidateID> = Vec::new();
            let mut i: usize = 0;
            while i < n
                invariant
                    i <= n,
                    n == ballot@.len(),
                    forall|k: int| 0 <= k < n ==> (#[trigger] ballot@[k]) <= 1,
                    a@ == approval_list(ballot@, 1, i as int),
                decreases n - i,
            {
                if ballot[i] == 1 {
                    a.push(CandidateID(i));
                }
                i = i + 1;
            }
            if a.len() == 0 {
                // No candidate is rated 1: the voter still approves of
                // their top choice.
                a.push(ordinal_ballot[0]);
            }
            proof {
                assert(a@ == spec_real_approval_ballot(ballot@, ordinal_ballot@));
            }
            Some(a)
        } else {
            None
        };

        let ordinal_equal_ballot = build_equal_groups(&ballot);

        RealCardinalVoter {
            range,
            cardinal_ballot: ballot,
            approval_ballot,
            ordinal_equal_ballot,
            ordinal_ballot,
        }
    }

    /// The derived ranking, most-preferred first.
    pub fn cast_ordinal_ballot(&self) -> (r: Vec<CandidateID>)
        requires
            self.wf(),
        ensures
            r@ == self.ordinal_ballot@,
            is_ranking(r@, self.spec_num_candidates()),
    {
        copy_ids(&self.ordinal_ballot)
    }

    /// The derived ranking with equalities: candidates grouped by exactly
    /// equal rating, groups in descending rating order.
    pub fn cast_ordinal_equal_ballot(&self) -> (r: Vec<Vec<CandidateID>>)
        requires
            self.wf(),
        ensures
            group_views(r@) == group_views(self.ordinal_equal_ballot@),
            ordinal_equal_ok(self.cardinal_ballot@, group_views(r@)),
    {
        let cached = &self.ordinal_equal_ballot;
        let mut r: Vec<Vec<CandidateID>> = Vec::new();
        let mut g: usize = 0;
        while g < cached.len()
            invariant
                g <= cached@.len(),
                r@.len() == g,
                forall|k: int| 0 <= k < g ==> (#[trigger] r@[k])@ == cached@[k]@,
            decreases cached@.len() - g,
        {
            r.push(copy_ids(&cached[g]));
            g = g + 1;
        }
        proof {
            assert(group_views(r@) =~= group_views(self.ordinal_equal_ballot@));
        }
        r
    }

    /// The ballot as cast, if queried at the range it was cast at; a
    /// `RangeMismatch` error at any other range.
    pub fn cast_cardinal_ballot(&self, range: usize) -> (r: Result<Vec<usize>, ElectionError>)
        requires
            self.wf(),
        ensures
            match r {
                Ok(b) => range == self.range && b@ == self.cardinal_ballot@,
                Err(e) => range != self.range && e == ElectionError::RangeMismatch,
            },
    {
        if range == self.range {
            Ok(copy_usizes(&self.cardinal_ballot))
        } else {
            Err(ElectionError::RangeMismatch)
        }
    }

    /// The candidates rated 1 on a range-1 ballot — never empty: when no
    /// candidate is rated 1, the voter's top choice is approved. An error
    /// for any other range, where no approval ballot can be derived.
    pub fn cast_approval_ballot(&self) -> (r: Result<Vec<CandidateID>, ElectionError>)
        requires
            self.wf(),
        ensures
            match r {
                Ok(b) => {
                    &&& self.range == 1
                    &&& b@ == spec_real_approval_ballot(self.cardinal_ballot@, self.ordinal_ballot@)
                    &&& 1 <= b@.len()
                },
                Err(e) => self.range != 1 && e == ElectionError::UnsupportedCapability,
            },
    {
        match &self.approval_ballot {
            Some(a) => Ok(copy_ids(a)),
            None => Err(ElectionError::UnsupportedCapability),
        }
    }

    /// A real ballot carries no honesty to infer: always an error.
    pub fn honest_preference(&self, first: CandidateID, second: CandidateID) -> (r: Result<
        Preference,
        ElectionError,
    >)
        ensures
            r == Err::<Preference, ElectionError>(ElectionError::UnsupportedCapability),
    {
        let _ = first;
        let _ = second;
        Err(ElectionError::UnsupportedCapability)
    }

    /// A real ballot carries no utility information: always an error.
    pub fn utilities(&self) -> (r: Result<Vec<usize>, ElectionError>)
        ensures
            r == Err::<Vec<usize>, ElectionError>(ElectionError::UnsupportedCapability),
    {
        Err(ElectionError::UnsupportedCapability)
    }

    /// A real ballot carries no utility information: always an error.
    pub fn candidate_utility(&self, id: CandidateID) -> (r: Result<usize, ElectionError>)
        ensures
            r == Err::<usize, ElectionError>(ElectionError::UnsupportedCapability),
    {
        let _ = id;
        Err(ElectionError::UnsupportedCapability)
    }
}

} // verus!
