//! The voter capability surface: the ballot shapes a voter can produce on
//! demand, and the closed set of voter kinds the engine dispatches over.
//! Every capability a kind cannot support fails with a typed error rather
//! than a silent default.

use vstd::prelude::*;

use crate::election_profile::CandidateID;
use crate::errors::ElectionError;
use crate::honest_voter::{spec_approval_ballot, spec_rating, HonestVoter, UTILITY_SCALE};
use crate::real_ordinal_voter::RealOrdinalVoter;
use crate::utility_functions::{copy_ids, distinct_ids, group_views, ids_below, ordinal_equal_ok};

verus! {

/// Where a voter honestly puts their approval threshold. The voter approves
/// of every candidate whose utility is at or above the threshold; regardless
/// of the threshold, a voter always approves of at least one candidate
/// (their favorite).
///
/// A custom threshold policy — any function of the whole utility vector — is
/// expressed by computing the bound from the utilities at construction time
/// and passing it as `Preset`.
#[derive(Clone, Copy, Debug, PartialEq, Eq, Structural)]
pub enum ApprovalThresholdBehavior {
    /// Approve of every candidate with utility at or above the mean of the
    /// voter's utilities.
    Mean,
    /// Approve of every candidate with utility at or above this fixed
    /// value, on the same fixed-point scale as the utilities.
    Preset(usize),
}

/// A voter's honest head-to-head verdict between two candidates.
#[derive(Clone, Copy, Debug, PartialEq, Eq, Structural)]
pub enum Preference {
    /// The first candidate has strictly greater utility.
    PrefersFirst,
    /// The second candidate has strictly greater utility.
    PrefersSecond,
    /// Both candidates have exactly equal utility.
    Indifferent,
}

/// The closed set of voter kinds a homogeneous or mixed population can
/// hold, dispatched exhaustively wherever a ballot is requested.
pub enum Voters {
    /// A voter casting every ballot shape off of a utility vector.
    HonestVoter(HonestVoter),
    /// A pre-cast real-world ordinal ballot.
    RealOrdinalVoter(RealOrdinalVoter),
}

/// The voter's internal invariant, whatever its kind.
pub open spec fn voter_inv(v: Voters) -> bool {
    match v {
        Voters::HonestVoter(h) => h.wf(),
        Voters::RealOrdinalVoter(_) => true,
    }
}

/// The voter is well-formed for an `n`-candidate election.
pub open spec fn voter_wf(v: Voters, n: int) -> bool {
    match v {
        Voters::HonestVoter(h) => h.wf() && h.spec_num_candidates() == n,
        Voters::RealOrdinalVoter(r) => r.wf(n),
    }
}

/// The ordinal ballot the voter casts.
pub open spec fn ordinal_ballot_of(v: Voters) -> Seq<CandidateID> {
    match v {
        Voters::HonestVoter(h) => h.cached_ordinal_vote@,
        Voters::RealOrdinalVoter(r) => r.ordinal_ballot@,
    }
}

/// The candidate at the top of the voter's ordinal ballot.
pub open spec fn top_choice_of(v: Voters) -> int {
    ordinal_ballot_of(v)[0].0 as int
}

/// Whether the voter carries a utility model (and hence supports cardinal,
/// approval and head-to-head queries).
pub open spec fn is_honest(v: Voters) -> bool {
    match v {
        Voters::HonestVoter(_) => true,
        Voters::RealOrdinalVoter(_) => false,
    }
}

/// The utility vector of an honest voter (empty for ballot-only kinds).
pub open spec fn utilities_of(v: Voters) -> Seq<usize> {
    match v {
        Voters::HonestVoter(h) => h.utilities@,
        Voters::RealOrdinalVoter(_) => Seq::empty(),
    }
}

/// The scaling flag of an honest voter.
pub open spec fn scales_of(v: Voters) -> bool {
    match v {
        Voters::HonestVoter(h) => h.scales,
        Voters::RealOrdinalVoter(_) => false,
    }
}

/// The rating the voter gives candidate `i` at cardinal range `range`.
pub open spec fn rating_of(v: Voters, range: int, i: int) -> int {
    spec_rating(utilities_of(v), scales_of(v), range, i)
}

/// The approval ballot of an honest voter.
pub open spec fn approval_ballot_of(v: Voters) -> Seq<CandidateID> {
    match v {
        Voters::HonestVoter(h) => spec_approval_ballot(h.utilities@, h.threshold_behavior),
        Voters::RealOrdinalVoter(_) => Seq::empty(),
    }
}

/// The voter strictly prefers candidate `a` over candidate `b`.
pub open spec fn prefers(v: Voters, a: int, b: int) -> bool {
    is_honest(v) && utilities_of(v)[a] > utilities_of(v)[b]
}

/// The two voters differ at most in their lazily filled cardinal-ballot
/// cache: every ballot either ever casts is identical. Ballot calls on a
/// population preserve this relation — a voter's utilities and cast ballots
/// are never mutated by tabulation.
pub open spec fn same_voter(a: Voters, b: Voters) -> bool {
    match (a, b) {
        (Voters::HonestVoter(x), Voters::HonestVoter(y)) => {
            &&& x.utilities == y.utilities
            &&& x.scales == y.scales
            &&& x.threshold_behavior == y.threshold_behavior
            &&& x.cached_ordinal_vote == y.cached_ordinal_vote
            &&& x.cached_ordinal_equal_vote == y.cached_ordinal_equal_vote
            &&& x.cached_approval_ballot == y.cached_approval_ballot
        },
        (Voters::RealOrdinalVoter(x), Voters::RealOrdinalVoter(y)) => x == y,
        _ => false,
    }
}

impl Voters {
    /// The voter's ranking of the candidates, most-preferred first. Every
    /// voter kind supports this shape.
    pub fn cast_ordinal_ballot(&self) -> (r: Vec<CandidateID>)
        ensures
            r@ == ordinal_ballot_of(*self),
    {
        match self {
            Voters::HonestVoter(h) => copy_ids(&h.cached_ordinal_vote),
            Voters::RealOrdinalVoter(v) => copy_ids(&v.ordinal_ballot),
        }
    }

    /// The voter's ranking with equalities, for kinds that can group
    /// candidates by equal value; a pre-cast strict ordinal ballot does not
    /// permit equalities.
    pub fn cast_ordinal_equal_ballot(&self) -> (r: Result<Vec<Vec<CandidateID>>, ElectionError>)
        requires
            voter_inv(*self),
        ensures
            match r {
                Ok(groups) => is_honest(*self) && ordinal_equal_ok(
                    utilities_of(*self),
                    group_views(groups@),
                ),
                Err(e) => !is_honest(*self) && e == ElectionError::UnsupportedCapability,
            },
    {
        match self {
            Voters::HonestVoter(h) => Ok(h.cast_ordinal_equal_ballot()),
            Voters::RealOrdinalVoter(_) => Err(ElectionError::UnsupportedCapability),
        }
    }

    /// The voter's cardinal ballot at range `[0, range]`, for kinds that
    /// carry cardinal information. The ballot is a function of the voter's
    /// immutable state: repeated calls return the identical ballot.
    pub fn cast_cardinal_ballot(&mut self, range: usize) -> (r: Result<Vec<usize>, ElectionError>)
        requires
            voter_inv(*old(self)),
            2 * (range as int) * (UTILITY_SCALE as int) + (UTILITY_SCALE as int)
                <= usize::MAX as int,
        ensures
            voter_inv(*final(self)),
            same_voter(*old(self), *final(self)),
            forall|n: int| voter_wf(*old(self), n) ==> voter_wf(*final(self), n),
            match r {
                Ok(b) => {
                    &&& is_honest(*old(self))
                    &&& b@.len() == utilities_of(*old(self)).len()
                    &&& forall|i: int|
                        0 <= i < b@.len() ==> (#[trigger] b@[i]) as int == rating_of(
                            *old(self),
                            range as int,
                            i,
                        )
                    &&& forall|i: int| 0 <= i < b@.len() ==> (#[trigger] b@[i]) <= range
                },
                Err(e) => !is_honest(*old(self)) && e == ElectionError::UnsupportedCapability,
            },
    {
        match self {
            Voters::HonestVoter(h) => Ok(h.cast_cardinal_ballot(range)),
            Voters::RealOrdinalVoter(_) => Err(ElectionError::UnsupportedCapability),
        }
    }

    /// The voter's approval ballot, for kinds that can derive one. Never
    /// empty when supported.
    pub fn cast_approval_ballot(&self) -> (r: Result<Vec<CandidateID>, ElectionError>)
        requires
            voter_inv(*self),
        ensures
            match r {
                Ok(b) => {
                    &&& is_honest(*self)
                    &&& b@ == approval_ballot_of(*self)
                    &&& 1 <= b@.len()
                    &&& ids_below(b@, utilities_of(*self).len() as int)
                    &&& distinct_ids(b@)
                },
                Err(e) => !is_honest(*self) && e == ElectionError::UnsupportedCapability,
            },
    {
        match self {
            Voters::HonestVoter(h) => Ok(h.cast_approval_ballot()),
            Voters::RealOrdinalVoter(_) => Err(ElectionError::UnsupportedCapability),
        }
    }

    /// Whether the voter honestly likes `first` more, less, or the same as
    /// `second`, for kinds with a utility model.
    pub fn honest_preference(&self, first: CandidateID, second: CandidateID) -> (r: Result<
        Preference,
        ElectionError,
    >)
        requires
            voter_inv(*self),
            is_honest(*self) ==> (first.0 as int) < utilities_of(*self).len() && (
            second.0 as int) < utilities_of(*self).len(),
        ensures
            match r {
                Ok(p) => {
                    &&& is_honest(*self)
                    &&& (p == Preference::PrefersFirst <==> prefers(*self, first.0 as int, second.0 as int))
                    &&& (p == Preference::PrefersSecond <==> prefers(*self, second.0 as int, first.0 as int))
                    &&& (p == Preference::Indifferent <==> utilities_of(*self)[first.0 as int]
                        == utilities_of(*self)[second.0 as int])
                },
                Err(e) => !is_honest(*self) && e == ElectionError::UnsupportedCapability,
            },
    {
        match self {
            Voters::HonestVoter(h) => Ok(h.honest_preference(first, second)),
            Voters::RealOrdinalVoter(_) => Err(ElectionError::UnsupportedCapability),
        }
    }

    /// The voter's raw utility vector, for kinds that carry one.
    pub fn utilities(&self) -> (r: Result<Vec<usize>, ElectionError>)
        requires
            voter_inv(*self),
        ensures
            match r {
                Ok(u) => is_honest(*self) && u@ == utilities_of(*self),
                Err(e) => !is_honest(*self) && e == ElectionError::UnsupportedCapability,
            },
    {
        match self {
            Voters::HonestVoter(h) => Ok(h.utilities()),
            Voters::RealOrdinalVoter(_) => Err(ElectionError::UnsupportedCapability),
        }
    }

    /// The voter's raw utility for one candidate, for kinds that carry a
    /// utility model.
    pub fn candidate_utility(&self, id: CandidateID) -> (r: Result<usize, ElectionError>)
        requires
            voter_inv(*self),
            is_honest(*self) ==> (id.0 as int) < utilities_of(*self).len(),
        ensures
            match r {
                Ok(u) => is_honest(*self) && u == utilities_of(*self)[id.0 as int],
                Err(e) => !is_honest(*self) && e == ElectionError::UnsupportedCapability,
            },
    {
        match self {
            Voters::HonestVoter(h) => Ok(h.candidate_utility(id)),
            Voters::RealOrdinalVoter(_) => Err(ElectionError::UnsupportedCapability),
        }
    }
}

} // verus!
