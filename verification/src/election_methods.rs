//! The voting methods themselves. Each method takes the voter population,
//! the number of candidates, and a tie-breaker, and returns a full ranking
//! of the candidates in order of finish: entry 0 is the winner, entry 1 the
//! runner-up, and so on. Methods that need a capability some voter kind
//! lacks (utilities, cardinal ballots, approval ballots) return a typed
//! error instead.

use vstd::prelude::*;

use crate::election_profile::CandidateID;
use crate::errors::ElectionError;
use crate::honest_voter::UTILITY_SCALE;
use crate::tie_breaker::TieBreaker;
use crate::utility_functions::{
    generate_candidates, is_ranking, sort_candidates_by_vec, sorted_by_tally,
};
use crate::voters::{
    is_honest, ordinal_ballot_of, prefers, same_voter, top_choice_of, utilities_of, voter_wf,
    Preference, Voters,
};

verus! {

/// Every voter in the population fits an `n`-candidate election.
pub open spec fn all_voters_wf(voters: Seq<Voters>, n: int) -> bool {
    forall|i: int| 0 <= i < voters.len() ==> voter_wf(#[trigger] voters[i], n)
}

/// Every voter in the population carries a utility model.
pub open spec fn all_honest(voters: Seq<Voters>) -> bool {
    forall|i: int| 0 <= i < voters.len() ==> is_honest(#[trigger] voters[i])
}

/// The number of voters whose top ordinal choice is candidate `c`.
pub open spec fn plurality_tally(voters: Seq<Voters>, c: int) -> nat
    decreases voters.len(),
{
    if voters.len() == 0 {
        0
    } else {
        plurality_tally(voters.drop_last(), c) + if top_choice_of(voters.last()) == c {
            1nat
        } else {
            0nat
        }
    }
}

pub proof fn lemma_plurality_tally_le(voters: Seq<Voters>, c: int)
    ensures
        plurality_tally(voters, c) <= voters.len(),
    decreases voters.len(),
{
    if voters.len() > 0 {
        lemma_plurality_tally_le(voters.drop_last(), c);
    }
}

/// The per-candidate plurality key vector of an `n`-candidate election.
pub open spec fn plurality_key(voters: Seq<Voters>, n: int) -> Seq<usize> {
    Seq::new(n as nat, |c: int| plurality_tally(voters, c) as usize)
}

/// `r` is the plurality (first-past-the-post) ranking of the election:
/// a full ranking sorted descending on first-preference votes, ties broken
/// by the tie-breaker.
pub open spec fn is_plurality_ranking(
    voters: Seq<Voters>,
    n: int,
    tb: TieBreaker,
    r: Seq<CandidateID>,
) -> bool {
    &&& is_ranking(r, n)
    &&& sorted_by_tally(plurality_key(voters, n), tb, r)
}

/// The number of voters who strictly prefer candidate `a` over `b`.
pub open spec fn runoff_count(voters: Seq<Voters>, a: int, b: int) -> nat
    decreases voters.len(),
{
    if voters.len() == 0 {
        0
    } else {
        runoff_count(voters.drop_last(), a, b) + if prefers(voters.last(), a, b) {
            1nat
        } else {
            0nat
        }
    }
}

/// The winner of an honest head-to-head runoff between `first` and
/// `second`: whichever more voters strictly prefer, a tie going to the
/// tie-breaker's choice between the two candidate indices.
pub open spec fn runoff_winner(
    voters: Seq<Voters>,
    tb: TieBreaker,
    first: CandidateID,
    second: CandidateID,
) -> CandidateID {
    let ca = runoff_count(voters, first.0 as int, second.0 as int);
    let cb = runoff_count(voters, second.0 as int, first.0 as int);
    if ca > cb {
        first
    } else if cb > ca {
        second
    } else if tb.spec_prefers(first.0 as int, second.0 as int) {
        first
    } else {
        second
    }
}

/// The ranking with its top two entries exchanged.
pub open spec fn swap_top_two(r: Seq<CandidateID>) -> Seq<CandidateID> {
    r.update(0, r[1]).update(1, r[0])
}

/// The first-stage ranking `p`, with its top two entries exchanged exactly
/// when the head-to-head runoff goes to the runner-up. Lower ranks are
/// deliberately left unchanged: the runoff only recomputes the 1st/2nd
/// relationship.
pub open spec fn runoff_adjust(
    voters: Seq<Voters>,
    tb: TieBreaker,
    p: Seq<CandidateID>,
) -> Seq<CandidateID> {
    if runoff_winner(voters, tb, p[0], p[1]) == p[1] {
        swap_top_two(p)
    } else {
        p
    }
}

/// The number of times candidate `c` occurs on a ballot.
pub open spec fn count_in_ballot(ballot: Seq<CandidateID>, c: int) -> nat
    decreases ballot.len(),
{
    if ballot.len() == 0 {
        0
    } else {
        count_in_ballot(ballot.drop_last(), c) + if ballot.last().0 as int == c {
            1nat
        } else {
            0nat
        }
    }
}

pub proof fn lemma_count_in_ballot_zero(ballot: Seq<CandidateID>, c: int)
    requires
        forall|k: int| 0 <= k < ballot.len() ==> (#[trigger] ballot[k]).0 as int != c,
    ensures
        count_in_ballot(ballot, c) == 0,
    decreases ballot.len(),
{
    if ballot.len() > 0 {
        lemma_count_in_ballot_zero(ballot.drop_last(), c);
    }
}

pub proof fn lemma_count_in_ballot_le_one(ballot: Seq<CandidateID>, c: int)
    requires
        crate::utility_functions::distinct_ids(ballot),
    ensures
        count_in_ballot(ballot, c) <= 1,
    decreases ballot.len(),
{
    if ballot.len() > 0 {
        if ballot.last().0 as int == c {
            lemma_count_in_ballot_zero(ballot.drop_last(), c);
        } else {
            lemma_count_in_ballot_le_one(ballot.drop_last(), c);
        }
    }
}

/// The number of voters whose approval ballot contains candidate `c`
/// (ballots never list a candidate twice).
pub open spec fn approval_tally(voters: Seq<Voters>, c: int) -> nat
    decreases voters.len(),
{
    if voters.len() == 0 {
        0
    } else {
        approval_tally(voters.drop_last(), c) + count_in_ballot(
            crate::voters::approval_ballot_of(voters.last()),
            c,
        )
    }
}

pub proof fn lemma_approval_tally_le(voters: Seq<Voters>, n: int, c: int)
    requires
        all_voters_wf(voters, n),
    ensures
        approval_tally(voters, c) <= voters.len(),
    decreases voters.len(),
{
    if voters.len() > 0 {
        assert(all_voters_wf(voters.drop_last(), n));
        lemma_approval_tally_le(voters.drop_last(), n, c);
        let v = voters.last();
        assert(voter_wf(v, n));
        match v {
            Voters::HonestVoter(h) => {
                assert(crate::voters::approval_ballot_of(v) == h.cached_approval_ballot@);
                lemma_count_in_ballot_le_one(crate::voters::approval_ballot_of(v), c);
            },
            Voters::RealOrdinalVoter(_) => {
                lemma_count_in_ballot_zero(crate::voters::approval_ballot_of(v), c);
            },
        }
    }
}

/// The per-candidate approval key vector of an `n`-candidate election.
pub open spec fn approval_key(voters: Seq<Voters>, n: int) -> Seq<usize> {
    Seq::new(n as nat, |c: int| approval_tally(voters, c) as usize)
}

/// `r` is the approval ranking: a full ranking sorted descending on
/// approval count, ties broken by the tie-breaker.
pub open spec fn is_approval_ranking(
    voters: Seq<Voters>,
    n: int,
    tb: TieBreaker,
    r: Seq<CandidateID>,
) -> bool {
    &&& is_ranking(r, n)
    &&& sorted_by_tally(approval_key(voters, n), tb, r)
}

/// The sum of the ratings candidate `c` receives at cardinal range `range`.
pub open spec fn score_tally(voters: Seq<Voters>, range: int, c: int) -> int
    decreases voters.len(),
{
    if voters.len() == 0 {
        0
    } else {
        score_tally(voters.drop_last(), range, c) + crate::voters::rating_of(
            voters.last(),
            range,
            c,
        )
    }
}

pub proof fn lemma_score_tally_bounds(voters: Seq<Voters>, n: int, range: int, c: int)
    requires
        all_voters_wf(voters, n),
        all_honest(voters),
        0 <= c < n,
        0 <= range,
    ensures
        0 <= score_tally(voters, range, c) <= voters.len() * range,
    decreases voters.len(),
{
    if voters.len() == 0 {
        assert(voters.len() * range == 0) by (nonlinear_arith)
            requires voters.len() == 0;
    } else {
        assert(all_voters_wf(voters.drop_last(), n));
        assert(all_honest(voters.drop_last()));
        lemma_score_tally_bounds(voters.drop_last(), n, range, c);
        let v = voters.last();
        assert(voter_wf(v, n));
        assert(is_honest(v));
        match v {
            Voters::HonestVoter(h) => {
                crate::honest_voter::lemma_rating_bounds(h.utilities@, h.scales, range, c);
            },
            Voters::RealOrdinalVoter(_) => {},
        }
        assert((voters.len() - 1) * range + range == voters.len() * range) by (nonlinear_arith);
    }
}

/// The per-candidate score key vector of an `n`-candidate election at
/// cardinal range `range`.
pub open spec fn score_key(voters: Seq<Voters>, n: int, range: int) -> Seq<usize> {
    Seq::new(n as nat, |c: int| score_tally(voters, range, c) as usize)
}

/// `r` is the score ranking at range `range`: a full ranking sorted
/// descending on summed rating, ties broken by the tie-breaker.
pub open spec fn is_score_ranking(
    voters: Seq<Voters>,
    n: int,
    range: int,
    tb: TieBreaker,
    r: Seq<CandidateID>,
) -> bool {
    &&& is_ranking(r, n)
    &&& sorted_by_tally(score_key(voters, n, range), tb, r)
}

/// Populations whose voters pairwise differ at most in their ballot caches
/// tally identically.
pub proof fn lemma_runoff_count_stable(v1: Seq<Voters>, v2: Seq<Voters>, a: int, b: int)
    requires
        v1.len() == v2.len(),
        forall|k: int| 0 <= k < v1.len() ==> same_voter(#[trigger] v1[k], #[trigger] v2[k]),
    ensures
        runoff_count(v1, a, b) == runoff_count(v2, a, b),
    decreases v1.len(),
{
    if v1.len() > 0 {
        lemma_runoff_count_stable(v1.drop_last(), v2.drop_last(), a, b);
        assert(same_voter(v1.last(), v2.last()));
    }
}

/// Namespace for the voting-method implementations.
pub struct ElectionMethods;

/// The registry of methods that consume ordinal ballots.
#[derive(Clone, Copy, Debug, PartialEq, Eq, Structural)]
pub enum OrdinalMethod {
    Plurality,
    FptpRunoff,
    ContingentVote,
    Irv,
}

/// The registry of methods that consume cardinal or approval ballots.
#[derive(Clone, Copy, Debug, PartialEq, Eq, Structural)]
pub enum CardinalMethod {
    Approval,
    ApprovalRunoff,
    Score5,
    Score10,
    Score100,
    Score5Runoff,
    Score10Runoff,
    Score100Runoff,
    Star5,
    Star10,
    Star100,
}

/// What a successful run of each ordinal-ballot method returns.
pub open spec fn ordinal_result_ok(
    method: OrdinalMethod,
    voters: Seq<Voters>,
    n: int,
    tb: TieBreaker,
    rk: Seq<CandidateID>,
) -> bool {
    match method {
        OrdinalMethod::Plurality => is_plurality_ranking(voters, n, tb, rk),
        OrdinalMethod::FptpRunoff => exists|p: Seq<CandidateID>|
            #[trigger] is_plurality_ranking(voters, n, tb, p) && rk == runoff_adjust(voters, tb, p),
        OrdinalMethod::ContingentVote => exists|p: Seq<CandidateID>|
            #[trigger] is_plurality_ranking(voters, n, tb, p) && rk == contingent_adjust(
                voters,
                tb,
                p,
            ),
        OrdinalMethod::Irv => irv_correct(voters, tb, rk),
    }
}

/// What a successful run of each cardinal-ballot method returns.
pub open spec fn cardinal_result_ok(
    method: CardinalMethod,
    voters: Seq<Voters>,
    n: int,
    tb: TieBreaker,
    rk: Seq<CandidateID>,
) -> bool {
    match method {
        CardinalMethod::Approval => is_approval_ranking(voters, n, tb, rk),
        CardinalMethod::ApprovalRunoff => exists|p: Seq<CandidateID>|
            #[trigger] is_approval_ranking(voters, n, tb, p) && rk == runoff_adjust(voters, tb, p),
        CardinalMethod::Score5 => is_score_ranking(voters, n, 5, tb, rk),
        CardinalMethod::Score10 => is_score_ranking(voters, n, 10, tb, rk),
        CardinalMethod::Score100 => is_score_ranking(voters, n, 100, tb, rk),
        CardinalMethod::Score5Runoff => exists|p: Seq<CandidateID>|
            #[trigger] is_score_ranking(voters, n, 5, tb, p) && rk == runoff_adjust(voters, tb, p),
        CardinalMethod::Score10Runoff => exists|p: Seq<CandidateID>|
            #[trigger] is_score_ranking(voters, n, 10, tb, p) && rk == runoff_adjust(voters, tb, p),
        CardinalMethod::Score100Runoff => exists|p: Seq<CandidateID>|
            #[trigger] is_score_ranking(voters, n, 100, tb, p) && rk == runoff_adjust(
                voters,
                tb,
                p,
            ),
        CardinalMethod::Star5 => exists|p: Seq<CandidateID>|
            #[trigger] is_score_ranking(voters, n, 5, tb, p) && rk == star_adjust(voters, 5, tb, p),
        CardinalMethod::Star10 => exists|p: Seq<CandidateID>|
            #[trigger] is_score_ranking(voters, n, 10, tb, p) && rk == star_adjust(
                voters,
                10,
                tb,
                p,
            ),
        CardinalMethod::Star100 => exists|p: Seq<CandidateID>|
            #[trigger] is_score_ranking(voters, n, 100, tb, p) && rk == star_adjust(
                voters,
                100,
                tb,
                p,
            ),
    }
}

/// Collects every voter's cardinal ballot at range `range`, failing when a
/// voter kind carries no cardinal information. On success, ballot `k` is
/// exactly the rating vector voter `k` dictates.
fn collect_cardinal_ballots(voters: &mut Vec<Voters>, range: usize) -> (r: Result<
    Vec<Vec<usize>>,
    ElectionError,
>)
    requires
        forall|k: int|
            0 <= k < old(voters)@.len() ==> crate::voters::voter_inv(#[trigger] old(voters)@[k]),
        2 * (range as int) * (UTILITY_SCALE as int) + (UTILITY_SCALE as int) <= usize::MAX as int,
    ensures
        final(voters)@.len() == old(voters)@.len(),
        forall|k: int|
            0 <= k < old(voters)@.len() ==> same_voter(
                #[trigger] old(voters)@[k],
                final(voters)@[k],
            ),
        forall|k: int|
            0 <= k < final(voters)@.len() ==> crate::voters::voter_inv(#[trigger] final(voters)@[k]),
        forall|k: int, n: int|
            0 <= k < old(voters)@.len() && #[trigger] voter_wf(old(voters)@[k], n)
                ==> #[trigger] voter_wf(final(voters)@[k], n),
        match r {
            Ok(bs) => {
                &&& all_honest(old(voters)@)
                &&& bs@.len() == old(voters)@.len()
                &&& forall|k: int|
                    0 <= k < bs@.len() ==> (#[trigger] bs@[k])@.len() == utilities_of(
                        old(voters)@[k],
                    ).len()
                &&& forall|k: int, c: int|
                    0 <= k < bs@.len() && 0 <= c < bs@[k]@.len()
                        ==> ((#[trigger] bs@[k]@[c]) as int) == crate::voters::rating_of(
                        old(voters)@[k],
                        range as int,
                        c,
                    )
                &&& forall|k: int, c: int|
                    0 <= k < bs@.len() && 0 <= c < bs@[k]@.len() ==> (#[trigger] bs@[k]@[c]) <= range
            },
            Err(e) => !all_honest(old(voters)@) && e == ElectionError::UnsupportedCapability,
        },
{
    let num_voters = voters.len();
    let mut ballots: Vec<Vec<usize>> = Vec::new();
    let mut i: usize = 0;
    while i < num_voters
        invariant
            i <= num_voters,
            num_voters == voters@.len(),
            voters@.len() == old(voters)@.len(),
            2 * (range as int) * (UTILITY_SCALE as int) + (UTILITY_SCALE as int)
                <= usize::MAX as int,
            forall|k: int|
                0 <= k < old(voters)@.len() ==> same_voter(
                    #[trigger] old(voters)@[k],
                    voters@[k],
                ),
            forall|k: int|
                0 <= k < voters@.len() ==> crate::voters::voter_inv(#[trigger] voters@[k]),
            forall|k: int, n: int|
                0 <= k < old(voters)@.len() && #[trigger] voter_wf(old(voters)@[k], n)
                    ==> #[trigger] voter_wf(voters@[k], n),
            forall|k: int| 0 <= k < i ==> is_honest(#[trigger] old(voters)@[k]),
            ballots@.len() == i,
            forall|k: int|
                0 <= k < i ==> (#[trigger] ballots@[k])@.len() == utilities_of(
                    old(voters)@[k],
                ).len(),
            forall|k: int, c: int|
                0 <= k < i && 0 <= c < ballots@[k]@.len()
                    ==> ((#[trigger] ballots@[k]@[c]) as int) == crate::voters::rating_of(
                    old(voters)@[k],
                    range as int,
                    c,
                ),
            forall|k: int, c: int|
                0 <= k < i && 0 <= c < ballots@[k]@.len() ==> (#[trigger] ballots@[k]@[c]) <= range,
        decreases num_voters - i,
    {
        let ghost vpre = voters@;
        let vref = vstd::std_specs::vec::vec_index_mut(voters, i);
        let res = vref.cast_cardinal_ballot(range);
        proof {
            assert(voters@.len() == vpre.len());
            assert forall|k: int| 0 <= k < old(voters)@.len() implies same_voter(
                #[trigger] old(voters)@[k],
                voters@[k],
            ) by {
                if k != i as int {
                    assert(voters@[k] == vpre[k]);
                }
            }
        }
        match res {
            Ok(b) => {
                proof {
                    assert(is_honest(vpre[i as int]));
                    assert(is_honest(old(voters)@[i as int]));
                    assert(utilities_of(old(voters)@[i as int]) == utilities_of(vpre[i as int]));
                }
                ballots.push(b);
            },
            Err(e) => {
                proof {
                    assert(!is_honest(vpre[i as int]));
                    assert(!is_honest(old(voters)@[i as int]));
                }
                return Err(e);
            },
        }
        i = i + 1;
    }
    Ok(ballots)
}

/// Tallies the number of approving voters per candidate and ranks all
/// candidates by descending count. Fails when a voter kind cannot derive an
/// approval ballot.
fn approval_driver(voters: &Vec<Voters>, num_candidates: usize, tie_breaker: &TieBreaker) -> (r:
    Result<Vec<CandidateID>, ElectionError>)
    requires
        1 <= num_candidates,
        tie_breaker.wf(num_candidates as nat),
        all_voters_wf(voters@, num_candidates as int),
    ensures
        match r {
            Ok(rk) => all_honest(voters@) && is_approval_ranking(
                voters@,
                num_candidates as int,
                *tie_breaker,
                rk@,
            ),
            Err(e) => !all_honest(voters@) && e == ElectionError::UnsupportedCapability,
        },
{
    let n = num_candidates;
    let num_voters = voters.len();
    let mut approval_count: Vec<usize> = vec![0; n];
    let mut i: usize = 0;
    while i < num_voters
        invariant
            i <= num_voters,
            num_voters == voters@.len(),
            1 <= n,
            all_voters_wf(voters@, n as int),
            approval_count@.len() == n,
            forall|k: int| 0 <= k < i ==> is_honest(#[trigger] voters@[k]),
            forall|c: int|
                0 <= c < n ==> (#[trigger] approval_count@[c]) as int == approval_tally(
                    voters@.take(i as int),
                    c,
                ),
        decreases num_voters - i,
    {
        proof {
            assert(voter_wf(voters@[i as int], n as int));
        }
        let ballot = match voters[i].cast_approval_ballot() {
            Ok(b) => b,
            Err(e) => {
                return Err(e);
            },
        };
        let ghost outer = approval_count@;
        let ghost bseq = ballot@;
        proof {
            assert forall|c: int| 0 <= c < n implies (#[trigger] outer[c]) as int <= i by {
                assert(all_voters_wf(voters@.take(i as int), n as int));
                lemma_approval_tally_le(voters@.take(i as int), n as int, c);
            }
        }
        let blen = ballot.len();
        let mut j: usize = 0;
        while j < blen
            invariant
                j <= blen,
                blen == bseq.len(),
                ballot@ == bseq,
                i < num_voters,
                num_voters <= usize::MAX,
                approval_count@.len() == n,
                outer.len() == n,
                crate::utility_functions::ids_below(bseq, n as int),
                crate::utility_functions::distinct_ids(bseq),
                forall|c: int| 0 <= c < n ==> (#[trigger] outer[c]) as int <= i,
                forall|c: int|
                    0 <= c < n ==> (#[trigger] approval_count@[c]) as int == outer[c]
                        + count_in_ballot(bseq.take(j as int), c),
            decreases blen - j,
        {
            let id = ballot[j].0;
            proof {
                lemma_count_in_ballot_le_one(bseq.take(j as int), id as int);
                assert forall|k: int|
                    0 <= k < bseq.take(j as int).len() implies (#[trigger] bseq.take(
                    j as int,
                )[k]).0 as int != id as int by {
                    assert(bseq.take(j as int)[k] == bseq[k]);
                }
                lemma_count_in_ballot_zero(bseq.take(j as int), id as int);
            }
            approval_count[id] = approval_count[id] + 1;
            proof {
                let pre = bseq.take(j as int);
                let post = bseq.take(j + 1);
                assert(post.drop_last() =~= pre);
                assert(post.last() == bseq[j as int]);
            }
            j = j + 1;
        }
        proof {
            assert(bseq.take(blen as int) =~= bseq);
            let pre_seq = voters@.take(i as int);
            let post_seq = voters@.take(i + 1);
            assert(post_seq.drop_last() =~= pre_seq);
            assert(post_seq.last() == voters@[i as int]);
            assert(crate::voters::approval_ballot_of(voters@[i as int]) == bseq);
            assert forall|c: int| 0 <= c < n implies (#[trigger] approval_count@[c]) as int
                == approval_tally(post_seq, c) by {
                lemma_approval_tally_le(pre_seq, n as int, c);
            }
        }
        i = i + 1;
    }
    proof {
        assert(voters@.take(num_voters as int) =~= voters@);
    }
    let mut candidates = generate_candidates(n);
    sort_candidates_by_vec(&mut candidates, &approval_count, tie_breaker);
    proof {
        assert(approval_count@ =~= approval_key(voters@, n as int));
    }
    Ok(candidates)
}

/// Tallies each candidate's summed rating at cardinal range `range` and
/// ranks all candidates by descending total. Fails when a voter kind
/// carries no cardinal information.
fn score_driver(
    voters: &mut Vec<Voters>,
    num_candidates: usize,
    tie_breaker: &TieBreaker,
    range: usize,
) -> (r: Result<Vec<CandidateID>, ElectionError>)
    requires
        1 <= num_candidates,
        tie_breaker.wf(num_candidates as nat),
        all_voters_wf(old(voters)@, num_candidates as int),
        old(voters)@.len() * range <= usize::MAX,
        2 * (range as int) * (UTILITY_SCALE as int) + (UTILITY_SCALE as int) <= usize::MAX as int,
    ensures
        final(voters)@.len() == old(voters)@.len(),
        forall|k: int|
            0 <= k < old(voters)@.len() ==> same_voter(
                #[trigger] old(voters)@[k],
                final(voters)@[k],
            ),
        all_voters_wf(final(voters)@, num_candidates as int),
        match r {
            Ok(rk) => all_honest(old(voters)@) && is_score_ranking(
                old(voters)@,
                num_candidates as int,
                range as int,
                *tie_breaker,
                rk@,
            ),
            Err(e) => !all_honest(old(voters)@) && e == ElectionError::UnsupportedCapability,
        },
{
    let n = num_candidates;
    let ghost voters0 = old(voters)@;
    let ballots = match collect_cardinal_ballots(voters, range) {
        Ok(bs) => bs,
        Err(e) => {
            proof {
                assert forall|k: int| 0 <= k < voters@.len() implies voter_wf(
                    #[trigger] voters@[k],
                    n as int,
                ) by {
                    assert(voter_wf(voters0[k], n as int));
                }
            }
            return Err(e);
        },
    };
    proof {
        assert forall|k: int| 0 <= k < voters@.len() implies voter_wf(
            #[trigger] voters@[k],
            n as int,
        ) by {
            assert(voter_wf(voters0[k], n as int));
        }
    }
    let candidates = rank_by_score(&ballots, Ghost(voters0), num_candidates, tie_breaker, range);
    Ok(candidates)
}

/// Ranks all candidates descending by summed rating, given every voter's
/// collected cardinal ballot.
fn rank_by_score(
    ballots: &Vec<Vec<usize>>,
    Ghost(voters0): Ghost<Seq<Voters>>,
    num_candidates: usize,
    tie_breaker: &TieBreaker,
    range: usize,
) -> (r: Vec<CandidateID>)
    requires
        1 <= num_candidates,
        tie_breaker.wf(num_candidates as nat),
        all_voters_wf(voters0, num_candidates as int),
        all_honest(voters0),
        ballots@.len() == voters0.len(),
        voters0.len() * range <= usize::MAX,
        forall|t: int|
            0 <= t < ballots@.len() ==> (#[trigger] ballots@[t])@.len() == utilities_of(
                voters0[t],
            ).len(),
        forall|t: int, c: int|
            0 <= t < ballots@.len() && 0 <= c < ballots@[t]@.len()
                ==> ((#[trigger] ballots@[t]@[c]) as int) == crate::voters::rating_of(
                voters0[t],
                range as int,
                c,
            ),
        forall|t: int, c: int|
            0 <= t < ballots@.len() && 0 <= c < ballots@[t]@.len()
                ==> (#[trigger] ballots@[t]@[c]) <= range,
    ensures
        is_score_ranking(voters0, num_candidates as int, range as int, *tie_breaker, r@),
{
    let n = num_candidates;
    let num_voters = ballots.len();
    let mut totals: Vec<usize> = vec![0; n];
    let mut k: usize = 0;
    while k < num_voters
        invariant
            k <= num_voters,
            num_voters == ballots@.len(),
            num_voters == voters0.len(),
            1 <= n,
            all_voters_wf(voters0, n as int),
            all_honest(voters0),
            voters0.len() * range <= usize::MAX,
            totals@.len() == n,
            forall|t: int|
                0 <= t < num_voters ==> (#[trigger] ballots@[t])@.len() == utilities_of(
                    voters0[t],
                ).len(),
            forall|t: int, c: int|
                0 <= t < num_voters && 0 <= c < ballots@[t]@.len()
                    ==> ((#[trigger] ballots@[t]@[c]) as int) == crate::voters::rating_of(
                    voters0[t],
                    range as int,
                    c,
                ),
            forall|t: int, c: int|
                0 <= t < num_voters && 0 <= c < ballots@[t]@.len()
                    ==> (#[trigger] ballots@[t]@[c]) <= range,
            forall|c: int|
                0 <= c < n ==> (#[trigger] totals@[c]) as int == score_tally(
                    voters0.take(k as int),
                    range as int,
                    c,
                ),
            forall|c: int| 0 <= c < n ==> (#[trigger] totals@[c]) as int <= k * range,
        decreases num_voters - k,
    {
        proof {
            assert(voter_wf(voters0[k as int], n as int));
            assert(utilities_of(voters0[k as int]).len() == n);
        }
        let ballot = &ballots[k];
        let ghost pre_totals = totals@;
        let mut c: usize = 0;
        while c < n
            invariant
                c <= n,
                n == ballot@.len(),
                ballot == &ballots@[k as int],
                k < num_voters,
                num_voters == ballots@.len(),
                totals@.len() == n,
                pre_totals.len() == n,
                voters0.len() * range <= usize::MAX,
                k < voters0.len(),
                forall|t: int| 0 <= t < n ==> (#[trigger] ballot@[t]) <= range,
                forall|t: int| 0 <= t < pre_totals.len() ==> (#[trigger] pre_totals[t]) as int <= k * range,
                forall|t: int|
                    0 <= t < c ==> (#[trigger] totals@[t]) as int == pre_totals[t] + ballot@[t],
                forall|t: int| c <= t < n ==> (#[trigger] totals@[t]) == pre_totals[t],
            decreases n - c,
        {
            proof {
                assert(pre_totals[c as int] as int + ballot@[c as int] <= k * range + range);
                assert(k * range + range == (k + 1) * range) by (nonlinear_arith);
                assert((k + 1) * range <= voters0.len() * range) by (nonlinear_arith)
                    requires 0 <= range, k + 1 <= voters0.len();
            }
            totals[c] = totals[c] + ballot[c];
            c = c + 1;
        }
        proof {
            let pre_seq = voters0.take(k as int);
            let post_seq = voters0.take(k + 1);
            assert(post_seq.drop_last() =~= pre_seq);
            assert(post_seq.last() == voters0[k as int]);
            assert forall|t: int| 0 <= t < n implies (#[trigger] totals@[t]) as int == score_tally(
                post_seq,
                range as int,
                t,
            ) by {
                assert(totals@[t] as int == pre_totals[t] + ballots@[k as int]@[t]);
                assert((ballots@[k as int]@[t]) as int == crate::voters::rating_of(
                    voters0[k as int],
                    range as int,
                    t,
                ));
            }
            assert forall|t: int| 0 <= t < n implies (#[trigger] totals@[t]) as int <= (k + 1)
                * range by {
                assert(totals@[t] as int <= k * range + range);
                assert(k * range + range == (k + 1) * range) by (nonlinear_arith);
            }
        }
        k = k + 1;
    }
    proof {
        assert(voters0.take(num_voters as int) =~= voters0);
    }
    let mut candidates = generate_candidates(n);
    sort_candidates_by_vec(&mut candidates, &totals, tie_breaker);
    proof {
        assert forall|c: int| 0 <= c < n implies (#[trigger] totals@[c]) as int == score_tally(
            voters0,
            range as int,
            c,
        ) && score_tally(voters0, range as int, c) >= 0 by {
            lemma_score_tally_bounds(voters0, n as int, range as int, c);
        }
        assert(totals@ =~= score_key(voters0, n as int, range as int));
    }
    candidates
}


/// Tallies each voter's top strict-ordinal choice and ranks all candidates
/// by descending tally.
fn plurality_driver(voters: &Vec<Voters>, num_candidates: usize, tie_breaker: &TieBreaker) -> (r:
    Vec<CandidateID>)
    requires
        1 <= num_candidates,
        tie_breaker.wf(num_candidates as nat),
        all_voters_wf(voters@, num_candidates as int),
    ensures
        is_plurality_ranking(voters@, num_candidates as int, *tie_breaker, r@),
{
    let n = num_candidates;
    let num_voters = voters.len();
    let mut vote_totals: Vec<usize> = vec![0; n];
    let mut i: usize = 0;
    while i < num_voters
        invariant
            i <= num_voters,
            num_voters == voters@.len(),
            1 <= n,
            all_voters_wf(voters@, n as int),
            vote_totals@.len() == n,
            forall|c: int|
                0 <= c < n ==> (#[trigger] vote_totals@[c]) as int == plurality_tally(
                    voters@.take(i as int),
                    c,
                ),
        decreases num_voters - i,
    {
        let ballot = voters[i].cast_ordinal_ballot();
        proof {
            assert(voter_wf(voters@[i as int], n as int));
            assert(ballot@ == ordinal_ballot_of(voters@[i as int]));
        }
        let choice = ballot[0].0;
        let ghost pre = vote_totals@;
        proof {
            lemma_plurality_tally_le(voters@.take(i as int), choice as int);
        }
        vote_totals[choice] = vote_totals[choice] + 1;
        proof {
            let pre_seq = voters@.take(i as int);
            let post_seq = voters@.take(i + 1);
            assert(post_seq.drop_last() =~= pre_seq);
            assert(post_seq.last() == voters@[i as int]);
            assert forall|c: int|
                0 <= c < n implies (#[trigger] vote_totals@[c]) as int == plurality_tally(
                post_seq,
                c,
            ) by {
                if c != choice as int {
                    assert(vote_totals@[c] == pre[c]);
                }
            }
        }
        i = i + 1;
    }
    proof {
        assert(voters@.take(num_voters as int) =~= voters@);
    }
    let mut results = generate_candidates(n);
    sort_candidates_by_vec(&mut results, &vote_totals, tie_breaker);
    proof {
        assert(vote_totals@ =~= plurality_key(voters@, n as int));
    }
    results
}

/// Simulates an honest delayed runoff between two candidates: every voter's
/// head-to-head preference is tallied, and the larger tally (tie broken by
/// the tie-breaker on the two candidate indices) wins. Fails when some
/// voter carries no utility model.
fn honest_runoff_driver(
    voters: &Vec<Voters>,
    tie_breaker: &TieBreaker,
    first: CandidateID,
    second: CandidateID,
) -> (r: Result<CandidateID, ElectionError>)
    requires
        tie_breaker.wf(tie_breaker.spec_len()),
        (first.0 as int) < tie_breaker.spec_len(),
        (second.0 as int) < tie_breaker.spec_len(),
        first.0 != second.0,
        all_voters_wf(voters@, tie_breaker.spec_len() as int),
    ensures
        match r {
            Ok(w) => all_honest(voters@) && w == runoff_winner(voters@, *tie_breaker, first, second),
            Err(e) => !all_honest(voters@) && e == ElectionError::UnsupportedCapability,
        },
{
    let num_voters = voters.len();
    let mut ca: usize = 0;
    let mut cb: usize = 0;
    let mut i: usize = 0;
    while i < num_voters
        invariant
            i <= num_voters,
            num_voters == voters@.len(),
            tie_breaker.wf(tie_breaker.spec_len()),
            (first.0 as int) < tie_breaker.spec_len(),
            (second.0 as int) < tie_breaker.spec_len(),
            all_voters_wf(voters@, tie_breaker.spec_len() as int),
            forall|k: int| 0 <= k < i ==> is_honest(#[trigger] voters@[k]),
            ca as int == runoff_count(voters@.take(i as int), first.0 as int, second.0 as int),
            cb as int == runoff_count(voters@.take(i as int), second.0 as int, first.0 as int),
            ca + cb <= i,
        decreases num_voters - i,
    {
        proof {
            assert(voter_wf(voters@[i as int], tie_breaker.spec_len() as int));
        }
        let verdict = match voters[i].honest_preference(first, second) {
            Ok(p) => p,
            Err(e) => {
                return Err(e);
            },
        };
        proof {
            let pre_seq = voters@.take(i as int);
            let post_seq = voters@.take(i + 1);
            assert(post_seq.drop_last() =~= pre_seq);
            assert(post_seq.last() == voters@[i as int]);
        }
        match verdict {
            Preference::PrefersFirst => {
                ca = ca + 1;
            },
            Preference::PrefersSecond => {
                cb = cb + 1;
            },
            Preference::Indifferent => {},
        }
        i = i + 1;
    }
    proof {
        assert(voters@.take(num_voters as int) =~= voters@);
    }
    if ca > cb {
        Ok(first)
    } else if cb > ca {
        Ok(second)
    } else if tie_breaker.prefers(first.0, second.0) {
        Ok(first)
    } else {
        Ok(second)
    }
}

/// Ranks candidates by summed rating at `range`, then exchanges the top two
/// when the runner-up wins an honest head-to-head runoff.
fn score_runoff_driver(
    voters: &mut Vec<Voters>,
    num_candidates: usize,
    tie_breaker: &TieBreaker,
    range: usize,
) -> (r: Result<Vec<CandidateID>, ElectionError>)
    requires
        2 <= num_candidates,
        tie_breaker.wf(num_candidates as nat),
        all_voters_wf(old(voters)@, num_candidates as int),
        old(voters)@.len() * range <= usize::MAX,
        2 * (range as int) * (UTILITY_SCALE as int) + (UTILITY_SCALE as int) <= usize::MAX as int,
    ensures
        final(voters)@.len() == old(voters)@.len(),
        forall|k: int|
            0 <= k < old(voters)@.len() ==> same_voter(
                #[trigger] old(voters)@[k],
                final(voters)@[k],
            ),
        all_voters_wf(final(voters)@, num_candidates as int),
        match r {
            Ok(rk) => {
                &&& all_honest(old(voters)@)
                &&& is_ranking(rk@, num_candidates as int)
                &&& exists|p: Seq<CandidateID>|
                    #[trigger] is_score_ranking(
                        old(voters)@,
                        num_candidates as int,
                        range as int,
                        *tie_breaker,
                        p,
                    ) && rk@ == runoff_adjust(old(voters)@, *tie_breaker, p)
            },
            Err(e) => !all_honest(old(voters)@) && e == ElectionError::UnsupportedCapability,
        },
{
    let ghost v0 = old(voters)@;
    let mut ranking = match score_driver(voters, num_candidates, tie_breaker, range) {
        Ok(rk) => rk,
        Err(e) => {
            return Err(e);
        },
    };
    let ghost p = ranking@;
    proof {
        assert forall|k: int| 0 <= k < voters@.len() implies is_honest(#[trigger] voters@[k]) by {
            lemma_same_voter_honest(v0[k], voters@[k]);
        }
    }
    match apply_runoff(voters, tie_breaker, &mut ranking) {
        Ok(_) => {},
        Err(e) => {
            return Err(e);
        },
    }
    proof {
        lemma_runoff_count_stable(v0, voters@, p[0].0 as int, p[1].0 as int);
        lemma_runoff_count_stable(v0, voters@, p[1].0 as int, p[0].0 as int);
        assert(ranking@ == runoff_adjust(v0, *tie_breaker, p));
        assert(is_score_ranking(v0, num_candidates as int, range as int, *tie_breaker, p));
    }
    Ok(ranking)
}

/// The first of candidates `a` and `b` to appear on a ballot, scanned in
/// preference order; `None` when the ballot mentions neither.
pub open spec fn contingent_hit(ballot: Seq<CandidateID>, a: int, b: int) -> Option<int>
    decreases ballot.len(),
{
    if ballot.len() == 0 {
        None
    } else if ballot[0].0 as int == a {
        Some(a)
    } else if ballot[0].0 as int == b {
        Some(b)
    } else {
        contingent_hit(ballot.drop_first(), a, b)
    }
}

/// The number of ballots crediting candidate `a` in a simulated runoff
/// between `a` and `b`: ballots on which `a` appears before `b`.
pub open spec fn contingent_count(voters: Seq<Voters>, a: int, b: int) -> nat
    decreases voters.len(),
{
    if voters.len() == 0 {
        0
    } else {
        contingent_count(voters.drop_last(), a, b) + if contingent_hit(
            ordinal_ballot_of(voters.last()),
            a,
            b,
        ) == Some(a) {
            1nat
        } else {
            0nat
        }
    }
}

pub proof fn lemma_contingent_hit_skip(ballot: Seq<CandidateID>, a: int, b: int, j: int)
    requires
        0 <= j <= ballot.len(),
        forall|k: int|
            0 <= k < j ==> (#[trigger] ballot[k]).0 as int != a && ballot[k].0 as int != b,
    ensures
        contingent_hit(ballot, a, b) == contingent_hit(ballot.skip(j), a, b),
    decreases j,
{
    if j > 0 {
        assert(ballot.skip(0) =~= ballot);
        assert(ballot.drop_first() == ballot.skip(1));
        lemma_contingent_hit_skip(ballot.drop_first(), a, b, j - 1);
        assert(ballot.drop_first().skip(j - 1) =~= ballot.skip(j));
    } else {
        assert(ballot.skip(0) =~= ballot);
    }
}

pub proof fn lemma_contingent_hit_symmetric(ballot: Seq<CandidateID>, a: int, b: int)
    requires
        a != b,
    ensures
        contingent_hit(ballot, a, b) == contingent_hit(ballot, b, a),
    decreases ballot.len(),
{
    if ballot.len() > 0 {
        lemma_contingent_hit_symmetric(ballot.drop_first(), a, b);
    }
}

/// The first-stage ranking `p`, with its top two entries exchanged exactly
/// when the runner-up is credited on more ballots; a credit tie goes to the
/// tie-breaker's choice between the two candidate indices.
pub open spec fn contingent_adjust(
    voters: Seq<Voters>,
    tb: TieBreaker,
    p: Seq<CandidateID>,
) -> Seq<CandidateID> {
    let a = p[0].0 as int;
    let b = p[1].0 as int;
    let ca = contingent_count(voters, a, b);
    let cb = contingent_count(voters, b, a);
    if ca > cb {
        p
    } else if cb > ca {
        swap_top_two(p)
    } else if tb.spec_prefers(a, b) {
        p
    } else {
        swap_top_two(p)
    }
}

/// The first candidate on a ballot that has not been eliminated, if any:
/// `elim[c]` says candidate `c` is eliminated.
pub open spec fn first_active(ballot: Seq<CandidateID>, elim: Seq<bool>) -> Option<int>
    decreases ballot.len(),
{
    if ballot.len() == 0 {
        None
    } else {
        let c = ballot[0].0 as int;
        if 0 <= c < elim.len() && !elim[c] {
            Some(c)
        } else {
            first_active(ballot.drop_first(), elim)
        }
    }
}

pub proof fn lemma_first_active_skip(ballot: Seq<CandidateID>, elim: Seq<bool>, j: int)
    requires
        0 <= j <= ballot.len(),
        forall|k: int|
            0 <= k < j ==> ((#[trigger] ballot[k]).0 as int) < elim.len() && elim[ballot[k].0 as int],
    ensures
        first_active(ballot, elim) == first_active(ballot.skip(j), elim),
    decreases j,
{
    if j > 0 {
        assert(ballot.drop_first() == ballot.skip(1));
        lemma_first_active_skip(ballot.drop_first(), elim, j - 1);
        assert(ballot.drop_first().skip(j - 1) =~= ballot.skip(j));
    } else {
        assert(ballot.skip(0) =~= ballot);
    }
}

/// The plurality tally of one instant-runoff round: the number of ballots
/// whose first non-eliminated preference is candidate `c`. Exhausted
/// ballots cast no vote.
pub open spec fn irv_tally(voters: Seq<Voters>, elim: Seq<bool>, c: int) -> nat
    decreases voters.len(),
{
    if voters.len() == 0 {
        0
    } else {
        irv_tally(voters.drop_last(), elim, c) + if first_active(
            ordinal_ballot_of(voters.last()),
            elim,
        ) == Some(c) {
            1nat
        } else {
            0nat
        }
    }
}

pub proof fn lemma_irv_tally_le(voters: Seq<Voters>, elim: Seq<bool>, c: int)
    ensures
        irv_tally(voters, elim, c) <= voters.len(),
    decreases voters.len(),
{
    if voters.len() > 0 {
        lemma_irv_tally_le(voters.drop_last(), elim, c);
    }
}

/// Candidate `c` is the one eliminated in the round whose eliminated set is
/// `elim`: it has the minimum round tally among the candidates still
/// standing, ties going against the tie-breaker's lesser candidate.
pub open spec fn is_irv_loser(voters: Seq<Voters>, elim: Seq<bool>, tb: TieBreaker, c: int) -> bool {
    &&& 0 <= c < elim.len()
    &&& !elim[c]
    &&& forall|d: int|
        0 <= d < elim.len() && !elim[d] && d != c ==> irv_tally(voters, elim, c) < #[trigger] irv_tally(
            voters,
            elim,
            d,
        ) || (irv_tally(voters, elim, c) == irv_tally(voters, elim, d) && tb.spec_prefers(d, c))
}

/// The eliminated set an elimination-order prefix denotes in an
/// `n`-candidate election.
pub open spec fn elim_of(order: Seq<CandidateID>, n: int) -> Seq<bool> {
    Seq::new(n as nat, |c: int| crate::utility_functions::id_covered(order, c))
}

/// The candidates eliminated before round `k` of the instant-runoff
/// process whose final ranking is `r`: the last `k` entries of `r`.
pub open spec fn eliminated_before_round(r: Seq<CandidateID>, k: int) -> Seq<bool> {
    elim_of(r.skip(r.len() - k), r.len() as int)
}

/// `r` is a correct instant-runoff ranking: reading it from last place
/// upward, each entry is the round loser given everything ranked below it
/// was already eliminated (the winner, entry 0, is the last candidate
/// standing).
pub open spec fn irv_correct(voters: Seq<Voters>, tb: TieBreaker, r: Seq<CandidateID>) -> bool {
    forall|k: int|
        0 <= k < r.len() - 1 ==> #[trigger] is_irv_loser(
            voters,
            eliminated_before_round(r, k),
            tb,
            r[r.len() - 1 - k].0 as int,
        )
}

/// A distinct, in-range candidate list shorter than `n` misses some
/// candidate.
pub proof fn lemma_missing_id(s: Seq<CandidateID>, n: int)
    requires
        crate::utility_functions::ids_below(s, n),
        crate::utility_functions::distinct_ids(s),
        s.len() < n,
    ensures
        exists|c: int| 0 <= c < n && !crate::utility_functions::id_covered(s, c),
{
    broadcast use vstd::set::group_set_axioms;

    let ids = Seq::new(s.len(), |k: int| s[k].0 as int);
    assert(ids.no_duplicates());
    ids.unique_seq_to_set();
    let range = vstd::set_lib::set_int_range(0, n);
    vstd::set_lib::lemma_int_range(0, n);
    if forall|c: int| 0 <= c < n ==> #[trigger] crate::utility_functions::id_covered(s, c) {
        assert forall|c: int| range.contains(c) implies ids.to_set().contains(c) by {
            assert(crate::utility_functions::id_covered(s, c));
            let k = choose|k: int| 0 <= k < s.len() && (#[trigger] s[k]).0 as int == c;
            assert(ids[k] == c);
            assert(ids.contains(c));
        }
        vstd::set_lib::lemma_len_subset(range, ids.to_set());
        assert(false);
    }
}

/// The number of ballots rating candidate `a` strictly higher than
/// candidate `b` at cardinal range `range`; ballots rating them equally
/// credit neither.
pub open spec fn star_count(voters: Seq<Voters>, range: int, a: int, b: int) -> nat
    decreases voters.len(),
{
    if voters.len() == 0 {
        0
    } else {
        star_count(voters.drop_last(), range, a, b) + if crate::voters::rating_of(
            voters.last(),
            range,
            a,
        ) > crate::voters::rating_of(voters.last(), range, b) {
            1nat
        } else {
            0nat
        }
    }
}

/// The score ranking `p`, with its top two entries exchanged exactly when
/// the runner-up is rated strictly higher on more ballots; a tie in those
/// totals goes to the tie-breaker's choice between the two candidate
/// indices.
pub open spec fn star_adjust(
    voters: Seq<Voters>,
    range: int,
    tb: TieBreaker,
    p: Seq<CandidateID>,
) -> Seq<CandidateID> {
    let a = p[0].0 as int;
    let b = p[1].0 as int;
    let ca = star_count(voters, range, a, b);
    let cb = star_count(voters, range, b, a);
    if ca > cb {
        p
    } else if cb > ca {
        swap_top_two(p)
    } else if tb.spec_prefers(a, b) {
        p
    } else {
        swap_top_two(p)
    }
}

/// Voters differing only in ballot caches are of the same kind.
pub proof fn lemma_same_voter_honest(a: Voters, b: Voters)
    requires
        same_voter(a, b),
    ensures
        is_honest(a) == is_honest(b),
{
}

/// Ranks candidates by summed rating at `range`, then compares the top two
/// on a second criterion: each ballot credits whichever finalist it rates
/// strictly higher, and the finalist with more credits is swapped into
/// first place if not already there. A credit tie goes to the tie-breaker
/// on the two candidate indices.
fn star_driver(
    voters: &mut Vec<Voters>,
    num_candidates: usize,
    tie_breaker: &TieBreaker,
    range: usize,
) -> (r: Result<Vec<CandidateID>, ElectionError>)
    requires
        2 <= num_candidates,
        tie_breaker.wf(num_candidates as nat),
        all_voters_wf(old(voters)@, num_candidates as int),
        old(voters)@.len() * range <= usize::MAX,
        2 * (range as int) * (UTILITY_SCALE as int) + (UTILITY_SCALE as int) <= usize::MAX as int,
    ensures
        final(voters)@.len() == old(voters)@.len(),
        forall|k: int|
            0 <= k < old(voters)@.len() ==> same_voter(
                #[trigger] old(voters)@[k],
                final(voters)@[k],
            ),
        all_voters_wf(final(voters)@, num_candidates as int),
        match r {
            Ok(rk) => {
                &&& all_honest(old(voters)@)
                &&& is_ranking(rk@, num_candidates as int)
                &&& exists|p: Seq<CandidateID>|
                    #[trigger] is_score_ranking(
                        old(voters)@,
                        num_candidates as int,
                        range as int,
                        *tie_breaker,
                        p,
                    ) && rk@ == star_adjust(old(voters)@, range as int, *tie_breaker, p)
            },
            Err(e) => !all_honest(old(voters)@) && e == ElectionError::UnsupportedCapability,
        },
{
    let n = num_candidates;
    let ghost voters0 = old(voters)@;
    let ballots = match collect_cardinal_ballots(voters, range) {
        Ok(bs) => bs,
        Err(e) => {
            proof {
                assert forall|k: int| 0 <= k < voters@.len() implies voter_wf(
                    #[trigger] voters@[k],
                    n as int,
                ) by {
                    assert(voter_wf(voters0[k], n as int));
                }
            }
            return Err(e);
        },
    };
    proof {
        assert forall|k: int| 0 <= k < voters@.len() implies voter_wf(
            #[trigger] voters@[k],
            n as int,
        ) by {
            assert(voter_wf(voters0[k], n as int));
        }
    }
    let mut candidates = rank_by_score(&ballots, Ghost(voters0), n, tie_breaker, range);
    let ghost p = candidates@;

    let first_c = candidates[0];
    let second_c = candidates[1];
    let ghost a = first_c.0 as int;
    let ghost b = second_c.0 as int;
    let num_voters = ballots.len();
    let mut fa: usize = 0;
    let mut fb: usize = 0;
    let mut k: usize = 0;
    while k < num_voters
        invariant
            k <= num_voters,
            num_voters == ballots@.len(),
            num_voters == voters0.len(),
            all_voters_wf(voters0, n as int),
            all_honest(voters0),
            a == first_c.0 as int,
            b == second_c.0 as int,
            0 <= a < n,
            0 <= b < n,
            forall|t: int|
                0 <= t < num_voters ==> (#[trigger] ballots@[t])@.len() == utilities_of(
                    voters0[t],
                ).len(),
            forall|t: int, c: int|
                0 <= t < num_voters && 0 <= c < ballots@[t]@.len()
                    ==> ((#[trigger] ballots@[t]@[c]) as int) == crate::voters::rating_of(
                    voters0[t],
                    range as int,
                    c,
                ),
            fa as int == star_count(voters0.take(k as int), range as int, a, b),
            fb as int == star_count(voters0.take(k as int), range as int, b, a),
            fa <= k,
            fb <= k,
        decreases num_voters - k,
    {
        proof {
            assert(voter_wf(voters0[k as int], n as int));
            assert(utilities_of(voters0[k as int]).len() == n);
        }
        let ballot = &ballots[k];
        let ra = ballot[first_c.0];
        let rb = ballot[second_c.0];
        if ra > rb {
            fa = fa + 1;
        } else if rb > ra {
            fb = fb + 1;
        }
        proof {
            let pre_seq = voters0.take(k as int);
            let post_seq = voters0.take(k + 1);
            assert(post_seq.drop_last() =~= pre_seq);
            assert(post_seq.last() == voters0[k as int]);
        }
        k = k + 1;
    }
    proof {
        assert(voters0.take(num_voters as int) =~= voters0);
    }

    let swap = if fa > fb {
        false
    } else if fb > fa {
        true
    } else {
        !tie_breaker.prefers(first_c.0, second_c.0)
    };
    if swap {
        candidates[0] = second_c;
        candidates[1] = first_c;
        proof {
            assert(candidates@ =~= swap_top_two(p));
        }
    }
    proof {
        assert(is_score_ranking(voters0, n as int, range as int, *tie_breaker, p));
        assert(candidates@ == star_adjust(voters0, range as int, *tie_breaker, p));
    }
    Ok(candidates)
}

/// Runs the honest head-to-head runoff between the top two entries of
/// `ranking` and exchanges them when the runner-up wins it. Lower ranks are
/// unchanged. Fails, leaving the ranking untouched, when some voter carries
/// no utility model.
fn apply_runoff(voters: &Vec<Voters>, tie_breaker: &TieBreaker, ranking: &mut Vec<CandidateID>) -> (r:
    Result<(), ElectionError>)
    requires
        2 <= tie_breaker.spec_len(),
        tie_breaker.wf(tie_breaker.spec_len()),
        all_voters_wf(voters@, tie_breaker.spec_len() as int),
        is_ranking(old(ranking)@, tie_breaker.spec_len() as int),
    ensures
        is_ranking(final(ranking)@, tie_breaker.spec_len() as int),
        match r {
            Ok(u) => {
                &&& u == ()
                &&& all_honest(voters@)
                &&& final(ranking)@ == runoff_adjust(voters@, *tie_breaker, old(ranking)@)
            },
            Err(e) => {
                &&& !all_honest(voters@)
                &&& e == ElectionError::UnsupportedCapability
                &&& final(ranking)@ == old(ranking)@
            },
        },
{
    let ghost p = ranking@;
    let top = ranking[0];
    let runner_up = ranking[1];
    let winner = match honest_runoff_driver(voters, tie_breaker, top, runner_up) {
        Ok(w) => w,
        Err(e) => {
            return Err(e);
        },
    };
    if winner == runner_up {
        ranking[0] = runner_up;
        ranking[1] = top;
        proof {
            assert(ranking@ =~= swap_top_two(p));
        }
    }
    Ok(())
}

impl ElectionMethods {
    /// Also known as FPTP (first past the post): every voter votes for
    /// their top-ranked candidate, and candidates are ranked by descending
    /// vote total.
    pub fn plurality(voters: &Vec<Voters>, num_candidates: usize, tie_breaker: &TieBreaker) -> (r:
        Vec<CandidateID>)
        requires
            1 <= num_candidates,
            tie_breaker.wf(num_candidates as nat),
            all_voters_wf(voters@, num_candidates as int),
        ensures
            is_plurality_ranking(voters@, num_candidates as int, *tie_breaker, r@),
    {
        plurality_driver(voters, num_candidates, tie_breaker)
    }

    /// Top-two runoff: a plurality ranking, then an honest head-to-head
    /// runoff between its top two. If the runner-up wins the runoff, the
    /// top two positions are exchanged; lower ranks are unchanged.
    pub fn fptp_runoff(voters: &Vec<Voters>, num_candidates: usize, tie_breaker: &TieBreaker) -> (r:
        Result<Vec<CandidateID>, ElectionError>)
        requires
            2 <= num_candidates,
            tie_breaker.wf(num_candidates as nat),
            all_voters_wf(voters@, num_candidates as int),
        ensures
            match r {
                Ok(rk) => {
                    &&& all_honest(voters@)
                    &&& is_ranking(rk@, num_candidates as int)
                    &&& exists|p: Seq<CandidateID>|
                        #[trigger] is_plurality_ranking(voters@, num_candidates as int, *tie_breaker, p)
                            && rk@ == runoff_adjust(voters@, *tie_breaker, p)
                },
                Err(e) => !all_honest(voters@) && e == ElectionError::UnsupportedCapability,
            },
    {
        let mut ranking = plurality_driver(voters, num_candidates, tie_breaker);
        let ghost p = ranking@;
        match apply_runoff(voters, tie_breaker, &mut ranking) {
            Ok(_) => {},
            Err(e) => {
                return Err(e);
            },
        }
        proof {
            assert(is_plurality_ranking(voters@, num_candidates as int, *tie_breaker, p));
        }
        Ok(ranking)
    }

    /// Instant-runoff voting, also known as the alternative vote or ranked
    /// choice voting. Each round, every ballot's top still-standing
    /// preference counts as one plurality vote, and the candidate with the
    /// lowest total is eliminated (a tally tie eliminating the
    /// tie-breaker's lesser candidate) until a single candidate remains.
    /// The ranking is the winner followed by the eliminated candidates,
    /// most recently eliminated first. Exhausted ballots cast no vote in
    /// later rounds.
    pub fn irv(voters: &Vec<Voters>, num_candidates: usize, tie_breaker: &TieBreaker) -> (r: Vec<
        CandidateID,
    >)
        requires
            1 <= num_candidates,
            tie_breaker.wf(num_candidates as nat),
            all_voters_wf(voters@, num_candidates as int),
        ensures
            is_ranking(r@, num_candidates as int),
            irv_correct(voters@, *tie_breaker, r@),
    {
        let n = num_candidates;
        let num_voters = voters.len();

        let mut ballots: Vec<Vec<CandidateID>> = Vec::new();
        let mut i: usize = 0;
        while i < num_voters
            invariant
                i <= num_voters,
                num_voters == voters@.len(),
                ballots@.len() == i,
                forall|k: int|
                    0 <= k < i ==> (#[trigger] ballots@[k])@ == ordinal_ballot_of(voters@[k]),
            decreases num_voters - i,
        {
            ballots.push(voters[i].cast_ordinal_ballot());
            i = i + 1;
        }

        let mut eliminated: Vec<bool> = vec![false; n];
        let mut order: Vec<CandidateID> = Vec::new();

        while order.len() < n - 1
            invariant
                num_voters == voters@.len(),
                ballots@.len() == num_voters,
                forall|k: int|
                    0 <= k < num_voters ==> (#[trigger] ballots@[k])@ == ordinal_ballot_of(
                        voters@[k],
                    ),
                1 <= n,
                tie_breaker.wf(n as nat),
                all_voters_wf(voters@, n as int),
                order@.len() <= n - 1,
                eliminated@.len() == n,
                forall|c: int|
                    0 <= c < n ==> ((#[trigger] eliminated@[c])
                        <==> crate::utility_functions::id_covered(order@, c)),
                crate::utility_functions::ids_below(order@, n as int),
                crate::utility_functions::distinct_ids(order@),
                forall|k: int|
                    0 <= k < order@.len() ==> #[trigger] is_irv_loser(
                        voters@,
                        elim_of(order@.take(k), n as int),
                        *tie_breaker,
                        order@[k].0 as int,
                    ),
            decreases n - 1 - order@.len(),
        {
            // Tabulate this round: each ballot's first non-eliminated
            // preference casts one vote.
            let mut plur: Vec<usize> = vec![0; n];
            let mut v: usize = 0;
            while v < num_voters
                invariant
                    v <= num_voters,
                    num_voters == voters@.len(),
                    ballots@.len() == num_voters,
                    forall|k: int|
                        0 <= k < num_voters ==> (#[trigger] ballots@[k])@ == ordinal_ballot_of(
                            voters@[k],
                        ),
                    1 <= n,
                    all_voters_wf(voters@, n as int),
                    eliminated@.len() == n,
                    plur@.len() == n,
                    forall|c: int|
                        0 <= c < n ==> (#[trigger] plur@[c]) as int == irv_tally(
                            voters@.take(v as int),
                            eliminated@,
                            c,
                        ),
                decreases num_voters - v,
            {
                let ballot = &ballots[v];
                let blen = ballot.len();
                proof {
                    assert(ballot@ == ordinal_ballot_of(voters@[v as int]));
                    assert(voter_wf(voters@[v as int], n as int));
                }
                let mut j: usize = 0;
                while j < blen && eliminated[ballot[j].0]
                    invariant
                        j <= blen,
                        blen == ballot@.len(),
                        eliminated@.len() == n,
                        crate::utility_functions::ids_below(ballot@, n as int),
                        forall|k: int|
                            0 <= k < j ==> ((#[trigger] ballot@[k]).0 as int) < n
                                && eliminated@[ballot@[k].0 as int],
                    decreases blen - j,
                {
                    j = j + 1;
                }
                proof {
                    lemma_first_active_skip(ballot@, eliminated@, j as int);
                }
                if j < blen {
                    let c = ballot[j].0;
                    proof {
                        assert(ballot@.skip(j as int)[0] == ballot@[j as int]);
                        assert(first_active(ballot@, eliminated@) == Some(c as int));
                        lemma_irv_tally_le(voters@.take(v as int), eliminated@, c as int);
                    }
                    plur[c] = plur[c] + 1;
                } else {
                    proof {
                        assert(ballot@.skip(blen as int) =~= Seq::<CandidateID>::empty());
                        assert(first_active(ballot@, eliminated@) is None);
                    }
                }
                proof {
                    let pre_seq = voters@.take(v as int);
                    let post_seq = voters@.take(v + 1);
                    assert(post_seq.drop_last() =~= pre_seq);
                    assert(post_seq.last() == voters@[v as int]);
                }
                v = v + 1;
            }
            proof {
                assert(voters@.take(num_voters as int) =~= voters@);
            }

            // Find the round loser among the candidates still standing.
            let mut best: usize = 0;
            let mut found = false;
            let mut c: usize = 0;
            while c < n
                invariant
                    c <= n,
                    n == eliminated@.len(),
                    plur@.len() == n,
                    tie_breaker.wf(n as nat),
                    forall|d: int|
                        0 <= d < n ==> (#[trigger] plur@[d]) as int == irv_tally(
                            voters@,
                            eliminated@,
                            d,
                        ),
                    !found ==> forall|d: int| 0 <= d < c ==> (#[trigger] eliminated@[d]),
                    found ==> best < c && !eliminated@[best as int],
                    found ==> forall|d: int|
                        0 <= d < c && !(#[trigger] eliminated@[d]) && d != best ==> (plur@[best as int]
                            < plur@[d] || (plur@[best as int] == plur@[d]
                            && tie_breaker.spec_prefers(d, best as int))),
                decreases n - c,
            {
                if !eliminated[c] {
                    if !found {
                        best = c;
                        found = true;
                    } else if plur[c] < plur[best] || (plur[c] == plur[best] && tie_breaker.prefers(
                        best,
                        c,
                    )) {
                        best = c;
                    } else {
                        proof {
                            tie_breaker.lemma_decisive(n as nat, c as int, best as int);
                        }
                    }
                }
                c = c + 1;
            }
            proof {
                if !found {
                    lemma_missing_id(order@, n as int);
                    let c0 = choose|c0: int|
                        0 <= c0 < n && !crate::utility_functions::id_covered(order@, c0);
                    assert(!eliminated@[c0]);
                    assert(false);
                }
            }

            let ghost elim_pre = eliminated@;
            let ghost order_pre = order@;
            order.push(CandidateID(best));
            eliminated[best] = true;
            proof {
                assert(!elim_pre[best as int]);
                assert(!crate::utility_functions::id_covered(order_pre, best as int));
                assert(is_irv_loser(voters@, elim_pre, *tie_breaker, best as int));
                assert forall|cc: int| 0 <= cc < n implies ((#[trigger] eliminated@[cc])
                    <==> crate::utility_functions::id_covered(order@, cc)) by {
                    if cc == best as int {
                        assert(order@[order@.len() - 1].0 as int == cc);
                        assert(crate::utility_functions::id_covered(order@, cc));
                    } else {
                        if crate::utility_functions::id_covered(order_pre, cc) {
                            let k = choose|k: int|
                                0 <= k < order_pre.len() && (#[trigger] order_pre[k]).0 as int == cc;
                            assert(order@[k].0 as int == cc);
                            assert(crate::utility_functions::id_covered(order@, cc));
                        }
                        if crate::utility_functions::id_covered(order@, cc) {
                            let k = choose|k: int|
                                0 <= k < order@.len() && (#[trigger] order@[k]).0 as int == cc;
                            assert(k < order_pre.len());
                            assert(order_pre[k].0 as int == cc);
                            assert(crate::utility_functions::id_covered(order_pre, cc));
                        }
                    }
                }
                assert forall|k: int| 0 <= k < order@.len() implies #[trigger] is_irv_loser(
                    voters@,
                    elim_of(order@.take(k), n as int),
                    *tie_breaker,
                    order@[k].0 as int,
                ) by {
                    if k < order_pre.len() {
                        assert(order@.take(k) =~= order_pre.take(k));
                        assert(order@[k] == order_pre[k]);
                    } else {
                        assert(order@.take(k) =~= order_pre);
                        assert forall|cc: int|
                            0 <= cc < n implies elim_of(order_pre, n as int)[cc] == elim_pre[cc] by {
                        }
                        assert(elim_of(order_pre, n as int) =~= elim_pre);
                        assert(order@[k].0 as int == best as int);
                    }
                }
            }
        }

        // The single remaining candidate is the winner.
        let mut w: usize = 0;
        while w < n && eliminated[w]
            invariant
                w <= n,
                n == eliminated@.len(),
                forall|d: int| 0 <= d < w ==> (#[trigger] eliminated@[d]),
            decreases n - w,
        {
            w = w + 1;
        }
        proof {
            if w == n {
                lemma_missing_id(order@, n as int);
                let c0 = choose|c0: int|
                    0 <= c0 < n && !crate::utility_functions::id_covered(order@, c0);
                assert(!eliminated@[c0]);
                assert(false);
            }
            assert(!eliminated@[w as int]);
            assert(!crate::utility_functions::id_covered(order@, w as int));
        }

        // Final ranking: winner first, then the elimination log reversed.
        let mut r: Vec<CandidateID> = Vec::new();
        r.push(CandidateID(w));
        let mut idx: usize = order.len();
        while idx > 0
            invariant
                idx <= order@.len(),
                order@.len() == n - 1,
                r@.len() == 1 + (order@.len() - idx),
                r@[0].0 == w,
                forall|m: int|
                    1 <= m < r@.len() ==> (#[trigger] r@[m]) == order@[order@.len() - m],
            decreases idx,
        {
            idx = idx - 1;
            r.push(order[idx]);
        }

        proof {
            let rr = r@;
            let nn = n as int;
            let ord = order@;
            assert(rr.len() == nn);
            assert forall|i1: int, i2: int| 0 <= i1 < i2 < nn implies (#[trigger] rr[i1]).0 != (
            #[trigger] rr[i2]).0 by {
                if i1 == 0 {
                    assert(rr[i2] == ord[nn - 1 - i2]);
                    if rr[i2].0 as int == w as int {
                        assert(crate::utility_functions::id_covered(ord, w as int));
                        assert(false);
                    }
                } else {
                    assert(rr[i1] == ord[nn - 1 - i1]);
                    assert(rr[i2] == ord[nn - 1 - i2]);
                }
            }
            assert forall|k: int| 0 <= k < nn - 1 implies #[trigger] is_irv_loser(
                voters@,
                eliminated_before_round(rr, k),
                *tie_breaker,
                rr[nn - 1 - k].0 as int,
            ) by {
                assert(rr[nn - 1 - k] == ord[k]);
                let sk = rr.skip(nn - k);
                let ebk = eliminated_before_round(rr, k);
                let eok = elim_of(ord.take(k), nn);
                assert forall|cc: int|
                    0 <= cc < nn implies (crate::utility_functions::id_covered(sk, cc)
                        <==> crate::utility_functions::id_covered(ord.take(k), cc)) by {
                    if crate::utility_functions::id_covered(sk, cc) {
                        let j = choose|j: int|
                            0 <= j < sk.len() && (#[trigger] sk[j]).0 as int == cc;
                        assert(sk[j] == rr[nn - k + j]);
                        assert(rr[nn - k + j] == ord[k - 1 - j]);
                        assert(ord.take(k)[k - 1 - j].0 as int == cc);
                        assert(crate::utility_functions::id_covered(ord.take(k), cc));
                    }
                    if crate::utility_functions::id_covered(ord.take(k), cc) {
                        let m = choose|m: int|
                            0 <= m < ord.take(k).len() && (#[trigger] ord.take(k)[m]).0 as int
                                == cc;
                        assert(ord.take(k)[m] == ord[m]);
                        assert(rr[nn - 1 - m] == ord[m]);
                        assert(sk[k - 1 - m] == rr[nn - k + (k - 1 - m)]);
                        assert(crate::utility_functions::id_covered(sk, cc));
                    }
                }
                assert(ebk =~= eok);
                assert(is_irv_loser(voters@, eok, *tie_breaker, ord[k].0 as int));
            }
        }
        r
    }

    /// Contingent vote: like a top-two runoff, but the runoff is simulated
    /// from the already-cast ordinal ballots instead of a fresh head-to-head
    /// query. Each ballot, scanned in preference order, credits whichever of
    /// the top two plurality candidates appears first; the larger credit
    /// total wins, a tie going to the tie-breaker's choice between the two
    /// candidate indices.
    pub fn contingent_vote(voters: &Vec<Voters>, num_candidates: usize, tie_breaker: &TieBreaker) -> (r:
        Vec<CandidateID>)
        requires
            2 <= num_candidates,
            tie_breaker.wf(num_candidates as nat),
            all_voters_wf(voters@, num_candidates as int),
        ensures
            is_ranking(r@, num_candidates as int),
            exists|p: Seq<CandidateID>|
                #[trigger] is_plurality_ranking(voters@, num_candidates as int, *tie_breaker, p)
                    && r@ == contingent_adjust(voters@, *tie_breaker, p),
    {
        let n = num_candidates;
        let mut candidates = plurality_driver(voters, n, tie_breaker);
        let ghost p = candidates@;
        let first_c = candidates[0];
        let second_c = candidates[1];
        let ghost a = first_c.0 as int;
        let ghost b = second_c.0 as int;
        proof {
            assert(a != b);
        }

        let num_voters = voters.len();
        let mut ca: usize = 0;
        let mut cb: usize = 0;
        let mut i: usize = 0;
        while i < num_voters
            invariant
                i <= num_voters,
                num_voters == voters@.len(),
                a == first_c.0 as int,
                b == second_c.0 as int,
                a != b,
                ca as int == contingent_count(voters@.take(i as int), a, b),
                cb as int == contingent_count(voters@.take(i as int), b, a),
                ca <= i,
                cb <= i,
            decreases num_voters - i,
        {
            let ballot = voters[i].cast_ordinal_ballot();
            let blen = ballot.len();
            let mut j: usize = 0;
            let mut hit: usize = 0;
            while j < blen && hit == 0
                invariant
                    j <= blen,
                    blen == ballot@.len(),
                    a == first_c.0 as int,
                    b == second_c.0 as int,
                    a != b,
                    hit <= 2,
                    hit == 0 ==> forall|k: int|
                        0 <= k < j ==> (#[trigger] ballot@[k]).0 as int != a && ballot@[k].0 as int
                            != b,
                    hit == 1 ==> contingent_hit(ballot@, a, b) == Some(a),
                    hit == 2 ==> contingent_hit(ballot@, a, b) == Some(b),
                decreases blen - j + (if hit == 0 { 1int } else { 0int }),
            {
                let c = ballot[j];
                if c.0 == first_c.0 {
                    proof {
                        lemma_contingent_hit_skip(ballot@, a, b, j as int);
                        assert(ballot@.skip(j as int)[0] == ballot@[j as int]);
                    }
                    hit = 1;
                } else if c.0 == second_c.0 {
                    proof {
                        lemma_contingent_hit_skip(ballot@, a, b, j as int);
                        assert(ballot@.skip(j as int)[0] == ballot@[j as int]);
                        assert(ballot@.skip(j as int).len() > 0);
                    }
                    hit = 2;
                } else {
                    j = j + 1;
                }
            }
            proof {
                if hit == 0 {
                    lemma_contingent_hit_skip(ballot@, a, b, blen as int);
                    assert(ballot@.skip(blen as int) =~= Seq::<CandidateID>::empty());
                    assert(contingent_hit(ballot@, a, b) is None);
                }
                lemma_contingent_hit_symmetric(ballot@, a, b);
                let pre_seq = voters@.take(i as int);
                let post_seq = voters@.take(i + 1);
                assert(post_seq.drop_last() =~= pre_seq);
                assert(post_seq.last() == voters@[i as int]);
                assert(ordinal_ballot_of(voters@[i as int]) == ballot@);
            }
            if hit == 1 {
                ca = ca + 1;
            } else if hit == 2 {
                cb = cb + 1;
            }
            i = i + 1;
        }
        proof {
            assert(voters@.take(num_voters as int) =~= voters@);
        }

        let swap = if ca > cb {
            false
        } else if cb > ca {
            true
        } else {
            !tie_breaker.prefers(first_c.0, second_c.0)
        };
        if swap {
            candidates[0] = second_c;
            candidates[1] = first_c;
            proof {
                assert(candidates@ =~= swap_top_two(p));
            }
        }
        proof {
            assert(is_plurality_ranking(voters@, num_candidates as int, *tie_breaker, p));
            assert(candidates@ == contingent_adjust(voters@, *tie_breaker, p));
        }
        candidates
    }

    /// Approval voting: every voter approves of a set of candidates, and
    /// candidates are ranked by descending approval count.
    pub fn approval(voters: &Vec<Voters>, num_candidates: usize, tie_breaker: &TieBreaker) -> (r:
        Result<Vec<CandidateID>, ElectionError>)
        requires
            1 <= num_candidates,
            tie_breaker.wf(num_candidates as nat),
            all_voters_wf(voters@, num_candidates as int),
        ensures
            match r {
                Ok(rk) => all_honest(voters@) && is_approval_ranking(
                    voters@,
                    num_candidates as int,
                    *tie_breaker,
                    rk@,
                ),
                Err(e) => !all_honest(voters@) && e == ElectionError::UnsupportedCapability,
            },
    {
        approval_driver(voters, num_candidates, tie_breaker)
    }

    /// Approval voting followed by an honest head-to-head runoff between
    /// the two most-approved candidates; if the runner-up wins it, the top
    /// two positions are exchanged.
    pub fn approval_runoff(voters: &Vec<Voters>, num_candidates: usize, tie_breaker: &TieBreaker) -> (r:
        Result<Vec<CandidateID>, ElectionError>)
        requires
            2 <= num_candidates,
            tie_breaker.wf(num_candidates as nat),
            all_voters_wf(voters@, num_candidates as int),
        ensures
            match r {
                Ok(rk) => {
                    &&& all_honest(voters@)
                    &&& is_ranking(rk@, num_candidates as int)
                    &&& exists|p: Seq<CandidateID>|
                        #[trigger] is_approval_ranking(voters@, num_candidates as int, *tie_breaker, p)
                            && rk@ == runoff_adjust(voters@, *tie_breaker, p)
                },
                Err(e) => !all_honest(voters@) && e == ElectionError::UnsupportedCapability,
            },
    {
        let mut ranking = match approval_driver(voters, num_candidates, tie_breaker) {
            Ok(rk) => rk,
            Err(e) => {
                return Err(e);
            },
        };
        let ghost p = ranking@;
        match apply_runoff(voters, tie_breaker, &mut ranking) {
            Ok(_) => {},
            Err(e) => {
                return Err(e);
            },
        }
        proof {
            assert(is_approval_ranking(voters@, num_candidates as int, *tie_breaker, p));
        }
        Ok(ranking)
    }

    /// Score voting with a rating range of 0-5.
    pub fn score_5(voters: &mut Vec<Voters>, num_candidates: usize, tie_breaker: &TieBreaker) -> (r:
        Result<Vec<CandidateID>, ElectionError>)
        requires
            1 <= num_candidates,
            tie_breaker.wf(num_candidates as nat),
            all_voters_wf(old(voters)@, num_candidates as int),
            old(voters)@.len() * 5 <= usize::MAX,
        ensures
            final(voters)@.len() == old(voters)@.len(),
            forall|k: int|
                0 <= k < old(voters)@.len() ==> same_voter(
                    #[trigger] old(voters)@[k],
                    final(voters)@[k],
                ),
            all_voters_wf(final(voters)@, num_candidates as int),
            match r {
                Ok(rk) => all_honest(old(voters)@) && is_score_ranking(
                    old(voters)@,
                    num_candidates as int,
                    5,
                    *tie_breaker,
                    rk@,
                ),
                Err(e) => !all_honest(old(voters)@) && e == ElectionError::UnsupportedCapability,
            },
    {
        score_driver(voters, num_candidates, tie_breaker, 5)
    }

    /// Score voting with a rating range of 0-10.
    pub fn score_10(voters: &mut Vec<Voters>, num_candidates: usize, tie_breaker: &TieBreaker) -> (r:
        Result<Vec<CandidateID>, ElectionError>)
        requires
            1 <= num_candidates,
            tie_breaker.wf(num_candidates as nat),
            all_voters_wf(old(voters)@, num_candidates as int),
            old(voters)@.len() * 10 <= usize::MAX,
        ensures
            final(voters)@.len() == old(voters)@.len(),
            forall|k: int|
                0 <= k < old(voters)@.len() ==> same_voter(
                    #[trigger] old(voters)@[k],
                    final(voters)@[k],
                ),
            all_voters_wf(final(voters)@, num_candidates as int),
            match r {
                Ok(rk) => all_honest(old(voters)@) && is_score_ranking(
                    old(voters)@,
                    num_candidates as int,
                    10,
                    *tie_breaker,
                    rk@,
                ),
                Err(e) => !all_honest(old(voters)@) && e == ElectionError::UnsupportedCapability,
            },
    {
        score_driver(voters, num_candidates, tie_breaker, 10)
    }

    /// Score voting with a rating range of 0-100.
    pub fn score_100(voters: &mut Vec<Voters>, num_candidates: usize, tie_breaker: &TieBreaker) -> (r:
        Result<Vec<CandidateID>, ElectionError>)
        requires
            1 <= num_candidates,
            tie_breaker.wf(num_candidates as nat),
            all_voters_wf(old(voters)@, num_candidates as int),
            old(voters)@.len() * 100 <= usize::MAX,
        ensures
            final(voters)@.len() == old(voters)@.len(),
            forall|k: int|
                0 <= k < old(voters)@.len() ==> same_voter(
                    #[trigger] old(voters)@[k],
                    final(voters)@[k],
                ),
            all_voters_wf(final(voters)@, num_candidates as int),
            match r {
                Ok(rk) => all_honest(old(voters)@) && is_score_ranking(
                    old(voters)@,
                    num_candidates as int,
                    100,
                    *tie_breaker,
                    rk@,
                ),
                Err(e) => !all_honest(old(voters)@) && e == ElectionError::UnsupportedCapability,
            },
    {
        score_driver(voters, num_candidates, tie_breaker, 100)
    }

    /// Score voting with a rating range of 0-5, followed by a delayed
    /// honest runoff between the top two.
    pub fn score_5_runoff(
        voters: &mut Vec<Voters>,
        num_candidates: usize,
        tie_breaker: &TieBreaker,
    ) -> (r: Result<Vec<CandidateID>, ElectionError>)
        requires
            2 <= num_candidates,
            tie_breaker.wf(num_candidates as nat),
            all_voters_wf(old(voters)@, num_candidates as int),
            old(voters)@.len() * 5 <= usize::MAX,
        ensures
            final(voters)@.len() == old(voters)@.len(),
            forall|k: int|
                0 <= k < old(voters)@.len() ==> same_voter(
                    #[trigger] old(voters)@[k],
                    final(voters)@[k],
                ),
            all_voters_wf(final(voters)@, num_candidates as int),
            match r {
                Ok(rk) => {
                    &&& all_honest(old(voters)@)
                    &&& is_ranking(rk@, num_candidates as int)
                    &&& exists|p: Seq<CandidateID>|
                        #[trigger] is_score_ranking(
                            old(voters)@,
                            num_candidates as int,
                            5,
                            *tie_breaker,
                            p,
                        ) && rk@ == runoff_adjust(old(voters)@, *tie_breaker, p)
                },
                Err(e) => !all_honest(old(voters)@) && e == ElectionError::UnsupportedCapability,
            },
    {
        score_runoff_driver(voters, num_candidates, tie_breaker, 5)
    }

    /// Score voting with a rating range of 0-10, followed by a delayed
    /// honest runoff between the top two.
    pub fn score_10_runoff(
        voters: &mut Vec<Voters>,
        num_candidates: usize,
        tie_breaker: &TieBreaker,
    ) -> (r: Result<Vec<CandidateID>, ElectionError>)
        requires
            2 <= num_candidates,
            tie_breaker.wf(num_candidates as nat),
            all_voters_wf(old(voters)@, num_candidates as int),
            old(voters)@.len() * 10 <= usize::MAX,
        ensures
            final(voters)@.len() == old(voters)@.len(),
            forall|k: int|
                0 <= k < old(voters)@.len() ==> same_voter(
                    #[trigger] old(voters)@[k],
                    final(voters)@[k],
                ),
            all_voters_wf(final(voters)@, num_candidates as int),
            match r {
                Ok(rk) => {
                    &&& all_honest(old(voters)@)
                    &&& is_ranking(rk@, num_candidates as int)
                    &&& exists|p: Seq<CandidateID>|
                        #[trigger] is_score_ranking(
                            old(voters)@,
                            num_candidates as int,
                            10,
                            *tie_breaker,
                            p,
                        ) && rk@ == runoff_adjust(old(voters)@, *tie_breaker, p)
                },
                Err(e) => !all_honest(old(voters)@) && e == ElectionError::UnsupportedCapability,
            },
    {
        score_runoff_driver(voters, num_candidates, tie_breaker, 10)
    }

    /// Score voting with a rating range of 0-100, followed by a delayed
    /// honest runoff between the top two.
    pub fn score_100_runoff(
        voters: &mut Vec<Voters>,
        num_candidates: usize,
        tie_breaker: &TieBreaker,
    ) -> (r: Result<Vec<CandidateID>, ElectionError>)
        requires
            2 <= num_candidates,
            tie_breaker.wf(num_candidates as nat),
            all_voters_wf(old(voters)@, num_candidates as int),
            old(voters)@.len() * 100 <= usize::MAX,
        ensures
            final(voters)@.len() == old(voters)@.len(),
            forall|k: int|
                0 <= k < old(voters)@.len() ==> same_voter(
                    #[trigger] old(voters)@[k],
                    final(voters)@[k],
                ),
            all_voters_wf(final(voters)@, num_candidates as int),
            match r {
                Ok(rk) => {
                    &&& all_honest(old(voters)@)
                    &&& is_ranking(rk@, num_candidates as int)
                    &&& exists|p: Seq<CandidateID>|
                        #[trigger] is_score_ranking(
                            old(voters)@,
                            num_candidates as int,
                            100,
                            *tie_breaker,
                            p,
                        ) && rk@ == runoff_adjust(old(voters)@, *tie_breaker, p)
                },
                Err(e) => !all_honest(old(voters)@) && e == ElectionError::UnsupportedCapability,
            },
    {
        score_runoff_driver(voters, num_candidates, tie_breaker, 100)
    }

    /// STAR voting (score then automatic runoff) with a rating range of
    /// 0-5: score ranking, then an instant runoff between the top two based
    /// on the cardinal ballots themselves.
    pub fn star_5(voters: &mut Vec<Voters>, num_candidates: usize, tie_breaker: &TieBreaker) -> (r:
        Result<Vec<CandidateID>, ElectionError>)
        requires
            2 <= num_candidates,
            tie_breaker.wf(num_candidates as nat),
            all_voters_wf(old(voters)@, num_candidates as int),
            old(voters)@.len() * 5 <= usize::MAX,
        ensures
            final(voters)@.len() == old(voters)@.len(),
            forall|k: int|
                0 <= k < old(voters)@.len() ==> same_voter(
                    #[trigger] old(voters)@[k],
                    final(voters)@[k],
                ),
            all_voters_wf(final(voters)@, num_candidates as int),
            match r {
                Ok(rk) => {
                    &&& all_honest(old(voters)@)
                    &&& is_ranking(rk@, num_candidates as int)
                    &&& exists|p: Seq<CandidateID>|
                        #[trigger] is_score_ranking(
                            old(voters)@,
                            num_candidates as int,
                            5,
                            *tie_breaker,
                            p,
                        ) && rk@ == star_adjust(old(voters)@, 5, *tie_breaker, p)
                },
                Err(e) => !all_honest(old(voters)@) && e == ElectionError::UnsupportedCapability,
            },
    {
        star_driver(voters, num_candidates, tie_breaker, 5)
    }

    /// STAR voting (score then automatic runoff) with a rating range of
    /// 0-10.
    pub fn star_10(voters: &mut Vec<Voters>, num_candidates: usize, tie_breaker: &TieBreaker) -> (r:
        Result<Vec<CandidateID>, ElectionError>)
        requires
            2 <= num_candidates,
            tie_breaker.wf(num_candidates as nat),
            all_voters_wf(old(voters)@, num_candidates as int),
            old(voters)@.len() * 10 <= usize::MAX,
        ensures
            final(voters)@.len() == old(voters)@.len(),
            forall|k: int|
                0 <= k < old(voters)@.len() ==> same_voter(
                    #[trigger] old(voters)@[k],
                    final(voters)@[k],
                ),
            all_voters_wf(final(voters)@, num_candidates as int),
            match r {
                Ok(rk) => {
                    &&& all_honest(old(voters)@)
                    &&& is_ranking(rk@, num_candidates as int)
                    &&& exists|p: Seq<CandidateID>|
                        #[trigger] is_score_ranking(
                            old(voters)@,
                            num_candidates as int,
                            10,
                            *tie_breaker,
                            p,
                        ) && rk@ == star_adjust(old(voters)@, 10, *tie_breaker, p)
                },
                Err(e) => !all_honest(old(voters)@) && e == ElectionError::UnsupportedCapability,
            },
    {
        star_driver(voters, num_candidates, tie_breaker, 10)
    }

    /// STAR voting (score then automatic runoff) with a rating range of
    /// 0-100.
    pub fn star_100(voters: &mut Vec<Voters>, num_candidates: usize, tie_breaker: &TieBreaker) -> (r:
        Result<Vec<CandidateID>, ElectionError>)
        requires
            2 <= num_candidates,
            tie_breaker.wf(num_candidates as nat),
            all_voters_wf(old(voters)@, num_candidates as int),
            old(voters)@.len() * 100 <= usize::MAX,
        ensures
            final(voters)@.len() == old(voters)@.len(),
            forall|k: int|
                0 <= k < old(voters)@.len() ==> same_voter(
                    #[trigger] old(voters)@[k],
                    final(voters)@[k],
                ),
            all_voters_wf(final(voters)@, num_candidates as int),
            match r {
                Ok(rk) => {
                    &&& all_honest(old(voters)@)
                    &&& is_ranking(rk@, num_candidates as int)
                    &&& exists|p: Seq<CandidateID>|
                        #[trigger] is_score_ranking(
                            old(voters)@,
                            num_candidates as int,
                            100,
                            *tie_breaker,
                            p,
                        ) && rk@ == star_adjust(old(voters)@, 100, *tie_breaker, p)
                },
                Err(e) => !all_honest(old(voters)@) && e == ElectionError::UnsupportedCapability,
            },
    {
        star_driver(voters, num_candidates, tie_breaker, 100)
    }

    /// The number of ordinal-ballot methods in the registry.
    pub fn ordinal_method_count() -> (r: usize)
        ensures
            r == 4,
    {
        4
    }

    /// The number of cardinal-ballot methods in the registry.
    pub fn cardinal_method_count() -> (r: usize)
        ensures
            r == 11,
    {
        11
    }

    /// The ordinal-ballot methods, in registry order.
    pub fn ordinal_methods() -> (r: Vec<OrdinalMethod>)
        ensures
            r@ == seq![
                OrdinalMethod::Plurality,
                OrdinalMethod::FptpRunoff,
                OrdinalMethod::ContingentVote,
                OrdinalMethod::Irv,
            ],
    {
        let mut r: Vec<OrdinalMethod> = Vec::new();
        r.push(OrdinalMethod::Plurality);
        r.push(OrdinalMethod::FptpRunoff);
        r.push(OrdinalMethod::ContingentVote);
        r.push(OrdinalMethod::Irv);
        proof {
            assert(r@ =~= seq![
                OrdinalMethod::Plurality,
                OrdinalMethod::FptpRunoff,
                OrdinalMethod::ContingentVote,
                OrdinalMethod::Irv,
            ]);
        }
        r
    }

    /// The cardinal-ballot methods, in registry order.
    pub fn cardinal_methods() -> (r: Vec<CardinalMethod>)
        ensures
            r@ == seq![
                CardinalMethod::Approval,
                CardinalMethod::ApprovalRunoff,
                CardinalMethod::Score5,
                CardinalMethod::Score10,
                CardinalMethod::Score100,
                CardinalMethod::Score5Runoff,
                CardinalMethod::Score10Runoff,
                CardinalMethod::Score100Runoff,
                CardinalMethod::Star5,
                CardinalMethod::Star10,
                CardinalMethod::Star100,
            ],
    {
        let mut r: Vec<CardinalMethod> = Vec::new();
        r.push(CardinalMethod::Approval);
        r.push(CardinalMethod::ApprovalRunoff);
        r.push(CardinalMethod::Score5);
        r.push(CardinalMethod::Score10);
        r.push(CardinalMethod::Score100);
        r.push(CardinalMethod::Score5Runoff);
        r.push(CardinalMethod::Score10Runoff);
        r.push(CardinalMethod::Score100Runoff);
        r.push(CardinalMethod::Star5);
        r.push(CardinalMethod::Star10);
        r.push(CardinalMethod::Star100);
        proof {
            assert(r@ =~= seq![
                CardinalMethod::Approval,
                CardinalMethod::ApprovalRunoff,
                CardinalMethod::Score5,
                CardinalMethod::Score10,
                CardinalMethod::Score100,
                CardinalMethod::Score5Runoff,
                CardinalMethod::Score10Runoff,
                CardinalMethod::Score100Runoff,
                CardinalMethod::Star5,
                CardinalMethod::Star10,
                CardinalMethod::Star100,
            ]);
        }
        r
    }

    /// Runs one ordinal-ballot method from the registry. Only the top-two
    /// runoff can fail, and only when some voter carries no utility model.
    pub fn run_ordinal(
        method: OrdinalMethod,
        voters: &Vec<Voters>,
        num_candidates: usize,
        tie_breaker: &TieBreaker,
    ) -> (r: Result<Vec<CandidateID>, ElectionError>)
        requires
            2 <= num_candidates,
            tie_breaker.wf(num_candidates as nat),
            all_voters_wf(voters@, num_candidates as int),
        ensures
            match r {
                Ok(rk) => is_ranking(rk@, num_candidates as int) && ordinal_result_ok(
                    method,
                    voters@,
                    num_candidates as int,
                    *tie_breaker,
                    rk@,
                ),
                Err(e) => {
                    &&& method == OrdinalMethod::FptpRunoff
                    &&& !all_honest(voters@)
                    &&& e == ElectionError::UnsupportedCapability
                },
            },
    {
        match method {
            OrdinalMethod::Plurality => Ok(
                ElectionMethods::plurality(voters, num_candidates, tie_breaker),
            ),
            OrdinalMethod::FptpRunoff => ElectionMethods::fptp_runoff(
                voters,
                num_candidates,
                tie_breaker,
            ),
            OrdinalMethod::ContingentVote => Ok(
                ElectionMethods::contingent_vote(voters, num_candidates, tie_breaker),
            ),
            OrdinalMethod::Irv => Ok(ElectionMethods::irv(voters, num_candidates, tie_breaker)),
        }
    }

    /// Runs one cardinal-ballot method from the registry. Every method here
    /// fails exactly when some voter carries no utility model.
    pub fn run_cardinal(
        method: CardinalMethod,
        voters: &mut Vec<Voters>,
        num_candidates: usize,
        tie_breaker: &TieBreaker,
    ) -> (r: Result<Vec<CandidateID>, ElectionError>)
        requires
            2 <= num_candidates,
            tie_breaker.wf(num_candidates as nat),
            all_voters_wf(old(voters)@, num_candidates as int),
            old(voters)@.len() * 100 <= usize::MAX,
        ensures
            final(voters)@.len() == old(voters)@.len(),
            forall|k: int|
                0 <= k < old(voters)@.len() ==> same_voter(
                    #[trigger] old(voters)@[k],
                    final(voters)@[k],
                ),
            all_voters_wf(final(voters)@, num_candidates as int),
            match r {
                Ok(rk) => {
                    &&& all_honest(old(voters)@)
                    &&& is_ranking(rk@, num_candidates as int)
                    &&& cardinal_result_ok(
                        method,
                        old(voters)@,
                        num_candidates as int,
                        *tie_breaker,
                        rk@,
                    )
                },
                Err(e) => !all_honest(old(voters)@) && e == ElectionError::UnsupportedCapability,
            },
    {
        proof {
            let nv = old(voters)@.len() as int;
            assert(nv * 5 <= nv * 100 && nv * 10 <= nv * 100) by (nonlinear_arith)
                requires nv >= 0;
        }
        match method {
            CardinalMethod::Approval => ElectionMethods::approval(
                voters,
                num_candidates,
                tie_breaker,
            ),
            CardinalMethod::ApprovalRunoff => ElectionMethods::approval_runoff(
                voters,
                num_candidates,
                tie_breaker,
            ),
            CardinalMethod::Score5 => ElectionMethods::score_5(voters, num_candidates, tie_breaker),
            CardinalMethod::Score10 => ElectionMethods::score_10(
                voters,
                num_candidates,
                tie_breaker,
            ),
            CardinalMethod::Score100 => ElectionMethods::score_100(
                voters,
                num_candidates,
                tie_breaker,
            ),
            CardinalMethod::Score5Runoff => ElectionMethods::score_5_runoff(
                voters,
                num_candidates,
                tie_breaker,
            ),
            CardinalMethod::Score10Runoff => ElectionMethods::score_10_runoff(
                voters,
                num_candidates,
                tie_breaker,
            ),
            CardinalMethod::Score100Runoff => ElectionMethods::score_100_runoff(
                voters,
                num_candidates,
                tie_breaker,
            ),
            CardinalMethod::Star5 => ElectionMethods::star_5(voters, num_candidates, tie_breaker),
            CardinalMethod::Star10 => ElectionMethods::star_10(voters, num_candidates, tie_breaker),
            CardinalMethod::Star100 => ElectionMethods::star_100(
                voters,
                num_candidates,
                tie_breaker,
            ),
        }
    }
}

} // verus!
