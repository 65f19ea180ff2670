//! An honest voter casts every ballot shape directly off of their utility
//! assessment of the candidates, non-strategically. All ballot shapes are
//! derived deterministically from the utility vector, so they are computed
//! once and cached: the ordinal, ordinal-with-equality and approval ballots
//! at construction, and the cardinal ballot for each requested range on
//! first access.
//!
//! Utilities live on a fixed-point scale: a utility in the real interval
//! `[0, 1]` is stored as an integer numerator over `UTILITY_SCALE`, so every
//! derived quantity (scaled utility, rounded rating, mean threshold) is
//! exact integer arithmetic.

use vstd::arithmetic::div_mod::{lemma_div_pos_is_pos, lemma_multiply_divide_lt};
use vstd::prelude::*;

use crate::election_profile::CandidateID;
use crate::utility_functions::{
    build_equal_groups, copy_ids, copy_usizes, distinct_ids, generate_approval_ballot, group_views,
    ids_below, index_tie_ranking, index_tie_sorted, is_ranking, ordinal_equal_ok,
    spec_approval_ballot_with_bound,
};
use crate::voters::{ApprovalThresholdBehavior, Preference};

verus! {

/// Fixed-point denominator for utilities: a utility `u` in `[0, 1]` is
/// stored as the integer `round(u * UTILITY_SCALE)`.
pub const UTILITY_SCALE: usize = 1_000_000;

/// The sum of a utility vector.
pub open spec fn seq_sum(s: Seq<usize>) -> int
    decreases s.len(),
{
    if s.len() == 0 {
        0
    } else {
        seq_sum(s.drop_last()) + s.last()
    }
}

/// The greatest entry of a non-empty utility vector.
pub open spec fn seq_max(s: Seq<usize>) -> int
    decreases s.len(),
{
    if s.len() <= 1 {
        if s.len() == 0 {
            0
        } else {
            s[0] as int
        }
    } else {
        let m = seq_max(s.drop_last());
        if s.last() as int > m {
            s.last() as int
        } else {
            m
        }
    }
}

/// The least entry of a non-empty utility vector.
pub open spec fn seq_min(s: Seq<usize>) -> int
    decreases s.len(),
{
    if s.len() <= 1 {
        if s.len() == 0 {
            0
        } else {
            s[0] as int
        }
    } else {
        let m = seq_min(s.drop_last());
        if (s.last() as int) < m {
            s.last() as int
        } else {
            m
        }
    }
}

/// Division rounded to the nearest integer, halves rounded up.
pub open spec fn round_div(a: int, b: int) -> int {
    (2 * a + b) / (2 * b)
}

/// The rating candidate `i` receives on a cardinal ballot of range
/// `[0, range]`: utilities are first scaled so the minimum maps to 0 and the
/// maximum to 1 when `scales` is set (left unchanged when all utilities are
/// equal, to avoid dividing by zero), then multiplied by `range` and rounded
/// to the nearest integer.
pub open spec fn spec_rating(utilities: Seq<usize>, scales: bool, range: int, i: int) -> int {
    let u = utilities[i] as int;
    let mx = seq_max(utilities);
    let mn = seq_min(utilities);
    if scales && mx != mn {
        round_div(range * (u - mn), mx - mn)
    } else {
        round_div(range * u, UTILITY_SCALE as int)
    }
}

/// The approval threshold a policy denotes, on the fixed-point utility
/// scale. A utility clears the `Mean` policy exactly when it is at least the
/// (rational) mean of the utilities, which for integers is the same as
/// clearing the mean's ceiling.
pub open spec fn approval_bound(utilities: Seq<usize>, tb: ApprovalThresholdBehavior) -> int {
    match tb {
        ApprovalThresholdBehavior::Mean => (seq_sum(utilities) + utilities.len() - 1) / (
        utilities.len() as int),
        ApprovalThresholdBehavior::Preset(b) => b as int,
    }
}

/// The approval ballot an honest voter with these utilities and this
/// threshold policy casts.
pub open spec fn spec_approval_ballot(
    utilities: Seq<usize>,
    tb: ApprovalThresholdBehavior,
) -> Seq<CandidateID> {
    spec_approval_ballot_with_bound(utilities, approval_bound(utilities, tb))
}

pub proof fn lemma_minmax_bounds(s: Seq<usize>)
    requires
        s.len() >= 1,
    ensures
        forall|i: int|
            0 <= i < s.len() ==> seq_min(s) <= (#[trigger] s[i]) as int && (s[i] as int) <= seq_max(s),
        0 <= seq_min(s),
    decreases s.len(),
{
    if s.len() > 1 {
        lemma_minmax_bounds(s.drop_last());
        assert forall|i: int|
            0 <= i < s.len() implies seq_min(s) <= (#[trigger] s[i]) as int && (s[i] as int)
            <= seq_max(s) by {
            if i < s.len() - 1 {
                assert(s.drop_last()[i] == s[i]);
            }
        }
    }
}

pub proof fn lemma_max_le(s: Seq<usize>, b: int)
    requires
        s.len() >= 1,
        forall|i: int| 0 <= i < s.len() ==> (#[trigger] s[i]) as int <= b,
    ensures
        seq_max(s) <= b,
    decreases s.len(),
{
    if s.len() > 1 {
        lemma_max_le(s.drop_last(), b);
    }
}

pub proof fn lemma_round_div_bounds(a: int, b: int, q: int)
    requires
        b >= 1,
        0 <= a,
        a <= q * b,
        0 <= q,
    ensures
        0 <= round_div(a, b) <= q,
{
    lemma_div_pos_is_pos(2 * a + b, 2 * b);
    assert(2 * a + b < (2 * b) * (q + 1)) by (nonlinear_arith)
        requires
            a <= q * b,
            b >= 1,
    ;
    lemma_multiply_divide_lt(2 * a + b, 2 * b, q + 1);
}

/// A rating always lands inside the requested range.
pub proof fn lemma_rating_bounds(utilities: Seq<usize>, scales: bool, range: int, i: int)
    requires
        1 <= utilities.len(),
        forall|j: int| 0 <= j < utilities.len() ==> (#[trigger] utilities[j]) <= UTILITY_SCALE,
        0 <= range,
        0 <= i < utilities.len(),
    ensures
        0 <= spec_rating(utilities, scales, range, i) <= range,
{
    lemma_minmax_bounds(utilities);
    let u = utilities[i] as int;
    let mx = seq_max(utilities);
    let mn = seq_min(utilities);
    if scales && mx != mn {
        assert(mn <= u && u <= mx);
        assert(0 <= range * (u - mn) && range * (u - mn) <= range * (mx - mn)) by (nonlinear_arith)
            requires
                0 <= range,
                mn <= u,
                u <= mx,
        ;
        lemma_round_div_bounds(range * (u - mn), mx - mn, range);
    } else {
        assert(0 <= range * u && range * u <= range * (UTILITY_SCALE as int)) by (nonlinear_arith)
            requires
                0 <= range,
                0 <= u,
                u <= UTILITY_SCALE as int,
        ;
        lemma_round_div_bounds(range * u, UTILITY_SCALE as int, range);
    }
}

/// A voter who casts every ballot shape directly off of their utility
/// assessment of the candidates.
pub struct HonestVoter {
    /// The voter's utility per candidate, on the `UTILITY_SCALE` fixed-point
    /// scale: `utilities[c]` is the utility ascribed to `CandidateID(c)`.
    pub utilities: Vec<usize>,
    /// Whether a cardinal ballot is scaled so the least utility maps to the
    /// bottom of the range and the greatest to the top. Not considered
    /// strategic voting.
    pub scales: bool,
    /// The voter's approval-threshold policy.
    pub threshold_behavior: ApprovalThresholdBehavior,
    /// Cached at construction: the approval ballot never changes.
    pub cached_approval_ballot: Vec<CandidateID>,
    /// Cached at construction: the ordinal ballot never changes.
    pub cached_ordinal_vote: Vec<CandidateID>,
    /// Cached at construction: the ordinal-with-equality ballot never
    /// changes.
    pub cached_ordinal_equal_vote: Vec<Vec<CandidateID>>,
    /// Cardinal ballots cached per requested range, populated on first
    /// access.
    pub cached_cardinal_ballots: Vec<(usize, Vec<usize>)>,
}

impl HonestVoter {
    /// Cache entry `k` holds exactly the ballot the utilities dictate for
    /// its range.
    pub open spec fn cardinal_entry_ok(self, k: int) -> bool {
        let rg = self.cached_cardinal_ballots@[k].0;
        let b = self.cached_cardinal_ballots@[k].1@;
        &&& b.len() == self.utilities@.len()
        &&& forall|i: int|
            0 <= i < b.len() ==> (#[trigger] b[i]) as int == spec_rating(
                self.utilities@,
                self.scales,
                rg as int,
                i,
            )
    }

    /// Internal consistency: utilities are on the fixed-point scale and all
    /// cached ballots are the ones the utilities dictate.
    pub open spec fn wf(self) -> bool {
        &&& 1 <= self.utilities@.len()
        &&& self.utilities@.len() * (UTILITY_SCALE as int + 1) <= usize::MAX as int
        &&& forall|i: int|
            0 <= i < self.utilities@.len() ==> (#[trigger] self.utilities@[i]) <= UTILITY_SCALE
        &&& is_ranking(self.cached_ordinal_vote@, self.utilities@.len() as int)
        &&& index_tie_sorted(self.utilities@, self.cached_ordinal_vote@)
        &&& ordinal_equal_ok(self.utilities@, group_views(self.cached_ordinal_equal_vote@))
        &&& self.cached_approval_ballot@ == spec_approval_ballot(
            self.utilities@,
            self.threshold_behavior,
        )
        &&& 1 <= self.cached_approval_ballot@.len()
        &&& ids_below(self.cached_approval_ballot@, self.utilities@.len() as int)
        &&& distinct_ids(self.cached_approval_ballot@)
        &&& forall|k: int|
            0 <= k < self.cached_cardinal_ballots@.len() ==> #[trigger] self.cardinal_entry_ok(k)
    }

    /// The number of candidates this voter rates.
    pub open spec fn spec_num_candidates(self) -> int {
        self.utilities@.len() as int
    }

    /// Builds an honest voter, precomputing the ordinal,
    /// ordinal-with-equality and approval ballots from the utilities.
    pub fn new(
        utilities: Vec<usize>,
        scales: bool,
        threshold_behavior: ApprovalThresholdBehavior,
    ) -> (r: HonestVoter)
        requires
            1 <= utilities@.len(),
            utilities@.len() * (UTILITY_SCALE as int + 1) <= usize::MAX as int,
            forall|i: int| 0 <= i < utilities@.len() ==> (#[trigger] utilities@[i]) <= UTILITY_SCALE,
        ensures
            r.wf(),
            r.utilities == utilities,
            r.scales == scales,
            r.threshold_behavior == threshold_behavior,
            r.cached_cardinal_ballots@.len() == 0,
    {
        let n = utilities.len();
        let ordinal = index_tie_ranking(&utilities);
        let groups = build_equal_groups(&utilities);
        let bound: usize = match threshold_behavior {
            ApprovalThresholdBehavior::Mean => {
                let mut sum: usize = 0;
                let mut i: usize = 0;
                while i < n
                    invariant
                        i <= n,
                        n == utilities@.len(),
                        forall|j: int|
                            0 <= j < n ==> (#[trigger] utilities@[j]) <= UTILITY_SCALE,
                        n * (UTILITY_SCALE as int + 1) <= usize::MAX as int,
                        sum as int == seq_sum(utilities@.take(i as int)),
                        sum as int <= i * (UTILITY_SCALE as int),
                    decreases n - i,
                {
                    proof {
                        let pre = utilities@.take(i as int);
                        let post = utilities@.take(i + 1);
                        assert(post.drop_last() =~= pre);
                        assert(post.last() == utilities@[i as int]);
                        assert((i + 1) * (UTILITY_SCALE as int) == i * (UTILITY_SCALE as int)
                            + UTILITY_SCALE as int) by (nonlinear_arith);
                        assert((i + 1) * (UTILITY_SCALE as int) <= n * (UTILITY_SCALE as int))
                            by (nonlinear_arith)
                            requires i + 1 <= n;
                        assert(n * (UTILITY_SCALE as int) <= n * (UTILITY_SCALE as int + 1))
                            by (nonlinear_arith);
                    }
                    sum = sum + utilities[i];
                    i = i + 1;
                }
                proof {
                    assert(utilities@.take(n as int) =~= utilities@);
                    assert(n * (UTILITY_SCALE as int) + n <= n * (UTILITY_SCALE as int + 1))
                        by (nonlinear_arith);
                }
                (sum + n - 1) / n
            },
            ApprovalThresholdBehavior::Preset(b) => b,
        };
        proof {
            assert(bound as int == approval_bound(utilities@, threshold_behavior));
        }
        let approval = generate_approval_ballot(&utilities, bound);
        HonestVoter {
            utilities,
            scales,
            threshold_behavior,
            cached_approval_ballot: approval,
            cached_ordinal_vote: ordinal,
            cached_ordinal_equal_vote: groups,
            cached_cardinal_ballots: Vec::new(),
        }
    }

    /// The voter's ranking of the candidates, most-preferred first:
    /// descending utility, equal utilities in ascending index order.
    pub fn cast_ordinal_ballot(&self) -> (r: Vec<CandidateID>)
        requires
            self.wf(),
        ensures
            r@ == self.cached_ordinal_vote@,
            is_ranking(r@, self.spec_num_candidates()),
            index_tie_sorted(self.utilities@, r@),
    {
        copy_ids(&self.cached_ordinal_vote)
    }

    /// The voter's ranking with equalities: candidates grouped by exactly
    /// equal utility, groups ordered by strictly descending utility.
    pub fn cast_ordinal_equal_ballot(&self) -> (r: Vec<Vec<CandidateID>>)
        requires
            self.wf(),
        ensures
            group_views(r@) == group_views(self.cached_ordinal_equal_vote@),
            ordinal_equal_ok(self.utilities@, group_views(r@)),
    {
        let cached = &self.cached_ordinal_equal_vote;
        let mut r: Vec<Vec<CandidateID>> = Vec::new();
        let mut g: usize = 0;
        while g < cached.len()
            invariant
                g <= cached@.len(),
                r@.len() == g,
                forall|k: int| 0 <= k < g ==> (#[trigger] r@[k])@ == cached@[k]@,
            decreases cached@.len() - g,
        {
            r.push(copy_ids(&cached[g]));
            g = g + 1;
        }
        proof {
            assert(group_views(r@) =~= group_views(self.cached_ordinal_equal_vote@));
        }
        r
    }

    /// The voter's cardinal ballot at range `[0, range]`, computed from the
    /// utilities on first request and cached per distinct range thereafter.
    /// The ballot returned is a function of the utilities and scaling flag
    /// alone, and neither changes: a repeated call returns the identical
    /// ballot.
    pub fn cast_cardinal_ballot(&mut self, range: usize) -> (r: Vec<usize>)
        requires
            old(self).wf(),
            2 * (range as int) * (UTILITY_SCALE as int) + (UTILITY_SCALE as int)
                <= usize::MAX as int,
        ensures
            final(self).wf(),
            final(self).utilities == old(self).utilities,
            final(self).scales == old(self).scales,
            final(self).threshold_behavior == old(self).threshold_behavior,
            final(self).cached_ordinal_vote == old(self).cached_ordinal_vote,
            final(self).cached_ordinal_equal_vote == old(self).cached_ordinal_equal_vote,
            final(self).cached_approval_ballot == old(self).cached_approval_ballot,
            r@.len() == old(self).utilities@.len(),
            forall|i: int|
                0 <= i < r@.len() ==> (#[trigger] r@[i]) as int == spec_rating(
                    old(self).utilities@,
                    old(self).scales,
                    range as int,
                    i,
                ),
            forall|i: int| 0 <= i < r@.len() ==> (#[trigger] r@[i]) <= range,
    {
        let n_cached = self.cached_cardinal_ballots.len();
        let mut k: usize = 0;
        while k < n_cached
            invariant
                *self == *old(self),
                k <= n_cached,
                n_cached == self.cached_cardinal_ballots@.len(),
                old(self).wf(),
            decreases n_cached - k,
        {
            if self.cached_cardinal_ballots[k].0 == range {
                let b = copy_usizes(&self.cached_cardinal_ballots[k].1);
                proof {
                    assert(self.cardinal_entry_ok(k as int));
                    assert forall|i: int| 0 <= i < b@.len() implies (#[trigger] b@[i]) <= range by {
                        lemma_rating_bounds(self.utilities@, self.scales, range as int, i);
                    }
                }
                return b;
            }
            k = k + 1;
        }
        let ballot = compute_cardinal_ballot(&self.utilities, self.scales, range);
        let result = copy_usizes(&ballot);
        let ghost pre = *self;
        self.cached_cardinal_ballots.push((range, ballot));
        proof {
            assert forall|j: int|
                0 <= j < self.cached_cardinal_ballots@.len() implies #[trigger] self.cardinal_entry_ok(j) by {
                if j < pre.cached_cardinal_ballots@.len() {
                    assert(pre.cardinal_entry_ok(j));
                    assert(self.cached_cardinal_ballots@[j] == pre.cached_cardinal_ballots@[j]);
                }
            }
            assert forall|i: int| 0 <= i < result@.len() implies (#[trigger] result@[i]) <= range by {
                lemma_rating_bounds(self.utilities@, self.scales, range as int, i);
            }
        }
        result
    }

    /// The voter's approval ballot: every candidate whose utility clears the
    /// voter's threshold, or the single favorite if none does. Never empty.
    pub fn cast_approval_ballot(&self) -> (r: Vec<CandidateID>)
        requires
            self.wf(),
        ensures
            r@ == spec_approval_ballot(self.utilities@, self.threshold_behavior),
            1 <= r@.len(),
            ids_below(r@, self.spec_num_candidates()),
            distinct_ids(r@),
    {
        copy_ids(&self.cached_approval_ballot)
    }

    /// The verdict the voter's utilities give between two candidates.
    pub open spec fn spec_preference(self, first: CandidateID, second: CandidateID) -> Preference {
        if self.utilities@[first.0 as int] > self.utilities@[second.0 as int] {
            Preference::PrefersFirst
        } else if self.utilities@[first.0 as int] < self.utilities@[second.0 as int] {
            Preference::PrefersSecond
        } else {
            Preference::Indifferent
        }
    }

    /// Whether the voter honestly likes `first` more than, less than, or the
    /// same as `second`.
    pub fn honest_preference(&self, first: CandidateID, second: CandidateID) -> (r: Preference)
        requires
            self.wf(),
            (first.0 as int) < self.spec_num_candidates(),
            (second.0 as int) < self.spec_num_candidates(),
        ensures
            r == self.spec_preference(first, second),
    {
        if self.utilities[first.0] > self.utilities[second.0] {
            Preference::PrefersFirst
        } else if self.utilities[first.0] < self.utilities[second.0] {
            Preference::PrefersSecond
        } else {
            Preference::Indifferent
        }
    }

    /// The voter's raw utility vector.
    pub fn utilities(&self) -> (r: Vec<usize>)
        requires
            self.wf(),
        ensures
            r@ == self.utilities@,
    {
        copy_usizes(&self.utilities)
    }

    /// The voter's raw utility for one candidate.
    pub fn candidate_utility(&self, id: CandidateID) -> (r: usize)
        requires
            self.wf(),
            (id.0 as int) < self.spec_num_candidates(),
        ensures
            r == self.utilities@[id.0 as int],
    {
        self.utilities[id.0]
    }
}

/// Casting a cardinal ballot is idempotent: a rating is a function of the
/// voter's utilities and scaling flag alone, and per the contract of
/// `cast_cardinal_ballot` no ballot call changes either. Hence two voters in
/// the same state — in particular, the same voter before and after any
/// sequence of ballot calls — cast identical cardinal ballots at equal
/// ranges.
pub proof fn lemma_cardinal_ballot_idempotent(
    v1: HonestVoter,
    v2: HonestVoter,
    range: int,
    i: int,
)
    requires
        v1.utilities == v2.utilities,
        v1.scales == v2.scales,
    ensures
        spec_rating(v1.utilities@, v1.scales, range, i) == spec_rating(
            v2.utilities@,
            v2.scales,
            range,
            i,
        ),
{
}

/// An honest voter's approval ballot is never empty, whatever the threshold
/// policy: if no candidate clears the threshold, the favorite is approved.
pub proof fn lemma_approval_never_empty(utilities: Seq<usize>, tb: ApprovalThresholdBehavior)
    requires
        utilities.len() >= 1,
    ensures
        spec_approval_ballot(utilities, tb).len() >= 1,
{
}

/// Computes the cardinal ballot the utilities dictate for `range`.
fn compute_cardinal_ballot(utilities: &Vec<usize>, scales: bool, range: usize) -> (r: Vec<usize>)
    requires
        1 <= utilities@.len(),
        forall|i: int| 0 <= i < utilities@.len() ==> (#[trigger] utilities@[i]) <= UTILITY_SCALE,
        2 * (range as int) * (UTILITY_SCALE as int) + (UTILITY_SCALE as int) <= usize::MAX as int,
    ensures
        r@.len() == utilities@.len(),
        forall|i: int|
            0 <= i < r@.len() ==> (#[trigger] r@[i]) as int == spec_rating(
                utilities@,
                scales,
                range as int,
                i,
            ),
{
    let n = utilities.len();
    let mut mx = utilities[0];
    let mut mn = utilities[0];
    let mut i: usize = 1;
    proof {
        assert(utilities@.take(1).len() == 1);
        assert(utilities@.take(1)[0] == utilities@[0]);
    }
    while i < n
        invariant
            1 <= i <= n,
            n == utilities@.len(),
            mx as int == seq_max(utilities@.take(i as int)),
            mn as int == seq_min(utilities@.take(i as int)),
        decreases n - i,
    {
        proof {
            let pre = utilities@.take(i as int);
            let post = utilities@.take(i + 1);
            assert(post.drop_last() =~= pre);
            assert(post.last() == utilities@[i as int]);
        }
        let u = utilities[i];
        if u > mx {
            mx = u;
        }
        if u < mn {
            mn = u;
        }
        i = i + 1;
    }
    proof {
        assert(utilities@.take(n as int) =~= utilities@);
        lemma_minmax_bounds(utilities@);
        lemma_max_le(utilities@, UTILITY_SCALE as int);
    }
    let mut r: Vec<usize> = Vec::new();
    let mut j: usize = 0;
    if scales && mx != mn {
        while j < n
            invariant
                j <= n,
                n == utilities@.len(),
                1 <= n,
                forall|t: int|
                    0 <= t < utilities@.len() ==> (#[trigger] utilities@[t]) <= UTILITY_SCALE,
                2 * (range as int) * (UTILITY_SCALE as int) + (UTILITY_SCALE as int)
                    <= usize::MAX as int,
                mx as int == seq_max(utilities@),
                mn as int == seq_min(utilities@),
                mn < mx,
                mx <= UTILITY_SCALE,
                forall|t: int|
                    0 <= t < utilities@.len() ==> (mn as int) <= (#[trigger] utilities@[t]) as int
                        && (utilities@[t] as int) <= mx as int,
                r@.len() == j,
                forall|t: int|
                    0 <= t < j ==> (#[trigger] r@[t]) as int == spec_rating(
                        utilities@,
                        scales,
                        range as int,
                        t,
                    ),
                scales,
            decreases n - j,
        {
            let u = utilities[j];
            let d = u - mn;
            proof {
                assert((range as int) * (d as int) <= (range as int) * (UTILITY_SCALE as int))
                    by (nonlinear_arith)
                    requires
                        0 <= range as int,
                        0 <= d as int,
                        d as int <= UTILITY_SCALE as int,
                ;
                assert(2 * ((range as int) * (UTILITY_SCALE as int)) <= 2 * (range as int) * (
                UTILITY_SCALE as int)) by (nonlinear_arith);
            }
            let a = range * d;
            let b = mx - mn;
            let num = 2 * a + b;
            let den = 2 * b;
            r.push(num / den);
            proof {
                assert((num / den) as int == round_div(
                    (range as int) * (u as int - mn as int),
                    mx as int - mn as int,
                ));
            }
            j = j + 1;
        }
    } else {
        while j < n
            invariant
                j <= n,
                n == utilities@.len(),
                1 <= n,
                forall|t: int|
                    0 <= t < utilities@.len() ==> (#[trigger] utilities@[t]) <= UTILITY_SCALE,
                2 * (range as int) * (UTILITY_SCALE as int) + (UTILITY_SCALE as int)
                    <= usize::MAX as int,
                mx as int == seq_max(utilities@),
                mn as int == seq_min(utilities@),
                !(scales && mx != mn),
                r@.len() == j,
                forall|t: int|
                    0 <= t < j ==> (#[trigger] r@[t]) as int == spec_rating(
                        utilities@,
                        scales,
                        range as int,
                        t,
                    ),
            decreases n - j,
        {
            let u = utilities[j];
            proof {
                assert((range as int) * (u as int) <= (range as int) * (UTILITY_SCALE as int))
                    by (nonlinear_arith)
                    requires
                        0 <= range as int,
                        0 <= u as int,
                        u as int <= UTILITY_SCALE as int,
                ;
                assert(2 * ((range as int) * (UTILITY_SCALE as int)) <= 2 * (range as int) * (
                UTILITY_SCALE as int)) by (nonlinear_arith);
            }
            let a = range * u;
            let num = 2 * a + UTILITY_SCALE;
            let den = 2 * UTILITY_SCALE;
            r.push(num / den);
            proof {
                assert((num / den) as int == round_div(
                    (range as int) * (u as int),
                    UTILITY_SCALE as int,
                ));
            }
            j = j + 1;
        }
    }
    r
}

} // verus!
