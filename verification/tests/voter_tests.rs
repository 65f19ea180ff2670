use voting_sim::election_methods::ElectionMethods;
use voting_sim::election_profile::{CandidateID, ElectionProfile};
use voting_sim::errors::ElectionError;
use voting_sim::honest_voter::HonestVoter;
use voting_sim::real_cardinal_voter::RealCardinalVoter;
use voting_sim::real_ordinal_voter::RealOrdinalVoter;
use voting_sim::tie_breaker::TieBreaker;
use voting_sim::voters::{ApprovalThresholdBehavior, Preference, Voters};

/// Converts real-valued utilities in [0, 1] to the fixed-point scale.
fn u(xs: &[f64]) -> Vec<usize> {
    xs.iter().map(|&x| (x * 1_000_000.0).round() as usize).collect()
}

fn ids(xs: &[usize]) -> Vec<CandidateID> {
    xs.iter().map(|&x| CandidateID(x)).collect()
}

fn mean_voter(xs: &[f64], scales: bool) -> HonestVoter {
    HonestVoter::new(u(xs), scales, ApprovalThresholdBehavior::Mean)
}

#[test]
fn voters_ordinal_order_correct() {
    let voter = mean_voter(&[0.3, 0.5, 0.1], false);
    assert_eq!(voter.cast_ordinal_ballot(), ids(&[1, 0, 2]));
}

#[test]
fn voters_ordinal_equal_ballot_correct() {
    let voter = mean_voter(&[0.3, 0.5, 0.5, 0.1], false);
    assert_eq!(
        voter.cast_ordinal_equal_ballot(),
        vec![ids(&[1, 2]), ids(&[0]), ids(&[3])]
    );
}

#[test]
fn voters_scales_correct() {
    let mut voter = mean_voter(&[0.3, 0.5, 0.1], true);
    assert_eq!(voter.cast_cardinal_ballot(10), vec![5, 10, 0]);
}

#[test]
fn voters_no_scales_correct() {
    let mut voter = mean_voter(&[0.3, 0.5, 0.1], false);
    assert_eq!(voter.cast_cardinal_ballot(10), vec![3, 5, 1]);
}

#[test]
fn honest_voter_ordinal_order_correct() {
    let voter = mean_voter(&[0.3, 0.5, 0.1], false);
    assert_eq!(voter.cast_ordinal_ballot(), ids(&[1, 0, 2]));
}

#[test]
fn honest_voter_ordinal_equal_ballot_correct() {
    let voter = mean_voter(&[0.3, 0.5, 0.5, 0.1], false);
    assert_eq!(
        voter.cast_ordinal_equal_ballot(),
        vec![ids(&[1, 2]), ids(&[0]), ids(&[3])]
    );
}

#[test]
fn honest_voter_scales_correct() {
    let mut voter = mean_voter(&[0.3, 0.5, 0.1], true);
    assert_eq!(voter.cast_cardinal_ballot(10), vec![5, 10, 0]);
}

#[test]
fn honest_voter_no_scales_correct() {
    let mut voter = mean_voter(&[0.3, 0.5, 0.1], false);
    assert_eq!(voter.cast_cardinal_ballot(10), vec![3, 5, 1]);
}

#[test]
fn cardinal_ballot_caching_idempotent() {
    let mut voter = mean_voter(&[0.3, 0.5, 0.1], true);
    let utilities_before = voter.utilities();
    let first = voter.cast_cardinal_ballot(10);
    let second = voter.cast_cardinal_ballot(10);
    assert_eq!(first, second);
    let other_range = voter.cast_cardinal_ballot(5);
    assert_eq!(other_range, voter.cast_cardinal_ballot(5));
    assert_eq!(voter.utilities(), utilities_before);
    assert_eq!(voter.cast_ordinal_ballot(), ids(&[1, 0, 2]));
}

#[test]
fn approval_mean_threshold_exact() {
    let voter = mean_voter(&[0.3, 0.5, 0.1], false);
    // Mean is exactly 0.3: candidates 0 and 1 clear it.
    assert_eq!(voter.cast_approval_ballot(), ids(&[0, 1]));
}

#[test]
fn approval_preset_threshold_exact() {
    let voter = HonestVoter::new(
        u(&[0.3, 0.5, 0.1]),
        false,
        ApprovalThresholdBehavior::Preset(400_000),
    );
    assert_eq!(voter.cast_approval_ballot(), ids(&[1]));
}

#[test]
fn approval_never_empty_falls_back_to_favorite() {
    // No utility clears the bound: the favorite is still approved.
    let voter = HonestVoter::new(
        u(&[0.3, 0.5, 0.1]),
        false,
        ApprovalThresholdBehavior::Preset(900_000),
    );
    assert_eq!(voter.cast_approval_ballot(), ids(&[1]));
    // Among equal maxima the highest index is the favorite.
    let tied = HonestVoter::new(
        u(&[0.5, 0.5, 0.1]),
        false,
        ApprovalThresholdBehavior::Preset(900_000),
    );
    assert_eq!(tied.cast_approval_ballot(), ids(&[1]));
    // Every threshold policy yields a non-empty ballot.
    for voter in [
        mean_voter(&[0.0, 0.0, 0.0], false),
        HonestVoter::new(u(&[0.2, 0.2, 0.2]), true, ApprovalThresholdBehavior::Preset(1_000_000)),
    ] {
        assert!(!voter.cast_approval_ballot().is_empty());
    }
}

#[test]
fn honest_preference_compares_utilities() {
    let voter = mean_voter(&[0.3, 0.5, 0.5], false);
    assert_eq!(
        voter.honest_preference(CandidateID(1), CandidateID(0)),
        Preference::PrefersFirst
    );
    assert_eq!(
        voter.honest_preference(CandidateID(0), CandidateID(1)),
        Preference::PrefersSecond
    );
    assert_eq!(
        voter.honest_preference(CandidateID(1), CandidateID(2)),
        Preference::Indifferent
    );
    assert_eq!(voter.candidate_utility(CandidateID(1)), 500_000);
}

#[test]
fn real_ordinal_voter_casts_its_ballot() {
    let voter = RealOrdinalVoter::new(ids(&[2, 0, 1]));
    assert_eq!(voter.cast_ordinal_ballot(), ids(&[2, 0, 1]));
}

#[test]
fn real_ordinal_voter_lacks_other_capabilities() {
    let mut voter = Voters::RealOrdinalVoter(RealOrdinalVoter::new(ids(&[2, 0, 1])));
    assert_eq!(voter.cast_ordinal_ballot(), ids(&[2, 0, 1]));
    assert_eq!(
        voter.cast_cardinal_ballot(10),
        Err(ElectionError::UnsupportedCapability)
    );
    assert_eq!(
        voter.cast_approval_ballot(),
        Err(ElectionError::UnsupportedCapability)
    );
    assert_eq!(
        voter.cast_ordinal_equal_ballot(),
        Err(ElectionError::UnsupportedCapability)
    );
    assert_eq!(
        voter.honest_preference(CandidateID(0), CandidateID(1)),
        Err(ElectionError::UnsupportedCapability)
    );
    assert_eq!(voter.utilities(), Err(ElectionError::UnsupportedCapability));
    assert_eq!(
        voter.candidate_utility(CandidateID(0)),
        Err(ElectionError::UnsupportedCapability)
    );
}

#[test]
fn runoff_fails_fast_on_ballot_only_voter() {
    let tb = TieBreaker::index_order(3);
    let voters = vec![
        Voters::HonestVoter(mean_voter(&[0.1, 0.4, 0.6], false)),
        Voters::RealOrdinalVoter(RealOrdinalVoter::new(ids(&[1, 0, 2]))),
    ];
    assert_eq!(
        ElectionMethods::fptp_runoff(&voters, 3, &tb),
        Err(ElectionError::UnsupportedCapability)
    );
    assert_eq!(
        ElectionMethods::approval(&voters, 3, &tb),
        Err(ElectionError::UnsupportedCapability)
    );
    // Plurality and IRV only need ordinal ballots, so they still work.
    assert_eq!(ElectionMethods::plurality(&voters, 3, &tb).len(), 3);
    assert_eq!(ElectionMethods::irv(&voters, 3, &tb).len(), 3);
}

#[test]
fn real_cardinal_voter_derives_ballots() {
    let tb = TieBreaker::index_order(3);
    let voter = RealCardinalVoter::new(10, vec![3, 7, 7], &tb);
    // Descending rating; the rating tie is broken toward the tie-breaker's
    // lesser candidate, here the lower index.
    assert_eq!(voter.cast_ordinal_ballot(), ids(&[1, 2, 0]));
    assert_eq!(
        voter.cast_ordinal_equal_ballot(),
        vec![ids(&[1, 2]), ids(&[0])]
    );
    assert_eq!(voter.cast_cardinal_ballot(10), Ok(vec![3, 7, 7]));
}

#[test]
fn real_cardinal_voter_range_mismatch() {
    let tb = TieBreaker::index_order(3);
    let voter = RealCardinalVoter::new(10, vec![3, 7, 7], &tb);
    assert_eq!(
        voter.cast_cardinal_ballot(5),
        Err(ElectionError::RangeMismatch)
    );
    assert_eq!(
        voter.cast_approval_ballot(),
        Err(ElectionError::UnsupportedCapability)
    );
    assert_eq!(
        voter.honest_preference(CandidateID(0), CandidateID(1)),
        Err(ElectionError::UnsupportedCapability)
    );
    assert_eq!(voter.utilities(), Err(ElectionError::UnsupportedCapability));
}

#[test]
fn real_cardinal_voter_range_one_approval() {
    let tb = TieBreaker::index_order(3);
    let voter = RealCardinalVoter::new(1, vec![1, 0, 1], &tb);
    assert_eq!(voter.cast_approval_ballot(), Ok(ids(&[0, 2])));
}

#[test]
fn real_cardinal_voter_approval_never_empty() {
    // No candidate is rated 1: the voter still approves of their top
    // choice, the head of the derived ordinal ballot (the rating tie is
    // broken toward the tie-breaker's lesser candidate, here index 0).
    let tb = TieBreaker::index_order(2);
    let voter = RealCardinalVoter::new(1, vec![0, 0], &tb);
    assert_eq!(voter.cast_approval_ballot(), Ok(ids(&[0])));
    // With the opposite tie-breaker the top choice is candidate 1.
    let flipped = TieBreaker::from_ranks(vec![1, 0]).unwrap();
    let voter = RealCardinalVoter::new(1, vec![0, 0], &flipped);
    assert_eq!(voter.cast_approval_ballot(), Ok(ids(&[1])));
}

#[test]
fn tie_breaker_rejects_non_permutations() {
    assert!(matches!(
        TieBreaker::from_ranks(vec![0, 0, 1]),
        Err(ElectionError::NonDecisiveTieBreaker)
    ));
    assert!(matches!(
        TieBreaker::from_ranks(vec![0, 1, 3]),
        Err(ElectionError::NonDecisiveTieBreaker)
    ));
    let tb = TieBreaker::from_ranks(vec![2, 0, 1]).unwrap();
    assert!(tb.prefers(0, 2));
    assert!(tb.prefers(2, 1));
    assert!(!tb.prefers(1, 0));
}

#[test]
fn election_profile_accessors() {
    let tb = TieBreaker::index_order(3);
    let voters = vec![
        Voters::HonestVoter(mean_voter(&[0.1, 0.4, 0.6], false)),
        Voters::HonestVoter(mean_voter(&[0.5, 0.4, 0.8], false)),
    ];
    let mut profile = ElectionProfile::new(voters, 3, tb);
    assert_eq!(profile.num_voters(), 2);
    assert_eq!(profile.num_candidates(), 3);
    assert_eq!(profile.get_candidates(), &ids(&[0, 1, 2]));
    assert!(profile.get_tie_breaker().prefers(2, 0));
    let population = profile.get_voters();
    assert_eq!(population.len(), 2);
    assert_eq!(population[0].cast_ordinal_ballot(), ids(&[2, 1, 0]));
}
