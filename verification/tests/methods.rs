use voting_sim::election_methods::{CardinalMethod, ElectionMethods, OrdinalMethod};
use voting_sim::election_profile::CandidateID;
use voting_sim::tie_breaker::TieBreaker;
use voting_sim::utility_functions::{generate_candidates, sort_candidates_by_vec};
use voting_sim::honest_voter::HonestVoter;
use voting_sim::voters::{ApprovalThresholdBehavior, Voters};

/// Converts real-valued utilities in [0, 1] to the fixed-point scale.
fn u(xs: &[f64]) -> Vec<usize> {
    xs.iter().map(|&x| (x * 1_000_000.0).round() as usize).collect()
}

fn honest(xs: &[f64], scales: bool) -> Voters {
    Voters::HonestVoter(HonestVoter::new(u(xs), scales, ApprovalThresholdBehavior::Mean))
}

fn ids(xs: &[usize]) -> Vec<CandidateID> {
    xs.iter().map(|&x| CandidateID(x)).collect()
}

fn majority_election() -> Vec<Voters> {
    vec![
        honest(&[0.1, 0.4, 0.6], true),
        honest(&[0.5, 0.4, 0.8], true),
        honest(&[0.3, 0.7, 0.2], false),
    ]
}

fn runoff_differs() -> Vec<Voters> {
    let mut voters = Vec::new();
    voters.push(honest(&[0.1, 0.4, 0.6], true));
    for _ in 0..3 {
        voters.push(honest(&[0.5, 0.4, 0.8], true));
    }
    for _ in 0..3 {
        voters.push(honest(&[0.3, 0.7, 0.2], false));
    }
    for _ in 0..2 {
        voters.push(honest(&[0.8, 0.6, 0.1], false));
    }
    voters
}

// Profile produced:
// 24: A1 > A2 > B1 > B2 > B3
// 24: A2 > A1 > B1 > B2 > B3
// 20: B1 > B2 > B3 > A1 > A2
// 20: B2 > B3 > B1 > A2 > A1
// 12: B3 > B1 > B2 > A1 > A2
fn irv_differs() -> Vec<Voters> {
    let mut voters = Vec::new();
    for _ in 0..24 {
        voters.push(honest(&[1.0, 0.9, 0.5, 0.4, 0.3], false));
        voters.push(honest(&[0.9, 1.0, 0.5, 0.4, 0.3], false));
    }
    for _ in 0..20 {
        voters.push(honest(&[0.2, 0.3, 1.0, 0.9, 0.7], false));
        voters.push(honest(&[0.3, 0.2, 0.7, 1.0, 0.9], false));
    }
    for _ in 0..12 {
        voters.push(honest(&[0.3, 0.2, 0.9, 0.7, 1.0], false));
    }
    voters
}

#[test]
fn test_plurality() {
    let tb = TieBreaker::index_order(3);
    assert_eq!(
        ElectionMethods::plurality(&majority_election(), 3, &tb),
        ids(&[2, 1, 0])
    );
    assert_eq!(
        ElectionMethods::plurality(&runoff_differs(), 3, &tb),
        ids(&[2, 1, 0])
    );
}

#[test]
fn test_fptp_runoff() {
    let tb = TieBreaker::index_order(3);
    assert_eq!(
        ElectionMethods::fptp_runoff(&majority_election(), 3, &tb).unwrap(),
        ids(&[2, 1, 0])
    );
    assert_eq!(
        ElectionMethods::fptp_runoff(&runoff_differs(), 3, &tb).unwrap(),
        ids(&[1, 2, 0])
    );
}

#[test]
fn test_irv() {
    let tb = TieBreaker::index_order(5);
    assert_ne!(
        ElectionMethods::irv(&irv_differs(), 5, &tb)[0],
        ElectionMethods::fptp_runoff(&irv_differs(), 5, &tb).unwrap()[0]
    );
}

#[test]
fn test_sort_candidates_by_vec() {
    let mut v = generate_candidates(3);
    let key = vec![20, 50, 10];
    let tb = TieBreaker::index_order(3);
    sort_candidates_by_vec(&mut v, &key, &tb);
    assert_eq!(v, ids(&[1, 0, 2]));
}

#[test]
fn irv_full_ranking() {
    let tb = TieBreaker::index_order(5);
    assert_eq!(
        ElectionMethods::irv(&irv_differs(), 5, &tb),
        ids(&[2, 1, 0, 3, 4])
    );
}

#[test]
fn irv_single_candidate() {
    let tb = TieBreaker::index_order(1);
    let voters = vec![honest(&[0.7], false)];
    assert_eq!(ElectionMethods::irv(&voters, 1, &tb), ids(&[0]));
}

#[test]
fn contingent_vote_reorders() {
    let tb = TieBreaker::index_order(3);
    assert_eq!(
        ElectionMethods::contingent_vote(&runoff_differs(), 3, &tb),
        ids(&[1, 2, 0])
    );
    assert_eq!(
        ElectionMethods::contingent_vote(&majority_election(), 3, &tb),
        ids(&[2, 1, 0])
    );
}

#[test]
fn plurality_tie_goes_to_tie_breaker() {
    let tb = TieBreaker::index_order(2);
    let voters = vec![honest(&[0.9, 0.1], false), honest(&[0.1, 0.9], false)];
    // One first-preference vote each: index order ranks the greater index
    // first on a tie.
    assert_eq!(ElectionMethods::plurality(&voters, 2, &tb), ids(&[1, 0]));
}

#[test]
fn plurality_tie_with_reversed_ranks() {
    // Rank permutation [1, 0] gives candidate 0 the greater priority.
    let tb = TieBreaker::from_ranks(vec![1, 0]).unwrap();
    let voters = vec![honest(&[0.9, 0.1], false), honest(&[0.1, 0.9], false)];
    assert_eq!(ElectionMethods::plurality(&voters, 2, &tb), ids(&[0, 1]));
}

#[test]
fn score_10_exact_totals() {
    let tb = TieBreaker::index_order(3);
    let mut voters = majority_election();
    // Ratings: (0,6,10), (3,0,10), (3,7,2); totals 6/13/22.
    assert_eq!(
        ElectionMethods::score_10(&mut voters, 3, &tb).unwrap(),
        ids(&[2, 1, 0])
    );
}

#[test]
fn score_runoff_matches_score_here() {
    let tb = TieBreaker::index_order(3);
    let mut voters = majority_election();
    // Candidate 2 beats candidate 1 head-to-head 2:1, so no swap happens.
    assert_eq!(
        ElectionMethods::score_10_runoff(&mut voters, 3, &tb).unwrap(),
        ids(&[2, 1, 0])
    );
}

#[test]
fn star_10_keeps_score_winner() {
    let tb = TieBreaker::index_order(3);
    let mut voters = majority_election();
    // Ballot-level runoff between candidates 2 and 1: credited 2, 2, 1.
    assert_eq!(
        ElectionMethods::star_10(&mut voters, 3, &tb).unwrap(),
        ids(&[2, 1, 0])
    );
}

#[test]
fn approval_counts_mean_threshold() {
    let tb = TieBreaker::index_order(3);
    // Approvals: {1, 2}, {0, 2}, {1}; counts 1/2/2, so 2 then 1 then 0.
    assert_eq!(
        ElectionMethods::approval(&majority_election(), 3, &tb).unwrap(),
        ids(&[2, 1, 0])
    );
}

#[test]
fn approval_runoff_runs() {
    let tb = TieBreaker::index_order(3);
    assert_eq!(
        ElectionMethods::approval_runoff(&majority_election(), 3, &tb).unwrap(),
        ids(&[2, 1, 0])
    );
}

#[test]
fn every_method_returns_a_permutation() {
    let n = 3;
    let tb = TieBreaker::index_order(n);
    for method in ElectionMethods::ordinal_methods() {
        let ranking = ElectionMethods::run_ordinal(method, &runoff_differs(), n, &tb).unwrap();
        let mut seen = vec![false; n];
        assert_eq!(ranking.len(), n);
        for c in &ranking {
            assert!(c.0 < n);
            assert!(!seen[c.0]);
            seen[c.0] = true;
        }
    }
    for method in ElectionMethods::cardinal_methods() {
        let mut voters = runoff_differs();
        let ranking = ElectionMethods::run_cardinal(method, &mut voters, n, &tb).unwrap();
        let mut seen = vec![false; n];
        assert_eq!(ranking.len(), n);
        for c in &ranking {
            assert!(c.0 < n);
            assert!(!seen[c.0]);
            seen[c.0] = true;
        }
    }
}

#[test]
fn method_registry_counts() {
    assert_eq!(ElectionMethods::ordinal_method_count(), 4);
    assert_eq!(ElectionMethods::cardinal_method_count(), 11);
    assert_eq!(ElectionMethods::ordinal_methods().len(), 4);
    assert_eq!(ElectionMethods::cardinal_methods().len(), 11);
    assert_eq!(ElectionMethods::ordinal_methods()[0], OrdinalMethod::Plurality);
    assert_eq!(ElectionMethods::cardinal_methods()[0], CardinalMethod::Approval);
}
