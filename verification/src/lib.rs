//! A social-choice tabulation engine: given a population of voters and a set
//! of candidates, tabulate the outcome of an election under a chosen voting
//! rule and produce a total ranking of candidates from winner to last place.

pub mod election_methods;
pub mod election_profile;
pub mod errors;
pub mod honest_voter;
pub mod real_cardinal_voter;
pub mod real_ordinal_voter;
pub mod tie_breaker;
pub mod utility_functions;
pub mod voters;
