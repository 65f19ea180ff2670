//! The tie-breaking discipline every voting rule honors: a caller-supplied
//! strict total order over candidate indices, consulted whenever two
//! candidates are otherwise equal on a ranking key.
//!
//! A tie-breaker is represented by a rank permutation: `ranks[c]` is the
//! priority of candidate `c`, and the candidate with the greater rank wins a
//! tie. Requiring the ranks to be a permutation of `0..n` makes the order
//! total and decisive by construction, which is exactly the contract the
//! engine demands of its callers.

use vstd::prelude::*;

use crate::errors::ElectionError;

verus! {

/// A strict total order over the candidate indices of one election, used as a
/// last-resort discriminator between candidates tied on a ranking key.
pub struct TieBreaker {
    /// `ranks[c]` is the priority of candidate `c`; greater ranks win ties.
    pub ranks: Vec<usize>,
}

impl TieBreaker {
    /// The number of candidate indices this tie-breaker orders.
    pub open spec fn spec_len(self) -> nat {
        self.ranks@.len()
    }

    /// The priority this tie-breaker gives candidate `c`.
    pub open spec fn spec_rank(self, c: int) -> int {
        self.ranks@[c] as int
    }

    /// Well-formed for an election of `n` candidates: the ranks are a
    /// permutation of `0..n`, so any two distinct candidates are ordered.
    pub open spec fn wf(self, n: nat) -> bool {
        &&& self.ranks@.len() == n
        &&& forall|c: int| 0 <= c < n ==> self.ranks@[c] < n
        &&& forall|c: int, d: int|
            0 <= c < n && 0 <= d < n && c != d ==> self.ranks@[c] != self.ranks@[d]
    }

    /// Candidate `a` wins a tie against candidate `b`.
    pub open spec fn spec_prefers(self, a: int, b: int) -> bool {
        self.ranks@[a] > self.ranks@[b]
    }

    /// A well-formed tie-breaker decides every pair of distinct candidates,
    /// one way or the other.
    pub proof fn lemma_decisive(self, n: nat, a: int, b: int)
        requires
            self.wf(n),
            0 <= a < n,
            0 <= b < n,
            a != b,
        ensures
            self.spec_prefers(a, b) <==> !self.spec_prefers(b, a),
    {
    }

    /// The tie-breaker that orders candidates by index: the greater index
    /// wins a tie, as `usize` comparison does.
    pub fn index_order(n: usize) -> (r: TieBreaker)
        ensures
            r.wf(n as nat),
            forall|a: int, b: int|
                0 <= a < n && 0 <= b < n ==> (r.spec_prefers(a, b) <==> a > b),
    {
        let mut ranks: Vec<usize> = Vec::new();
        let mut i: usize = 0;
        while i < n
            invariant
                i <= n,
                ranks@.len() == i,
                forall|c: int| 0 <= c < i ==> ranks@[c] == c,
            decreases n - i,
        {
            ranks.push(i);
            i = i + 1;
        }
        TieBreaker { ranks }
    }

    /// Builds a tie-breaker from an explicit rank permutation; `ranks[c]` is
    /// the priority of candidate `c` and greater ranks win ties. Fails with
    /// `NonDecisiveTieBreaker` exactly when the ranks are not a permutation
    /// of `0..ranks.len()`, since such an assignment leaves some pair of
    /// candidates unordered.
    pub fn from_ranks(ranks: Vec<usize>) -> (r: Result<TieBreaker, ElectionError>)
        ensures
            match r {
                Ok(tb) => tb.ranks@ == ranks@ && tb.wf(ranks@.len()),
                Err(e) => {
                    &&& e == ElectionError::NonDecisiveTieBreaker
                    &&& !(TieBreaker { ranks }).wf(ranks@.len())
                },
            },
    {
        let n = ranks.len();
        let mut seen: Vec<bool> = Vec::new();
        let mut i: usize = 0;
        while i < n
            invariant
                i <= n,
                seen@.len() == i,
                forall|c: int| 0 <= c < i ==> !seen@[c],
            decreases n - i,
        {
            seen.push(false);
            i = i + 1;
        }
        let mut j: usize = 0;
        while j < n
            invariant
                j <= n,
                n == ranks@.len(),
                seen@.len() == n,
                forall|c: int| 0 <= c < j ==> ranks@[c] < n,
                forall|v: int| 0 <= v < n ==> (seen@[v] <==> exists|c: int| 0 <= c < j && ranks@[c] == v),
                forall|c: int, d: int| 0 <= c < j && 0 <= d < j && c != d ==> ranks@[c] != ranks@[d],
            decreases n - j,
        {
            let rank = ranks[j];
            if rank >= n {
                return Err(ElectionError::NonDecisiveTieBreaker);
            }
            if seen[rank] {
                proof {
                    let c0 = choose|c: int| 0 <= c < j && ranks@[c] == rank;
                    assert(ranks@[c0] == ranks@[j as int]);
                }
                return Err(ElectionError::NonDecisiveTieBreaker);
            }
            seen[rank] = true;
            j = j + 1;
        }
        Ok(TieBreaker { ranks })
    }

    /// Whether candidate `a` wins a tie against candidate `b`.
    pub fn prefers(&self, a: usize, b: usize) -> (r: bool)
        requires
            a < self.spec_len(),
            b < self.spec_len(),
        ensures
            r == self.spec_prefers(a as int, b as int),
    {
        self.ranks[a] > self.ranks[b]
    }

    /// The tie-breaker with the opposite orientation: `a` wins a tie under
    /// the result exactly when `b` wins it under `self`. Used where a ballot
    /// construction resolves ties in ascending rather than descending
    /// tie-breaker order.
    pub fn reversed(&self) -> (r: TieBreaker)
        requires
            self.wf(self.spec_len()),
        ensures
            r.wf(self.spec_len()),
            r.spec_len() == self.spec_len(),
            forall|a: int, b: int|
                0 <= a < self.spec_len() && 0 <= b < self.spec_len() && a != b
                    ==> (r.spec_prefers(a, b) <==> self.spec_prefers(b, a)),
    {
        let n = self.ranks.len();
        let mut ranks: Vec<usize> = Vec::new();
        let mut i: usize = 0;
        while i < n
            invariant
                i <= n,
                n == self.ranks@.len(),
                self.wf(n as nat),
                ranks@.len() == i,
                forall|c: int| 0 <= c < i ==> ranks@[c] == n - 1 - self.ranks@[c],
            decreases n - i,
        {
            ranks.push(n - 1 - self.ranks[i]);
            i = i + 1;
        }
        TieBreaker { ranks }
    }
}

} // verus!
