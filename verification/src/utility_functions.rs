//! Helpers shared by every counting routine: the ranking predicates, the
//! candidate-list generator, and the one place where sort/tie-break
//! correctness lives — sorting candidates descending by a numeric key with a
//! tie-breaker as strict secondary comparator.

use vstd::multiset::Multiset;
use vstd::prelude::*;

use crate::election_profile::CandidateID;
use crate::tie_breaker::TieBreaker;

verus! {

/// Every candidate index in `s` lies below `n`.
pub open spec fn ids_below(s: Seq<CandidateID>, n: int) -> bool {
    forall|i: int| 0 <= i < s.len() ==> (#[trigger] s[i].0 as int) < n
}

/// No candidate index occurs twice in `s`.
pub open spec fn distinct_ids(s: Seq<CandidateID>) -> bool {
    forall|i: int, j: int| 0 <= i < j < s.len() ==> (#[trigger] s[i].0) != (#[trigger] s[j].0)
}

/// `s` is a full ranking of an `n`-candidate election: a permutation of
/// `CandidateID(0..n)` with no duplicates or omissions.
pub open spec fn is_ranking(s: Seq<CandidateID>, n: int) -> bool {
    &&& s.len() == n
    &&& ids_below(s, n)
    &&& distinct_ids(s)
}

/// Candidate `a` finishes ahead of candidate `b` on key vector `key`:
/// strictly greater key, or an equal key and the tie-breaker's nod.
pub open spec fn tally_beats(key: Seq<usize>, tb: TieBreaker, a: int, b: int) -> bool {
    key[a] > key[b] || (key[a] == key[b] && tb.spec_prefers(a, b))
}

/// `s` lists candidates in descending key order, ties resolved by the
/// tie-breaker.
pub open spec fn sorted_by_tally(key: Seq<usize>, tb: TieBreaker, s: Seq<CandidateID>) -> bool {
    forall|i: int, j: int|
        0 <= i < j < s.len() ==> tally_beats(key, tb, #[trigger] s[i].0 as int, #[trigger] s[j].0 as int)
}

/// A well-formed tie-breaker makes `tally_beats` a total relation on
/// distinct candidates.
pub proof fn lemma_tally_beats_total(key: Seq<usize>, tb: TieBreaker, a: int, b: int)
    requires
        tb.wf(key.len()),
        0 <= a < key.len(),
        0 <= b < key.len(),
        a != b,
    ensures
        tally_beats(key, tb, a, b) || tally_beats(key, tb, b, a),
{
    assert(tb.spec_rank(a) != tb.spec_rank(b));
}

/// `tally_beats` is transitive.
pub proof fn lemma_tally_beats_trans(key: Seq<usize>, tb: TieBreaker, a: int, b: int, c: int)
    requires
        tb.wf(key.len()),
        0 <= a < key.len(),
        0 <= b < key.len(),
        0 <= c < key.len(),
        tally_beats(key, tb, a, b),
        tally_beats(key, tb, b, c),
    ensures
        tally_beats(key, tb, a, c),
{
}

/// `tally_beats` never holds in both directions.
pub proof fn lemma_tally_beats_antisymmetric(key: Seq<usize>, tb: TieBreaker, a: int, b: int)
    requires
        tally_beats(key, tb, a, b),
    ensures
        !tally_beats(key, tb, b, a),
{
}

/// Two full rankings of the same election sorted under the same key and
/// tie-breaker are identical: the sort order is a strict total order, so
/// every driver's output ranking is uniquely determined.
pub proof fn lemma_sorted_ranking_unique(
    key: Seq<usize>,
    tb: TieBreaker,
    r1: Seq<CandidateID>,
    r2: Seq<CandidateID>,
)
    requires
        r1.len() == r2.len(),
        distinct_ids(r1),
        distinct_ids(r2),
        forall|c: int| #[trigger] id_covered(r1, c) <==> #[trigger] id_covered(r2, c),
        sorted_by_tally(key, tb, r1),
        sorted_by_tally(key, tb, r2),
    ensures
        r1 =~= r2,
    decreases r1.len(),
{
    if r1.len() > 0 {
        // The heads agree: each head occurs in the other ranking, and
        // anywhere but the front it would be beaten by that front.
        assert(id_covered(r1, r1[0].0 as int));
        assert(id_covered(r2, r1[0].0 as int));
        let k = choose|k: int| 0 <= k < r2.len() && (#[trigger] r2[k]).0 as int == r1[0].0 as int;
        assert(id_covered(r2, r2[0].0 as int));
        assert(id_covered(r1, r2[0].0 as int));
        let m = choose|m: int| 0 <= m < r1.len() && (#[trigger] r1[m]).0 as int == r2[0].0 as int;
        if k > 0 && m > 0 {
            assert(tally_beats(key, tb, r2[0].0 as int, r2[k].0 as int));
            assert(tally_beats(key, tb, r1[0].0 as int, r1[m].0 as int));
            lemma_tally_beats_antisymmetric(key, tb, r1[0].0 as int, r2[0].0 as int);
        }
        assert(r1[0].0 == r2[0].0);

        let t1 = r1.drop_first();
        let t2 = r2.drop_first();
        assert forall|c: int| #[trigger] id_covered(t1, c) <==> #[trigger] id_covered(t2, c) by {
            if id_covered(t1, c) {
                let j = choose|j: int| 0 <= j < t1.len() && (#[trigger] t1[j]).0 as int == c;
                assert(r1[j + 1].0 as int == c);
                assert(id_covered(r1, c));
                assert(id_covered(r2, c));
                assert(c != r1[0].0 as int);
                let j2 = choose|j2: int| 0 <= j2 < r2.len() && (#[trigger] r2[j2]).0 as int == c;
                assert(j2 > 0);
                assert(t2[j2 - 1].0 as int == c);
                assert(id_covered(t2, c));
            }
            if id_covered(t2, c) {
                let j = choose|j: int| 0 <= j < t2.len() && (#[trigger] t2[j]).0 as int == c;
                assert(r2[j + 1].0 as int == c);
                assert(id_covered(r2, c));
                assert(id_covered(r1, c));
                assert(c != r2[0].0 as int);
                let j1 = choose|j1: int| 0 <= j1 < r1.len() && (#[trigger] r1[j1]).0 as int == c;
                assert(j1 > 0);
                assert(t1[j1 - 1].0 as int == c);
                assert(id_covered(t1, c));
            }
        }
        assert forall|i: int, j: int|
            0 <= i < j < t1.len() implies tally_beats(
            key,
            tb,
            #[trigger] t1[i].0 as int,
            #[trigger] t1[j].0 as int,
        ) by {
            assert(t1[i] == r1[i + 1] && t1[j] == r1[j + 1]);
        }
        assert forall|i: int, j: int|
            0 <= i < j < t2.len() implies tally_beats(
            key,
            tb,
            #[trigger] t2[i].0 as int,
            #[trigger] t2[j].0 as int,
        ) by {
            assert(t2[i] == r2[i + 1] && t2[j] == r2[j + 1]);
        }
        lemma_sorted_ranking_unique(key, tb, t1, t2);
        assert forall|i: int| 0 <= i < r1.len() implies r1[i] == r2[i] by {
            if i > 0 {
                assert(t1[i - 1] == t2[i - 1]);
            } else {
                assert(r1[0] == r2[0]);
            }
        }
    }
}

/// Generates the candidate list of an `n`-candidate election:
/// `CandidateID(0)` through `CandidateID(n - 1)` in index order.
pub fn generate_candidates(n: usize) -> (r: Vec<CandidateID>)
    ensures
        r@.len() == n,
        forall|i: int| 0 <= i < n ==> (#[trigger] r@[i]).0 == i,
        is_ranking(r@, n as int),
{
    let mut r: Vec<CandidateID> = Vec::new();
    let mut i: usize = 0;
    while i < n
        invariant
            i <= n,
            r@.len() == i,
            forall|k: int| 0 <= k < i ==> (#[trigger] r@[k]).0 == k,
        decreases n - i,
    {
        r.push(CandidateID(i));
        i = i + 1;
    }
    r
}

/// Whether candidate `a` finishes ahead of candidate `b` on key vector `v`.
fn beats(v: &Vec<usize>, tb: &TieBreaker, a: CandidateID, b: CandidateID) -> (r: bool)
    requires
        (a.0 as int) < v@.len(),
        (b.0 as int) < v@.len(),
        tb.spec_len() == v@.len(),
    ensures
        r == tally_beats(v@, *tb, a.0 as int, b.0 as int),
{
    let va = v[a.0];
    let vb = v[b.0];
    va > vb || (va == vb && tb.prefers(a.0, b.0))
}

/// Sorts `candidates` in decreasing order of the corresponding entry of `v`
/// (`CandidateID(x)` is sorted by key `v[x]` descending), with the supplied
/// tie-breaker as a strict secondary comparator. The result is a permutation
/// of the input.
pub fn sort_candidates_by_vec(
    candidates: &mut Vec<CandidateID>,
    v: &Vec<usize>,
    tie_breaker: &TieBreaker,
)
    requires
        tie_breaker.wf(v@.len()),
        ids_below(old(candidates)@, v@.len() as int),
        distinct_ids(old(candidates)@),
    ensures
        final(candidates)@.len() == old(candidates)@.len(),
        final(candidates)@.to_multiset() == old(candidates)@.to_multiset(),
        ids_below(final(candidates)@, v@.len() as int),
        distinct_ids(final(candidates)@),
        sorted_by_tally(v@, *tie_breaker, final(candidates)@),
{
    let ghost orig = candidates@;
    let n_items = candidates.len();

    let mut remaining: Vec<CandidateID> = Vec::new();
    let mut i: usize = 0;
    while i < n_items
        invariant
            i <= n_items,
            n_items == candidates@.len(),
            candidates@ == orig,
            remaining@ == orig.take(i as int),
        decreases n_items - i,
    {
        remaining.push(candidates[i]);
        proof {
            assert(orig.take(i as int).push(orig[i as int]) =~= orig.take(i + 1));
        }
        i = i + 1;
    }
    proof {
        assert(orig.take(n_items as int) =~= orig);
    }

    let mut result: Vec<CandidateID> = Vec::new();
    proof {
        broadcast use vstd::seq_lib::to_multiset_len;
        broadcast use vstd::multiset::group_multiset_axioms;
        assert(result@.to_multiset().len() == 0);
        assert(result@.to_multiset() =~= Multiset::<CandidateID>::empty());
        assert(result@.to_multiset().add(remaining@.to_multiset()) =~= remaining@.to_multiset());
    }
    while remaining.len() > 0
        invariant
            tie_breaker.wf(v@.len()),
            result@.len() + remaining@.len() == orig.len(),
            result@.to_multiset().add(remaining@.to_multiset()) == orig.to_multiset(),
            ids_below(result@, v@.len() as int),
            ids_below(remaining@, v@.len() as int),
            distinct_ids(result@),
            distinct_ids(remaining@),
            forall|p: int, q: int|
                0 <= p < result@.len() && 0 <= q < remaining@.len()
                    ==> (#[trigger] result@[p].0) != (#[trigger] remaining@[q].0),
            sorted_by_tally(v@, *tie_breaker, result@),
            forall|p: int, q: int|
                0 <= p < result@.len() && 0 <= q < remaining@.len()
                    ==> tally_beats(v@, *tie_breaker, #[trigger] result@[p].0 as int, #[trigger] remaining@[q].0 as int),
        decreases remaining@.len(),
    {
        // Find the highest-finishing candidate still remaining.
        let mut best: usize = 0;
        let mut k: usize = 1;
        while k < remaining.len()
            invariant
                tie_breaker.wf(v@.len()),
                ids_below(remaining@, v@.len() as int),
                distinct_ids(remaining@),
                0 < remaining@.len(),
                best < k,
                k <= remaining@.len(),
                forall|q: int|
                    0 <= q < k && q != best
                        ==> tally_beats(v@, *tie_breaker, remaining@[best as int].0 as int, #[trigger] remaining@[q].0 as int),
            decreases remaining@.len() - k,
        {
            if beats(v, tie_breaker, remaining[k], remaining[best]) {
                proof {
                    let rem = remaining@;
                    assert forall|q: int| 0 <= q < k + 1 && q != k as int
                        implies tally_beats(v@, *tie_breaker, rem[k as int].0 as int, #[trigger] rem[q].0 as int) by {
                        if q != best {
                            lemma_tally_beats_trans(
                                v@,
                                *tie_breaker,
                                rem[k as int].0 as int,
                                rem[best as int].0 as int,
                                rem[q].0 as int,
                            );
                        }
                    }
                }
                best = k;
            } else {
                proof {
                    lemma_tally_beats_total(
                        v@,
                        *tie_breaker,
                        remaining@[best as int].0 as int,
                        remaining@[k as int].0 as int,
                    );
                }
            }
            k = k + 1;
        }

        let ghost rem_before = remaining@;
        let ghost res_before = result@;
        let m = remaining.remove(best);
        result.push(m);
        proof {
            broadcast use vstd::seq_lib::to_multiset_build;
            broadcast use vstd::seq_lib::to_multiset_remove;
            broadcast use vstd::seq_lib::to_multiset_contains;
            broadcast use vstd::multiset::group_multiset_axioms;

            assert(remaining@ == rem_before.remove(best as int));
            assert(result@ == res_before.push(m));
            assert(rem_before.contains(m));
            assert(rem_before.to_multiset().count(m) > 0);
            assert(result@.to_multiset().add(remaining@.to_multiset())
                =~= res_before.to_multiset().add(rem_before.to_multiset()));
            assert forall|q: int| 0 <= q < remaining@.len()
                implies #[trigger] remaining@[q] == rem_before[if q < best { q } else { q + 1 }] by {
            }
        }
    }
    proof {
        broadcast use vstd::seq_lib::to_multiset_len;
        broadcast use vstd::multiset::group_multiset_axioms;
        assert(remaining@.len() == 0);
        assert(remaining@.to_multiset().len() == 0);
        assert(remaining@.to_multiset() =~= Multiset::<CandidateID>::empty());
        assert(result@.to_multiset().add(Multiset::<CandidateID>::empty()) =~= result@.to_multiset());
    }
    *candidates = result;
}

/// Candidate index `c` appears somewhere in `s`.
pub open spec fn id_covered(s: Seq<CandidateID>, c: int) -> bool {
    exists|k: int| 0 <= k < s.len() && (#[trigger] s[k]).0 as int == c
}

/// A full ranking lists every candidate index below `n` somewhere.
pub proof fn lemma_ranking_onto(s: Seq<CandidateID>, n: int)
    requires
        is_ranking(s, n),
    ensures
        forall|c: int| 0 <= c < n ==> #[trigger] id_covered(s, c),
{
    broadcast use vstd::set::group_set_axioms;

    let ids = Seq::new(s.len(), |k: int| s[k].0 as int);
    assert(ids.no_duplicates());
    ids.unique_seq_to_set();
    let range = vstd::set_lib::set_int_range(0, n);
    vstd::set_lib::lemma_int_range(0, n);
    assert forall|c: int| 0 <= c < n implies #[trigger] id_covered(s, c) by {
        if !ids.to_set().contains(c) {
            assert(ids.to_set().subset_of(range.remove(c)));
            vstd::set_lib::lemma_len_subset(ids.to_set(), range.remove(c));
            assert(range.remove(c).len() == n - 1);
            assert(false);
        }
        assert(ids.contains(c));
        let k = choose|k: int| 0 <= k < ids.len() && ids[k] == c;
        assert(s[k].0 as int == c);
    }
}

/// Copies a vector of candidate identifiers.
pub fn copy_ids(v: &Vec<CandidateID>) -> (r: Vec<CandidateID>)
    ensures
        r@ == v@,
{
    let mut r: Vec<CandidateID> = Vec::new();
    let mut i: usize = 0;
    while i < v.len()
        invariant
            i <= v@.len(),
            r@ == v@.take(i as int),
        decreases v@.len() - i,
    {
        r.push(v[i]);
        proof {
            assert(v@.take(i as int).push(v@[i as int]) =~= v@.take(i + 1));
        }
        i = i + 1;
    }
    proof {
        assert(v@.take(v@.len() as int) =~= v@);
    }
    r
}

/// Copies a vector of tallies or ratings.
pub fn copy_usizes(v: &Vec<usize>) -> (r: Vec<usize>)
    ensures
        r@ == v@,
{
    let mut r: Vec<usize> = Vec::new();
    let mut i: usize = 0;
    while i < v.len()
        invariant
            i <= v@.len(),
            r@ == v@.take(i as int),
        decreases v@.len() - i,
    {
        r.push(v[i]);
        proof {
            assert(v@.take(i as int).push(v@[i as int]) =~= v@.take(i + 1));
        }
        i = i + 1;
    }
    proof {
        assert(v@.take(v@.len() as int) =~= v@);
    }
    r
}

/// `s` ranks all candidates descending by `key`, with ties between equal
/// keys kept in ascending index order.
pub open spec fn index_tie_sorted(key: Seq<usize>, s: Seq<CandidateID>) -> bool {
    forall|i: int, j: int|
        0 <= i < j < s.len() ==> {
            let a = (#[trigger] s[i]).0 as int;
            let b = (#[trigger] s[j]).0 as int;
            key[a] > key[b] || (key[a] == key[b] && a < b)
        }
}

/// The full ranking of candidates `0..key.len()` descending by `key`, ties
/// between equal keys in ascending index order.
pub fn index_tie_ranking(key: &Vec<usize>) -> (r: Vec<CandidateID>)
    ensures
        is_ranking(r@, key@.len() as int),
        index_tie_sorted(key@, r@),
{
    let n = key.len();
    let mut ranks: Vec<usize> = Vec::new();
    let mut i: usize = 0;
    while i < n
        invariant
            i <= n,
            ranks@.len() == i,
            forall|c: int| 0 <= c < i ==> (#[trigger] ranks@[c]) as int == n - 1 - c,
        decreases n - i,
    {
        ranks.push(n - 1 - i);
        i = i + 1;
    }
    let tb = TieBreaker { ranks };
    proof {
        assert(tb.wf(n as nat));
    }
    let mut ids = generate_candidates(n);
    sort_candidates_by_vec(&mut ids, key, &tb);
    proof {
        assert forall|i: int, j: int| 0 <= i < j < ids@.len() implies {
            let a = (#[trigger] ids@[i]).0 as int;
            let b = (#[trigger] ids@[j]).0 as int;
            key@[a] > key@[b] || (key@[a] == key@[b] && a < b)
        } by {
            assert(tally_beats(key@, tb, ids@[i].0 as int, ids@[j].0 as int));
        }
    }
    ids
}

/// The views of a vector of candidate groups.
pub open spec fn group_views(groups: Seq<Vec<CandidateID>>) -> Seq<Seq<CandidateID>> {
    groups.map_values(|g: Vec<CandidateID>| g@)
}

/// The structural half of a correct ordinal-with-equality ballot for key
/// vector `key`: groups are non-empty, hold candidates of one common key in
/// ascending index order, and are ordered by strictly descending key.
pub open spec fn groups_shape_ok(key: Seq<usize>, gs: Seq<Seq<CandidateID>>) -> bool {
    &&& forall|g: int| 0 <= g < gs.len() ==> (#[trigger] gs[g]).len() > 0
    &&& forall|g: int, a: int|
        0 <= g < gs.len() && 0 <= a < gs[g].len() ==> ((#[trigger] gs[g][a]).0 as int) < key.len()
    &&& forall|g: int, a: int, b: int|
        0 <= g < gs.len() && 0 <= a < b < gs[g].len() ==> {
            let x = (#[trigger] gs[g][a]).0 as int;
            let y = (#[trigger] gs[g][b]).0 as int;
            x < y && key[x] == key[y]
        }
    &&& forall|g: int, h: int, a: int, b: int|
        0 <= g < h < gs.len() && 0 <= a < gs[g].len() && 0 <= b < gs[h].len()
            ==> key[(#[trigger] gs[g][a]).0 as int] > key[(#[trigger] gs[h][b]).0 as int]
}

/// Candidate index `c` appears in some group.
pub open spec fn group_covered(gs: Seq<Seq<CandidateID>>, c: int) -> bool {
    exists|g: int, a: int| 0 <= g < gs.len() && 0 <= a < gs[g].len() && (#[trigger] gs[g][a]).0 as int == c
}

/// A correct ordinal-with-equality ballot for key vector `key`: candidates
/// grouped by exactly equal key, groups ordered by strictly descending key,
/// every candidate in exactly one group.
pub open spec fn ordinal_equal_ok(key: Seq<usize>, gs: Seq<Seq<CandidateID>>) -> bool {
    &&& groups_shape_ok(key, gs)
    &&& forall|c: int| 0 <= c < key.len() ==> #[trigger] group_covered(gs, c)
}

/// Builds the ordinal-with-equality ballot for `key`: a single pass over the
/// strict index-tie ranking, starting a new group whenever the key differs
/// from the previous candidate's.
pub fn build_equal_groups(key: &Vec<usize>) -> (groups: Vec<Vec<CandidateID>>)
    ensures
        ordinal_equal_ok(key@, group_views(groups@)),
{
    let ballot = index_tie_ranking(key);
    let n = ballot.len();
    let mut groups: Vec<Vec<CandidateID>> = Vec::new();
    let mut i: usize = 0;
    while i < n
        invariant
            i <= n,
            n == ballot@.len(),
            n == key@.len(),
            is_ranking(ballot@, n as int),
            index_tie_sorted(key@, ballot@),
            groups_shape_ok(key@, group_views(groups@)),
            i == 0 ==> groups@.len() == 0,
            i > 0 ==> {
                let gv = group_views(groups@);
                let lg = gv[gv.len() - 1];
                gv.len() > 0 && lg[lg.len() - 1] == ballot@[i - 1]
            },
            forall|k: int| 0 <= k < i ==> #[trigger] group_covered(group_views(groups@), ballot@[k].0 as int),
            i > 0 ==> {
                let gv = group_views(groups@);
                forall|g: int, a: int|
                    0 <= g < gv.len() && 0 <= a < gv[g].len()
                        ==> key@[(#[trigger] gv[g][a]).0 as int] >= key@[ballot@[i - 1].0 as int]
            },
        decreases n - i,
    {
        let ghost gv_old = group_views(groups@);
        let c = ballot[i];
        let start_new = if i == 0 {
            true
        } else {
            key[ballot[i - 1].0] != key[c.0]
        };
        if start_new {
            let mut g: Vec<CandidateID> = Vec::new();
            g.push(c);
            groups.push(g);
            proof {
                let gv = group_views(groups@);
                assert(gv =~= gv_old.push(seq![c]));
                assert forall|k: int| 0 <= k < i + 1 implies #[trigger] group_covered(gv, ballot@[k].0 as int) by {
                    if k < i {
                        assert(group_covered(gv_old, ballot@[k].0 as int));
                        let (g0, a0) = choose|g0: int, a0: int|
                            0 <= g0 < gv_old.len() && 0 <= a0 < gv_old[g0].len()
                                && (#[trigger] gv_old[g0][a0]).0 as int == ballot@[k].0 as int;
                        assert(gv[g0][a0].0 as int == ballot@[k].0 as int);
                    } else {
                        assert(gv[gv.len() - 1][0] == c);
                    }
                }
            }
        } else {
            if let Some(mut g) = groups.pop() {
                g.push(c);
                groups.push(g);
            }
            proof {
                let gv = group_views(groups@);
                let last = gv_old.len() - 1;
                assert(gv =~= gv_old.update(last, gv_old[last].push(c)));
                assert forall|k: int| 0 <= k < i + 1 implies #[trigger] group_covered(gv, ballot@[k].0 as int) by {
                    if k < i {
                        assert(group_covered(gv_old, ballot@[k].0 as int));
                        let (g0, a0) = choose|g0: int, a0: int|
                            0 <= g0 < gv_old.len() && 0 <= a0 < gv_old[g0].len()
                                && (#[trigger] gv_old[g0][a0]).0 as int == ballot@[k].0 as int;
                        assert(gv[g0][a0].0 as int == ballot@[k].0 as int);
                    } else {
                        assert(gv[last][gv[last].len() - 1] == c);
                    }
                }
            }
        }
        i = i + 1;
    }
    proof {
        lemma_ranking_onto(ballot@, n as int);
        assert forall|c: int| 0 <= c < key@.len() implies #[trigger] group_covered(group_views(groups@), c) by {
            assert(id_covered(ballot@, c));
            let k = choose|k: int| 0 <= k < ballot@.len() && (#[trigger] ballot@[k]).0 as int == c;
            assert(group_covered(group_views(groups@), ballot@[k].0 as int));
        }
    }
    groups
}

/// Candidate `i` clears the approval bound.
pub open spec fn approves_at(key: Seq<usize>, bound: int, i: int) -> bool {
    key[i] as int >= bound
}

/// The candidates below `upto` that clear the approval bound, in ascending
/// index order.
pub open spec fn approval_list(key: Seq<usize>, bound: int, upto: int) -> Seq<CandidateID>
    decreases upto,
{
    if upto <= 0 {
        Seq::empty()
    } else if approves_at(key, bound, upto - 1) {
        approval_list(key, bound, upto - 1).push(CandidateID((upto - 1) as usize))
    } else {
        approval_list(key, bound, upto - 1)
    }
}

/// The highest index among the maxima of `key[..upto]`.
pub open spec fn last_max_index(key: Seq<usize>, upto: int) -> int
    decreases upto,
{
    if upto <= 1 {
        0
    } else {
        let m = last_max_index(key, upto - 1);
        if key[upto - 1] >= key[m] {
            upto - 1
        } else {
            m
        }
    }
}

pub proof fn lemma_approval_list_props(key: Seq<usize>, bound: int, upto: int)
    requires
        0 <= upto <= key.len(),
        upto <= usize::MAX,
    ensures
        ({
            let l = approval_list(key, bound, upto);
            &&& forall|k: int| 0 <= k < l.len() ==> ((#[trigger] l[k]).0 as int) < upto
            &&& forall|k1: int, k2: int|
                0 <= k1 < k2 < l.len() ==> (#[trigger] l[k1]).0 < (#[trigger] l[k2]).0
        }),
    decreases upto,
{
    if upto > 0 {
        lemma_approval_list_props(key, bound, upto - 1);
        let lp = approval_list(key, bound, upto - 1);
        let l = approval_list(key, bound, upto);
        if approves_at(key, bound, upto - 1) {
            assert(l == lp.push(CandidateID((upto - 1) as usize)));
            assert forall|k: int| 0 <= k < l.len() implies ((#[trigger] l[k]).0 as int) < upto by {
                if k < lp.len() {
                    assert(l[k] == lp[k]);
                }
            }
            assert forall|k1: int, k2: int|
                0 <= k1 < k2 < l.len() implies (#[trigger] l[k1]).0 < (#[trigger] l[k2]).0 by {
                assert(l[k1] == lp[k1]);
                if k2 < lp.len() {
                    assert(l[k2] == lp[k2]);
                } else {
                    assert(l[k2].0 == (upto - 1) as usize);
                }
            }
        }
    }
}

/// The approval ballot for a fixed bound: every candidate whose key clears
/// the bound, or — if no candidate does — the single highest-keyed candidate
/// (the highest such index when several tie), so the ballot is never empty.
pub open spec fn spec_approval_ballot_with_bound(key: Seq<usize>, bound: int) -> Seq<CandidateID> {
    let l = approval_list(key, bound, key.len() as int);
    if l.len() > 0 {
        l
    } else {
        seq![CandidateID(last_max_index(key, key.len() as int) as usize)]
    }
}

/// Generates an approval ballot: all candidates with utility at or above
/// `bound`, falling back to the single favorite candidate when the bound
/// would approve no one.
pub fn generate_approval_ballot(utilities: &Vec<usize>, bound: usize) -> (r: Vec<CandidateID>)
    requires
        utilities@.len() >= 1,
    ensures
        r@ == spec_approval_ballot_with_bound(utilities@, bound as int),
        1 <= r@.len(),
        ids_below(r@, utilities@.len() as int),
        distinct_ids(r@),
{
    let n = utilities.len();
    let mut ballot: Vec<CandidateID> = Vec::new();
    let mut i: usize = 0;
    while i < n
        invariant
            i <= n,
            n == utilities@.len(),
            ballot@ == approval_list(utilities@, bound as int, i as int),
        decreases n - i,
    {
        if utilities[i] >= bound {
            ballot.push(CandidateID(i));
        }
        i = i + 1;
    }
    if ballot.len() == 0 {
        let mut m: usize = 0;
        let mut k: usize = 1;
        while k < n
            invariant
                1 <= k <= n,
                n == utilities@.len(),
                m < k,
                m as int == last_max_index(utilities@, k as int),
            decreases n - k,
        {
            if utilities[k] >= utilities[m] {
                m = k;
            }
            k = k + 1;
        }
        ballot.push(CandidateID(m));
    }
    proof {
        lemma_approval_list_props(utilities@, bound as int, n as int);
    }
    ballot
}

} // verus!
