//! Drawing distinct indices without replacement.
//!
//! The executable draw keeps a pool of still-available indices and removes
//! one uniformly chosen position per turn. The spec model (`picked_indices`)
//! captures exactly that process, so the contracts can say both that the
//! result is a distinct selection and that it arose from some sequence of
//! in-range draws; `lemma_selection_reachable` gives the converse, that
//! every ordered selection of distinct indices arises from such draws.

use vstd::prelude::*;

use crate::rng::rand_below;

verus! {

/// The indices `0, 1, ..., n-1` in order: the index pool before any draw.
pub open spec fn index_pool(n: int) -> Seq<usize> {
    Seq::new(n as nat, |i: int| i as usize)
}

/// `picks` is a sequence of `k` draw positions against a pool that starts
/// with `n` entries and shrinks by one per draw.
pub open spec fn bounded_picks(picks: Seq<int>, n: int, k: int) -> bool {
    &&& picks.len() == k
    &&& forall|j: int| 0 <= j < k ==> 0 <= #[trigger] picks[j] < n - j
}

/// The pool entries still available after performing the draws in `picks`.
pub open spec fn remaining_after(avail: Seq<usize>, picks: Seq<int>) -> Seq<usize>
    decreases picks.len(),
{
    if picks.len() == 0 {
        avail
    } else {
        remaining_after(avail.remove(picks[0]), picks.drop_first())
    }
}

/// The pool entries taken by the draws in `picks`, in the order drawn.
pub open spec fn picked_indices(avail: Seq<usize>, picks: Seq<int>) -> Seq<usize>
    decreases picks.len(),
{
    if picks.len() == 0 {
        Seq::empty()
    } else {
        seq![avail[picks[0]]] + picked_indices(avail.remove(picks[0]), picks.drop_first())
    }
}

/// `idxs` is an ordered selection of `k` distinct indices below `n`.
pub open spec fn distinct_selection(idxs: Seq<usize>, n: int, k: int) -> bool {
    &&& idxs.len() == k
    &&& forall|j: int| 0 <= j < k ==> #[trigger] idxs[j] < n
    &&& idxs.no_duplicates()
}

/// Removing one position of a duplicate-free sequence keeps it
/// duplicate-free, drops exactly the value at that position, and keeps
/// every other value.
pub(crate) proof fn lemma_remove_no_dup(s: Seq<usize>, i: int)
    requires
        s.no_duplicates(),
        0 <= i < s.len(),
    ensures
        s.remove(i).no_duplicates(),
        !s.remove(i).contains(s[i]),
        forall|x: usize| s.remove(i).contains(x) ==> s.contains(x),
        forall|x: usize| s.contains(x) && x != s[i] ==> s.remove(i).contains(x),
{
    s.remove_ensures(i);
    let r = s.remove(i);
    assert forall|j1: int, j2: int| 0 <= j1 < j2 < r.len() implies r[j1] != r[j2] by {
        let m1 = if j1 < i {
            j1
        } else {
            j1 + 1
        };
        let m2 = if j2 < i {
            j2
        } else {
            j2 + 1
        };
        assert(r[j1] == s[m1] && r[j2] == s[m2]);
    }
    assert forall|j: int| 0 <= j < r.len() implies r[j] != s[i] by {
        let m = if j < i {
            j
        } else {
            j + 1
        };
        assert(r[j] == s[m] && m != i);
    }
    assert forall|x: usize| s.contains(x) && x != s[i] implies r.contains(x) by {
        let m = choose|m: int| 0 <= m < s.len() && s[m] == x;
        if m < i {
            assert(r[m] == x);
        } else {
            assert(r[m - 1] == x);
        }
    }
}

/// One more draw removes the drawn position from the remaining pool and
/// appends the entry at that position to the picked entries.
proof fn lemma_picked_snoc(avail: Seq<usize>, picks: Seq<int>, p: int)
    requires
        bounded_picks(picks, avail.len() as int, picks.len() as int),
        picks.len() <= avail.len(),
        0 <= p < avail.len() - picks.len(),
    ensures
        remaining_after(avail, picks).len() == avail.len() - picks.len(),
        remaining_after(avail, picks.push(p)) == remaining_after(avail, picks).remove(p),
        picked_indices(avail, picks.push(p)) == picked_indices(avail, picks).push(
            remaining_after(avail, picks)[p],
        ),
    decreases picks.len(),
{
    let q = picks.push(p);
    if picks.len() == 0 {
        assert(q.len() == 1 && q[0] == p);
        assert(q.drop_first() =~= Seq::<int>::empty());
        assert(remaining_after(avail, q) == remaining_after(avail.remove(p), q.drop_first()));
        assert(remaining_after(avail, q) == avail.remove(p));
        assert(picked_indices(avail, q) == seq![avail[p]] + picked_indices(
            avail.remove(p),
            q.drop_first(),
        ));
        assert(picked_indices(avail, q) =~= seq![avail[p]]);
        assert(picked_indices(avail, picks).push(avail[p]) =~= seq![avail[p]]);
    } else {
        let avail2 = avail.remove(picks[0]);
        let picks2 = picks.drop_first();
        avail.remove_ensures(picks[0]);
        assert(bounded_picks(picks2, avail2.len() as int, picks2.len() as int)) by {
            assert(forall|j: int|
                0 <= j < picks2.len() ==> #[trigger] picks2[j] == picks[j + 1]);
        }
        lemma_picked_snoc(avail2, picks2, p);
        assert(q[0] == picks[0]);
        assert(q.drop_first() =~= picks2.push(p));
        assert(remaining_after(avail, q) == remaining_after(avail2, picks2.push(p)));
        assert(picked_indices(avail, q) == seq![avail[picks[0]]] + picked_indices(
            avail2,
            picks2.push(p),
        ));
        assert(seq![avail[picks[0]]] + picked_indices(avail2, picks2).push(
            remaining_after(avail2, picks2)[p],
        ) =~= (seq![avail[picks[0]]] + picked_indices(avail2, picks2)).push(
            remaining_after(avail2, picks2)[p],
        ));
    }
}

/// What a sequence of in-range draws yields: as many entries as draws,
/// each taken from the pool, and no entry twice.
proof fn lemma_picked_props(avail: Seq<usize>, picks: Seq<int>)
    requires
        avail.no_duplicates(),
        bounded_picks(picks, avail.len() as int, picks.len() as int),
        picks.len() <= avail.len(),
    ensures
        picked_indices(avail, picks).len() == picks.len(),
        forall|j: int|
            0 <= j < picks.len() ==> avail.contains(#[trigger] picked_indices(avail, picks)[j]),
        picked_indices(avail, picks).no_duplicates(),
    decreases picks.len(),
{
    if picks.len() > 0 {
        let first = avail[picks[0]];
        let avail2 = avail.remove(picks[0]);
        let picks2 = picks.drop_first();
        avail.remove_ensures(picks[0]);
        lemma_remove_no_dup(avail, picks[0]);
        assert(bounded_picks(picks2, avail2.len() as int, picks2.len() as int)) by {
            assert(forall|j: int|
                0 <= j < picks2.len() ==> #[trigger] picks2[j] == picks[j + 1]);
        }
        lemma_picked_props(avail2, picks2);
        let rest = picked_indices(avail2, picks2);
        let whole = picked_indices(avail, picks);
        assert(whole =~= seq![first] + rest);
        assert(avail.contains(first));
        assert forall|j: int| 0 <= j < picks.len() implies avail.contains(#[trigger] whole[j]) by {
            if j > 0 {
                assert(whole[j] == rest[j - 1]);
                assert(avail2.contains(rest[j - 1]));
            }
        }
        assert forall|j1: int, j2: int| 0 <= j1 < j2 < whole.len() implies whole[j1] != whole[j2] by {
            if j1 == 0 {
                assert(whole[j2] == rest[j2 - 1]);
                assert(avail2.contains(rest[j2 - 1]));
                assert(!avail2.contains(first));
            } else {
                assert(whole[j1] == rest[j1 - 1] && whole[j2] == rest[j2 - 1]);
            }
        }
    }
}

/// For every target selection of distinct pool entries there is a sequence
/// of in-range draws that yields exactly that selection.
proof fn lemma_picks_exist(avail: Seq<usize>, target: Seq<usize>)
    requires
        avail.no_duplicates(),
        target.no_duplicates(),
        forall|j: int| 0 <= j < target.len() ==> avail.contains(#[trigger] target[j]),
        target.len() <= avail.len(),
    ensures
        exists|picks: Seq<int>|
            bounded_picks(picks, avail.len() as int, target.len() as int) && picked_indices(
                avail,
                picks,
            ) == target,
    decreases target.len(),
{
    if target.len() == 0 {
        let picks = Seq::<int>::empty();
        assert(bounded_picks(picks, avail.len() as int, 0) && picked_indices(avail, picks)
            =~= target);
    } else {
        let t0 = target[0];
        assert(avail.contains(t0));
        let p0 = choose|i: int| 0 <= i < avail.len() && avail[i] == t0;
        let avail2 = avail.remove(p0);
        let target2 = target.drop_first();
        avail.remove_ensures(p0);
        lemma_remove_no_dup(avail, p0);
        assert(target2.no_duplicates()) by {
            assert(forall|j: int|
                0 <= j < target2.len() ==> #[trigger] target2[j] == target[j + 1]);
        }
        assert forall|j: int| 0 <= j < target2.len() implies avail2.contains(
            #[trigger] target2[j],
        ) by {
            assert(target2[j] == target[j + 1]);
            assert(avail.contains(target[j + 1]));
            assert(target[j + 1] != t0);
        }
        lemma_picks_exist(avail2, target2);
        let picks2 = choose|picks: Seq<int>|
            bounded_picks(picks, avail2.len() as int, target2.len() as int) && picked_indices(
                avail2,
                picks,
            ) == target2;
        let picks = seq![p0] + picks2;
        assert(bounded_picks(picks, avail.len() as int, target.len() as int)) by {
            assert(forall|j: int|
                1 <= j < picks.len() ==> #[trigger] picks[j] == picks2[j - 1]);
        }
        assert(picks[0] == p0);
        assert(picks.drop_first() =~= picks2);
        assert(picked_indices(avail, picks) == seq![t0] + target2);
        assert(seq![t0] + target2 =~= target);
    }
}

/// Every ordered selection of `k` distinct indices below `n` is reachable:
/// some sequence of in-range draws, performed on the pool `0..n`, yields
/// exactly that selection. Together with the draw primitive admitting every
/// in-range value, this says no selection is ever excluded.
pub proof fn lemma_selection_reachable(n: int, k: int, target: Seq<usize>)
    requires
        0 <= k <= n <= usize::MAX,
        distinct_selection(target, n, k),
    ensures
        exists|picks: Seq<int>|
            bounded_picks(picks, n, k) && picked_indices(index_pool(n), picks) == target,
{
    let pool = index_pool(n);
    assert(pool.no_duplicates());
    assert forall|j: int| 0 <= j < target.len() implies pool.contains(#[trigger] target[j]) by {
        assert(pool[target[j] as int] == target[j]);
    }
    lemma_picks_exist(pool, target);
}

/// Draw `k` distinct indices below `n`, uniformly without replacement, in
/// the order drawn.
pub(crate) fn pick_distinct_indices(n: usize, k: usize, rng: &mut rand::rngs::StdRng) -> (idxs: Vec<
    usize,
>)
    requires
        k <= n,
    ensures
        distinct_selection(idxs@, n as int, k as int),
        exists|picks: Seq<int>|
            bounded_picks(picks, n as int, k as int) && idxs@ == picked_indices(
                index_pool(n as int),
                picks,
            ),
{
    let ghost pool = index_pool(n as int);
    let mut avail: Vec<usize> = Vec::new();
    for i in 0..n
        invariant
            avail@ =~= index_pool(i as int),
    {
        avail.push(i);
        proof {
            assert(avail@ =~= index_pool(i as int).push(i as usize));
            assert(index_pool(i + 1) =~= index_pool(i as int).push(i as usize));
        }
    }
    let mut out: Vec<usize> = Vec::new();
    let ghost mut gpicks = Seq::<int>::empty();
    for j in 0..k
        invariant
            k <= n,
            gpicks.len() == j,
            bounded_picks(gpicks, n as int, j as int),
            avail@ == remaining_after(pool, gpicks),
            avail@.len() == n - j,
            out@ == picked_indices(pool, gpicks),
            pool == index_pool(n as int),
    {
        proof {
            assert(pool.len() == n);
        }
        let p = rand_below(rng, avail.len());
        proof {
            lemma_picked_snoc(pool, gpicks, p as int);
        }
        let idx = avail.remove(p);
        out.push(idx);
        proof {
            gpicks = gpicks.push(p as int);
            assert(bounded_picks(gpicks, n as int, (j + 1) as int)) by {
                assert(forall|m: int|
                    0 <= m < j ==> #[trigger] gpicks[m] == gpicks.drop_last()[m]);
            }
        }
    }
    proof {
        assert(pool.no_duplicates());
        lemma_picked_props(pool, gpicks);
        assert forall|j: int| 0 <= j < out@.len() implies #[trigger] out@[j] < n by {
            assert(pool.contains(out@[j]));
            let m = choose|m: int| 0 <= m < pool.len() && pool[m] == out@[j];
            assert(pool[m] == m as usize);
        }
    }
    out
}

} // verus!
