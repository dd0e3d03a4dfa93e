//! The sampling loop: draw a budget of candidates, emit the first one
//! that meets the overall length bounds, and count how many of the whole
//! budget met them, for the entropy adjustment.

use vstd::prelude::*;

use crate::password::{lemma_candidate_len_bound, words_byte_len, Password, PasswordRules};
use crate::util::{Bounds, Len};

verus! {

/// The sampling budget was exhausted: none of the `sample_size`
/// candidates drawn met the length bounds.
#[derive(Debug, Clone, Copy, Eq, PartialEq, Structural)]
pub struct SampleExhausted {
    pub sample_size: usize,
}

/// `p` meets the overall length bounds.
pub open spec fn passes(p: Password, bounds: Bounds) -> bool {
    bounds.spec_contains(p.spec_len())
}

/// How many candidates meet the bounds.
pub open spec fn count_passing(ps: Seq<Password>, bounds: Bounds) -> nat
    decreases ps.len(),
{
    if ps.len() == 0 {
        0
    } else {
        count_passing(ps.drop_last(), bounds) + if passes(ps.last(), bounds) {
            1nat
        } else {
            0nat
        }
    }
}

/// Position `i` holds the first candidate that meets the bounds.
pub open spec fn first_passing(ps: Seq<Password>, bounds: Bounds, i: int) -> bool {
    &&& 0 <= i < ps.len()
    &&& passes(ps[i], bounds)
    &&& forall|j: int| 0 <= j < i ==> !passes(#[trigger] ps[j], bounds)
}

/// When every candidate passes, the count is the whole budget.
proof fn lemma_count_passing_all(ps: Seq<Password>, bounds: Bounds)
    requires
        forall|i: int| 0 <= i < ps.len() ==> passes(#[trigger] ps[i], bounds),
    ensures
        count_passing(ps, bounds) == ps.len(),
    decreases ps.len(),
{
    if ps.len() > 0 {
        lemma_count_passing_all(ps.drop_last(), bounds);
    }
}

/// Of a budget of candidates, keep the first that meets the bounds and
/// count how many do overall; fail when none does. Which candidate is
/// emitted is unaffected by the counting pass.
pub fn pick_password(candidates: Vec<Password>, bounds: Bounds) -> (r: Result<
    (Password, usize),
    SampleExhausted,
>)
    requires
        forall|i: int|
            0 <= i < candidates@.len() ==> (#[trigger] candidates@[i]).spec_len() <= usize::MAX,
    ensures
        r is Ok <==> exists|i: int|
            0 <= i < candidates@.len() && passes(#[trigger] candidates@[i], bounds),
        r matches Ok((p, c)) ==> exists|i: int|
            #[trigger] first_passing(candidates@, bounds, i) && p == candidates@[i],
        r matches Ok((p, c)) ==> c == count_passing(candidates@, bounds) && 1 <= c
            <= candidates@.len(),
        r matches Err(e) ==> e == (SampleExhausted { sample_size: candidates@.len() as usize })
            && count_passing(candidates@, bounds) == 0,
        candidates@.len() > 0 && (forall|i: int|
            0 <= i < candidates@.len() ==> passes(#[trigger] candidates@[i], bounds)) ==> r is Ok
            && (r matches Ok((p, c)) ==> c == candidates@.len()),
{
    proof {
        if forall|i: int| 0 <= i < candidates@.len() ==> passes(#[trigger] candidates@[i], bounds) {
            lemma_count_passing_all(candidates@, bounds);
        }
    }
    let n = candidates.len();
    let mut count: usize = 0;
    let mut first_idx: usize = n;
    for i in 0..n
        invariant
            n == candidates@.len(),
            forall|m: int|
                0 <= m < candidates@.len() ==> (#[trigger] candidates@[m]).spec_len()
                    <= usize::MAX,
            count == count_passing(candidates@.take(i as int), bounds),
            count <= i,
            first_idx == n || first_passing(candidates@, bounds, first_idx as int),
            first_idx == n ==> forall|j: int|
                0 <= j < i ==> !passes(#[trigger] candidates@[j], bounds),
            first_idx != n ==> count >= 1,
            first_idx == n ==> count == 0,
    {
        let v = candidates[i].len();
        let ok = match bounds.check(v) {
            Ok(_) => true,
            Err(_) => false,
        };
        if ok {
            if first_idx == n {
                first_idx = i;
            }
            count = count + 1;
        }
        proof {
            assert(candidates@.take(i + 1).drop_last() =~= candidates@.take(i as int));
            assert(candidates@.take(i + 1).last() == candidates@[i as int]);
        }
    }
    proof {
        assert(candidates@.take(n as int) =~= candidates@);
    }
    if first_idx == n {
        Err(SampleExhausted { sample_size: n })
    } else {
        let mut cs = candidates;
        let p = cs.remove(first_idx);
        Ok((p, count))
    }
}

/// One full generation run: draw `sample_size` candidates, hand back the
/// first that meets the bounds together with the number of candidates
/// that met them, or report the budget exhausted. The bounds decide over
/// each candidate's byte length, so when the bounds cannot reject any
/// length at all and the budget is positive, the run succeeds and every
/// candidate counts.
pub fn run_sampling(
    rules: &PasswordRules,
    rng: &mut rand::rngs::StdRng,
    sample_size: usize,
    bounds: Bounds,
) -> (r: Result<(Password, usize), SampleExhausted>)
    requires
        rules.wf(),
        words_byte_len(rules.wordlist@) + 5 <= usize::MAX,
    ensures
        r matches Ok((p, c)) ==> rules.can_produce(p) && passes(p, bounds) && 1 <= c
            <= sample_size,
        r matches Err(e) ==> e == (SampleExhausted { sample_size }),
        sample_size == 0 ==> r is Err,
        sample_size >= 1 && bounds.min == 0 && bounds.max == usize::MAX ==> r is Ok && (
        r matches Ok((p, c)) ==> c == sample_size),
{
    let candidates = rules.stream_passwords(rng, sample_size);
    proof {
        assert forall|i: int| 0 <= i < candidates@.len() implies (
        #[trigger] candidates@[i]).spec_len() <= usize::MAX by {
            lemma_candidate_len_bound(*rules, candidates@[i]);
        }
        if bounds.min == 0 && bounds.max == usize::MAX {
            assert(forall|i: int|
                0 <= i < candidates@.len() ==> passes(#[trigger] candidates@[i], bounds));
            lemma_count_passing_all(candidates@, bounds);
        }
    }
    match pick_password(candidates, bounds) {
        Ok((p, c)) => Ok((p, c)),
        Err(e) => Err(SampleExhausted { sample_size }),
    }
}

} // verus!
