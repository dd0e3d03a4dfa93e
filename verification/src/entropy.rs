//! Exact entropy bookkeeping.
//!
//! Every entropy figure this library reports is of the form
//! `log2(f1) + log2(f2) + ... - (log2(d1) + log2(d2) + ...)` for positive
//! integers. Rather than fix a floating-point approximation, an `Entropy`
//! value carries the factors and divisors themselves; turning them into
//! bits is left to the caller, which may sum base-two logarithms in
//! whatever precision it wants.

use vstd::prelude::*;

verus! {

/// An exact entropy figure: `sum(log2(factors)) - sum(log2(divisors))`
/// bits. Every factor and divisor is at least 1, so every term is defined
/// and non-negative.
#[derive(Debug, Clone, Eq, PartialEq)]
pub struct Entropy {
    pub factors: Vec<usize>,
    pub divisors: Vec<usize>,
}

impl Entropy {
    /// All factors and divisors are positive, so each logarithm is defined.
    pub open spec fn wf(self) -> bool {
        &&& forall|i: int| 0 <= i < self.factors@.len() ==> #[trigger] self.factors@[i] >= 1
        &&& forall|i: int| 0 <= i < self.divisors@.len() ==> #[trigger] self.divisors@[i] >= 1
    }

    /// The zero entropy figure: no factors, no divisors.
    pub fn zero() -> (r: Entropy)
        ensures
            r.factors@ == Seq::<usize>::empty(),
            r.divisors@ == Seq::<usize>::empty(),
            r.wf(),
    {
        Entropy { factors: Vec::new(), divisors: Vec::new() }
    }

    /// The entropy of one uniform choice among `count` alternatives:
    /// `log2(count)` bits.
    pub fn of_choice(count: usize) -> (r: Entropy)
        requires
            count >= 1,
        ensures
            r.factors@ == seq![count],
            r.divisors@ == Seq::<usize>::empty(),
            r.wf(),
    {
        let mut factors: Vec<usize> = Vec::new();
        factors.push(count);
        proof {
            assert(factors@ =~= seq![count]);
        }
        Entropy { factors, divisors: Vec::new() }
    }

    /// The sum of two entropy figures: factor and divisor lists are
    /// concatenated in order.
    pub fn combine(self, other: Entropy) -> (r: Entropy)
        ensures
            r.factors@ == self.factors@ + other.factors@,
            r.divisors@ == self.divisors@ + other.divisors@,
            self.wf() && other.wf() ==> r.wf(),
    {
        let mut factors = self.factors;
        let mut other_factors = other.factors;
        factors.append(&mut other_factors);
        let mut divisors = self.divisors;
        let mut other_divisors = other.divisors;
        divisors.append(&mut other_divisors);
        Entropy { factors, divisors }
    }
}

/// The correction for empirical rejection: of `sample_size` candidates,
/// only `success_count` passed the length bounds, so the conditional
/// entropy given "passed" is lower by `log2(sample_size) -
/// log2(success_count)` bits. The result is
/// `log2(success_count) - log2(sample_size)`, a non-positive quantity.
pub fn adjusted_entropy(sample_size: usize, success_count: usize) -> (r: Entropy)
    requires
        1 <= success_count <= sample_size,
    ensures
        r.factors@ == seq![success_count],
        r.divisors@ == seq![sample_size],
        success_count == sample_size ==> r.factors@ == r.divisors@,
        r.wf(),
{
    let mut factors: Vec<usize> = Vec::new();
    factors.push(success_count);
    let mut divisors: Vec<usize> = Vec::new();
    divisors.push(sample_size);
    proof {
        assert(factors@ =~= seq![success_count]);
        assert(divisors@ =~= seq![sample_size]);
    }
    Entropy { factors, divisors }
}

} // verus!
