use vstd::prelude::*;
use crate::scalar::Scalar;

verus! {

/// The sum of `term(lo)`, `term(lo + 1)`, .., `term(hi - 1)`, added from the
/// left, starting from zero. Addition is not taken to be associative, so the
/// order is part of the value.
pub open spec fn sum_range<T: Scalar>(term: spec_fn(int) -> T, lo: int, hi: int) -> T
    decreases hi - lo,
{
    if hi <= lo {
        T::zero_spec()
    } else {
        sum_range(term, lo, hi - 1).plus_spec(term(hi - 1))
    }
}

/// A sum depends on its terms only inside its range.
pub proof fn lemma_sum_range_agree<T: Scalar>(
    f: spec_fn(int) -> T,
    g: spec_fn(int) -> T,
    lo: int,
    hi: int,
)
    requires
        forall|l: int| lo <= l < hi ==> #[trigger] f(l) == g(l),
    ensures
        sum_range(f, lo, hi) == sum_range(g, lo, hi),
    decreases hi - lo,
{
    if hi > lo {
        lemma_sum_range_agree(f, g, lo, hi - 1);
    }
}

} // verus!
