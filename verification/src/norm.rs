use vstd::prelude::*;
use crate::complex::Complex;
use crate::error::ArgError;
use crate::level1::single_check;
use crate::scalar::{Field, Real, Scalar};
use crate::stride::{check_vector, slot, slot_index};

verus! {

/// One step of the scaled sum of squares. The state holds the greatest
/// magnitude met so far and the sum of the squares of all values met so far,
/// each divided by that magnitude, so that no square is formed of a value
/// greater than one. A zero value changes nothing; a value of greater
/// magnitude becomes the new scale and the sum is rescaled to it.
pub open spec fn ssq_step<T: Real + Field>(state: (T, T), v: T) -> (T, T) {
    if v.is_zero_spec() {
        state
    } else {
        let a = v.absolute_spec();
        if state.0.less_spec(a) {
            let q = state.0.over_spec(a);
            (a, T::one_spec().plus_spec(state.1.times_spec(q.times_spec(q))))
        } else {
            let q = a.over_spec(state.0);
            (state.0, state.1.plus_spec(q.times_spec(q)))
        }
    }
}

/// The scaled sum of squares of the first `k` elements of a real view,
/// starting from scale zero and sum one.
pub open spec fn ssq_fold<T: Real + Field>(n: int, x: Seq<T>, incx: int, k: int) -> (T, T)
    decreases k,
{
    if k <= 0 {
        (T::zero_spec(), T::one_spec())
    } else {
        ssq_step(ssq_fold(n, x, incx, k - 1), x[slot(n, incx, k - 1)])
    }
}

/// The scaled sum of squares of the first `k` elements of a complex view:
/// of each element the real part enters first, then the imaginary part.
pub open spec fn ssq_fold_complex<T: Real + Field>(
    n: int,
    x: Seq<Complex<T>>,
    incx: int,
    k: int,
) -> (T, T)
    decreases k,
{
    if k <= 0 {
        (T::zero_spec(), T::one_spec())
    } else {
        ssq_step(
            ssq_step(ssq_fold_complex(n, x, incx, k - 1), x[slot(n, incx, k - 1)].re),
            x[slot(n, incx, k - 1)].im,
        )
    }
}

/// The norm that a scaled sum of squares stands for: the scale times the
/// square root of the sum.
pub open spec fn ssq_norm<T: Real + Field>(state: (T, T)) -> T {
    state.0.times_spec(state.1.sqrt_spec())
}

/// What `nrm2` returns: the refusal of its arguments, or the norm.
pub open spec fn nrm2_result<T: Real + Field>(n: int, x: Seq<T>, incx: int) -> Result<T, ArgError> {
    match single_check(n, x.len() as int, incx) {
        Err(e) => Err(e),
        Ok(_) => Ok(ssq_norm(ssq_fold(n, x, incx, n))),
    }
}

/// What `nrm2_complex` returns: the refusal of its arguments, or the norm.
pub open spec fn nrm2_complex_result<T: Real + Field>(
    n: int,
    x: Seq<Complex<T>>,
    incx: int,
) -> Result<T, ArgError> {
    match single_check(n, x.len() as int, incx) {
        Err(e) => Err(e),
        Ok(_) => Ok(ssq_norm(ssq_fold_complex(n, x, incx, n))),
    }
}

/// Takes one value into a scaled sum of squares.
pub fn ssq_add<T: Real + Field>(state: (T, T), v: T) -> (r: (T, T))
    ensures
        r == ssq_step(state, v),
{
    if v.is_zero() {
        state
    } else {
        let a: T = v.absolute();
        if state.0.less(a) {
            let q: T = state.0.over(a);
            (a, T::one().plus(state.1.times(q.times(q))))
        } else {
            let q: T = a.over(state.0);
            (state.0, state.1.plus(q.times(q)))
        }
    }
}

/// Euclidean norm of a real vector, computed as a scaled sum of squares so
/// that no intermediate value leaves the range of the elements' magnitudes.
pub fn nrm2<T: Real + Field>(n: usize, x: &[T], incx: isize) -> (r: Result<T, ArgError>)
    ensures
        r == nrm2_result(n as int, x@, incx as int),
{
    match check_vector(x.len(), n, incx) {
        Err(e) => {
            return Err(e);
        },
        Ok(()) => {},
    }
    let mut state: (T, T) = (T::zero(), T::one());
    let mut i: usize = 0;
    while i < n
        invariant
            0 <= i <= n,
            single_check(n as int, x@.len() as int, incx as int) is Ok,
            state == ssq_fold(n as int, x@, incx as int, i as int),
        decreases n - i,
    {
        let px: usize = slot_index(n, incx, i);
        state = ssq_add(state, x[px]);
        i += 1;
    }
    Ok(state.0.times(state.1.sqrt()))
}

/// Euclidean norm of a complex vector, computed as a scaled sum of squares
/// over the real and imaginary parts of its elements.
pub fn nrm2_complex<T: Real + Field>(n: usize, x: &[Complex<T>], incx: isize) -> (r: Result<
    T,
    ArgError,
>)
    ensures
        r == nrm2_complex_result(n as int, x@, incx as int),
{
    match check_vector(x.len(), n, incx) {
        Err(e) => {
            return Err(e);
        },
        Ok(()) => {},
    }
    let mut state: (T, T) = (T::zero(), T::one());
    let mut i: usize = 0;
    while i < n
        invariant
            0 <= i <= n,
            single_check(n as int, x@.len() as int, incx as int) is Ok,
            state == ssq_fold_complex(n as int, x@, incx as int, i as int),
        decreases n - i,
    {
        let px: usize = slot_index(n, incx, i);
        let z: Complex<T> = x[px];
        state = ssq_add(ssq_add(state, z.re), z.im);
        i += 1;
    }
    Ok(state.0.times(state.1.sqrt()))
}

} // verus!
