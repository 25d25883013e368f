use vstd::prelude::*;
use crate::scalar::{Field, Real, Scalar};

verus! {

/// A plane rotation made for a pair `(a, b)`: cosine `c` and sine `s`, the
/// first element `r` of the rotated pair, and a value `z` from which `c` and
/// `s` can be found again.
#[derive(Clone, Copy, Debug, PartialEq, Eq)]
pub struct Givens<T> {
    pub r: T,
    pub z: T,
    pub c: T,
    pub s: T,
}

/// The magnitude of the pair `(a, b)`, neither of them zero: both are
/// divided by the sum of their absolute values before they are squared.
pub open spec fn pair_norm<T: Real + Field>(a: T, b: T) -> T {
    let scale = a.absolute_spec().plus_spec(b.absolute_spec());
    let qa = a.over_spec(scale);
    let qb = b.over_spec(scale);
    scale.times_spec(qa.times_spec(qa).plus_spec(qb.times_spec(qb)).sqrt_spec())
}

/// The rotation for the pair `(a, b)`. Where either of the two is zero it
/// is the identity, `r` is `a`, and nothing is divided. Otherwise `r` is the
/// magnitude of the pair with the sign of the one of greater absolute value,
/// `c` is `a / r` and `s` is `b / r`.
pub open spec fn rotg_spec<T: Real + Field>(a: T, b: T) -> Givens<T> {
    if a.is_zero_spec() || b.is_zero_spec() {
        Givens { r: a, z: T::zero_spec(), c: T::one_spec(), s: T::zero_spec() }
    } else {
        let a_greater = b.absolute_spec().less_spec(a.absolute_spec());
        let roe = if a_greater {
            a
        } else {
            b
        };
        let mag = pair_norm(a, b);
        let r = if roe.less_spec(T::zero_spec()) {
            T::zero_spec().minus_spec(mag)
        } else {
            mag
        };
        let c = a.over_spec(r);
        let s = b.over_spec(r);
        let z = if a_greater {
            s
        } else if c.is_zero_spec() {
            T::one_spec()
        } else {
            T::one_spec().over_spec(c)
        };
        Givens { r, z, c, s }
    }
}

/// Constructs the plane rotation for the pair `(a, b)`: the one that takes
/// it to `(r, 0)`, or the identity where one of the two is zero already.
pub fn rotg<T: Real + Field>(a: T, b: T) -> (g: Givens<T>)
    ensures
        g == rotg_spec(a, b),
{
    if a.is_zero() || b.is_zero() {
        Givens { r: a, z: T::zero(), c: T::one(), s: T::zero() }
    } else {
        let a_greater: bool = b.absolute().less(a.absolute());
        let roe: T = if a_greater {
            a
        } else {
            b
        };
        let scale: T = a.absolute().plus(b.absolute());
        let qa: T = a.over(scale);
        let qb: T = b.over(scale);
        let mag: T = scale.times(qa.times(qa).plus(qb.times(qb)).sqrt());
        let r: T = if roe.less(T::zero()) {
            T::zero().minus(mag)
        } else {
            mag
        };
        let c: T = a.over(r);
        let s: T = b.over(r);
        let z: T = if a_greater {
            s
        } else if c.is_zero() {
            T::one()
        } else {
            T::one().over(c)
        };
        Givens { r, z, c, s }
    }
}

} // verus!
