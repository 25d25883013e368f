use vstd::prelude::*;
use crate::scalar::{ExactRing, Field, Magnitude, Real, Scalar};

verus! {

/// A complex number over the scalar `T`: a real and an imaginary part.
#[derive(Clone, Copy, Debug, PartialEq, Eq)]
pub struct Complex<T> {
    pub re: T,
    pub im: T,
}

impl<T: Scalar> Complex<T> {
    /// The complex number with the given parts.
    pub fn new(re: T, im: T) -> (z: Self)
        ensures
            z.re == re,
            z.im == im,
    {
        Complex { re, im }
    }

    /// The complex number with the given real part and no imaginary part.
    pub fn from_real(re: T) -> (z: Self)
        ensures
            z.re == re,
            z.im == T::zero_spec(),
    {
        Complex { re, im: T::zero() }
    }
}

impl<T: Scalar> Scalar for Complex<T> {
    open spec fn zero_spec() -> Self {
        Complex { re: T::zero_spec(), im: T::zero_spec() }
    }

    open spec fn one_spec() -> Self {
        Complex { re: T::one_spec(), im: T::zero_spec() }
    }

    open spec fn is_zero_spec(self) -> bool {
        self.re.is_zero_spec() && self.im.is_zero_spec()
    }

    open spec fn plus_spec(self, rhs: Self) -> Self {
        Complex { re: self.re.plus_spec(rhs.re), im: self.im.plus_spec(rhs.im) }
    }

    open spec fn minus_spec(self, rhs: Self) -> Self {
        Complex { re: self.re.minus_spec(rhs.re), im: self.im.minus_spec(rhs.im) }
    }

    open spec fn times_spec(self, rhs: Self) -> Self {
        Complex {
            re: self.re.times_spec(rhs.re).minus_spec(self.im.times_spec(rhs.im)),
            im: self.re.times_spec(rhs.im).plus_spec(self.im.times_spec(rhs.re)),
        }
    }

    open spec fn conj_spec(self) -> Self {
        Complex { re: self.re, im: T::zero_spec().minus_spec(self.im) }
    }

    open spec fn real_spec(self) -> Self {
        Complex { re: self.re, im: T::zero_spec() }
    }

    fn zero() -> (r: Self) {
        Complex { re: T::zero(), im: T::zero() }
    }

    fn one() -> (r: Self) {
        Complex { re: T::one(), im: T::zero() }
    }

    fn is_zero(self) -> (b: bool) {
        self.re.is_zero() && self.im.is_zero()
    }

    fn plus(self, rhs: Self) -> (r: Self) {
        Complex { re: self.re.plus(rhs.re), im: self.im.plus(rhs.im) }
    }

    fn minus(self, rhs: Self) -> (r: Self) {
        Complex { re: self.re.minus(rhs.re), im: self.im.minus(rhs.im) }
    }

    fn times(self, rhs: Self) -> (r: Self) {
        Complex {
            re: self.re.times(rhs.re).minus(self.im.times(rhs.im)),
            im: self.re.times(rhs.im).plus(self.im.times(rhs.re)),
        }
    }

    fn conj(self) -> (r: Self) {
        Complex { re: self.re, im: T::zero().minus(self.im) }
    }

    fn real_part(self) -> (r: Self) {
        Complex { re: self.re, im: T::zero() }
    }
}

/// The square of the modulus of `z`: `re * re + im * im`.
pub open spec fn norm_sqr_spec<T: Scalar>(z: Complex<T>) -> T {
    z.re.times_spec(z.re).plus_spec(z.im.times_spec(z.im))
}

impl<T: Field> Field for Complex<T> {
    /// The quotient by the textbook formula: the product with the conjugate
    /// of the divisor, each part divided by the square of its modulus.
    open spec fn over_spec(self, rhs: Self) -> Self {
        Complex {
            re: self.re.times_spec(rhs.re).plus_spec(self.im.times_spec(rhs.im)).over_spec(
                norm_sqr_spec(rhs),
            ),
            im: self.im.times_spec(rhs.re).minus_spec(self.re.times_spec(rhs.im)).over_spec(
                norm_sqr_spec(rhs),
            ),
        }
    }

    fn over(self, rhs: Self) -> (r: Self) {
        let d: T = rhs.re.times(rhs.re).plus(rhs.im.times(rhs.im));
        Complex {
            re: self.re.times(rhs.re).plus(self.im.times(rhs.im)).over(d),
            im: self.im.times(rhs.re).minus(self.re.times(rhs.im)).over(d),
        }
    }
}

impl<T: Real> Magnitude for Complex<T> {
    type Norm = T;

    /// The sum of the absolute values of both parts, not the modulus.
    open spec fn abs1_spec(self) -> T {
        self.re.absolute_spec().plus_spec(self.im.absolute_spec())
    }

    fn abs1(self) -> (r: T) {
        self.re.absolute().plus(self.im.absolute())
    }
}

impl<T: ExactRing> ExactRing for Complex<T> {
    proof fn lemma_zero_is_zero() {
        T::lemma_zero_is_zero();
    }

    proof fn lemma_plus_zero(a: Self) {
        T::lemma_plus_zero(a.re);
        T::lemma_plus_zero(a.im);
    }

    proof fn lemma_minus_zero(a: Self) {
        T::lemma_minus_zero(a.re);
        T::lemma_minus_zero(a.im);
    }

    proof fn lemma_times_one(a: Self) {
        T::lemma_times_one(a.re);
        T::lemma_times_one(a.im);
        T::lemma_times_zero(a.re);
        T::lemma_times_zero(a.im);
        T::lemma_minus_zero(a.re);
        T::lemma_plus_zero(a.re);
        T::lemma_plus_zero(a.im);
    }

    proof fn lemma_times_zero(a: Self) {
        T::lemma_times_zero(a.re);
        T::lemma_times_zero(a.im);
        T::lemma_minus_zero(T::zero_spec());
        T::lemma_plus_zero(T::zero_spec());
    }
}

} // verus!
