use vstd::prelude::*;

verus! {

/// The arithmetic that the kernels need from an element type.
///
/// Each operation has a specification function, and the executable method
/// returns exactly its value. No algebraic law is asked for: the kernels'
/// contracts name the operations in the order in which they are applied.
pub trait Scalar: Copy + Sized {
    /// The additive identity.
    spec fn zero_spec() -> Self;

    /// The multiplicative identity.
    spec fn one_spec() -> Self;

    /// Whether scaling by this value is to be skipped.
    spec fn is_zero_spec(self) -> bool;

    spec fn plus_spec(self, rhs: Self) -> Self;

    spec fn minus_spec(self, rhs: Self) -> Self;

    spec fn times_spec(self, rhs: Self) -> Self;

    /// The complex conjugate; the value itself for a real scalar.
    spec fn conj_spec(self) -> Self;

    /// The value with its imaginary part cleared.
    spec fn real_spec(self) -> Self;

    fn zero() -> (r: Self)
        ensures
            r == Self::zero_spec(),
    ;

    fn one() -> (r: Self)
        ensures
            r == Self::one_spec(),
    ;

    fn is_zero(self) -> (b: bool)
        ensures
            b == self.is_zero_spec(),
    ;

    fn plus(self, rhs: Self) -> (r: Self)
        ensures
            r == self.plus_spec(rhs),
    ;

    fn minus(self, rhs: Self) -> (r: Self)
        ensures
            r == self.minus_spec(rhs),
    ;

    fn times(self, rhs: Self) -> (r: Self)
        ensures
            r == self.times_spec(rhs),
    ;

    fn conj(self) -> (r: Self)
        ensures
            r == self.conj_spec(),
    ;

    fn real_part(self) -> (r: Self)
        ensures
            r == self.real_spec(),
    ;
}

/// A scalar with a total division.
pub trait Field: Scalar {
    spec fn over_spec(self, rhs: Self) -> Self;

    fn over(self, rhs: Self) -> (r: Self)
        ensures
            r == self.over_spec(rhs),
    ;
}

/// A real scalar: one with an absolute value, an order and a square root.
pub trait Real: Scalar {
    spec fn absolute_spec(self) -> Self;

    spec fn less_spec(self, rhs: Self) -> bool;

    spec fn sqrt_spec(self) -> Self;

    fn sqrt(self) -> (r: Self)
        ensures
            r == self.sqrt_spec(),
    ;

    fn absolute(self) -> (r: Self)
        ensures
            r == self.absolute_spec(),
    ;

    fn less(self, rhs: Self) -> (b: bool)
        ensures
            b == self.less_spec(rhs),
    ;
}

/// Real scalars whose order is a strict weak order: values that neither is
/// less than the other rank alike. The order of floating-point numbers is not
/// one, for a NaN.
pub trait WeakOrder: Real {
    proof fn lemma_less_irreflexive(a: Self)
        ensures
            !a.less_spec(a),
    ;

    proof fn lemma_less_transitive(a: Self, b: Self, c: Self)
        requires
            a.less_spec(b),
            b.less_spec(c),
        ensures
            a.less_spec(c),
    ;

    proof fn lemma_less_splits(a: Self, b: Self, c: Self)
        requires
            a.less_spec(c),
        ensures
            a.less_spec(b) || b.less_spec(c),
    ;
}

/// A scalar with a real magnitude: the absolute value of a real scalar, the
/// sum of the absolute values of both parts of a complex one.
pub trait Magnitude: Scalar {
    type Norm: Real;

    spec fn abs1_spec(self) -> Self::Norm;

    fn abs1(self) -> (r: Self::Norm)
        ensures
            r == self.abs1_spec(),
    ;
}

/// A scalar with a wider companion in which sums of products are
/// accumulated before the result is narrowed again.
pub trait Widen: Scalar {
    type Wide: Scalar;

    spec fn widen_spec(self) -> Self::Wide;

    spec fn narrow_spec(wide: Self::Wide) -> Self;

    fn widen(self) -> (r: Self::Wide)
        ensures
            r == self.widen_spec(),
    ;

    fn narrow(wide: Self::Wide) -> (r: Self)
        ensures
            r == Self::narrow_spec(wide),
    ;
}

/// Scalars whose arithmetic is exact: the identities of a ring with one hold
/// of every value.
pub trait ExactRing: Scalar {
    proof fn lemma_zero_is_zero()
        ensures
            Self::zero_spec().is_zero_spec(),
            !Self::one_spec().is_zero_spec(),
    ;

    proof fn lemma_plus_zero(a: Self)
        ensures
            a.plus_spec(Self::zero_spec()) == a,
            Self::zero_spec().plus_spec(a) == a,
    ;

    proof fn lemma_minus_zero(a: Self)
        ensures
            a.minus_spec(Self::zero_spec()) == a,
    ;

    proof fn lemma_times_one(a: Self)
        ensures
            a.times_spec(Self::one_spec()) == a,
            Self::one_spec().times_spec(a) == a,
    ;

    proof fn lemma_times_zero(a: Self)
        ensures
            a.times_spec(Self::zero_spec()) == Self::zero_spec(),
            Self::zero_spec().times_spec(a) == Self::zero_spec(),
    ;
}

/// A scale factor as a Hermitian update takes it: its real part.
pub open spec fn herm_scalar<T: Scalar>(herm: bool, s: T) -> T {
    if herm {
        s.real_spec()
    } else {
        s
    }
}

/// An element as a Hermitian matrix holds it: real on the diagonal.
pub open spec fn herm_diag<T: Scalar>(herm: bool, i: int, j: int, v: T) -> T {
    if herm && i == j {
        v.real_spec()
    } else {
        v
    }
}

/// A value as the second term of a Hermitian update takes it: conjugated.
pub open spec fn herm_conj<T: Scalar>(herm: bool, s: T) -> T {
    if herm {
        s.conj_spec()
    } else {
        s
    }
}

/// The real part of a scale factor for a Hermitian update, the factor
/// itself otherwise.
pub fn scalar_for<T: Scalar>(herm: bool, s: T) -> (r: T)
    ensures
        r == herm_scalar(herm, s),
{
    if herm {
        s.real_part()
    } else {
        s
    }
}

/// The real part of a diagonal element of a Hermitian matrix, the element
/// itself otherwise.
pub fn diag_for<T: Scalar>(herm: bool, i: usize, j: usize, v: T) -> (r: T)
    ensures
        r == herm_diag(herm, i as int, j as int, v),
{
    if herm && i == j {
        v.real_part()
    } else {
        v
    }
}

/// The conjugate for a Hermitian update, the value itself otherwise.
pub fn conj_for<T: Scalar>(herm: bool, s: T) -> (r: T)
    ensures
        r == herm_conj(herm, s),
{
    if herm {
        s.conj()
    } else {
        s
    }
}

/// Integers under wrapping arithmetic: a ring in which every operation is
/// exact. Conjugation and the real part change nothing.
impl Scalar for i64 {
    open spec fn zero_spec() -> Self {
        0i64
    }

    open spec fn one_spec() -> Self {
        1i64
    }

    open spec fn is_zero_spec(self) -> bool {
        self == 0
    }

    open spec fn plus_spec(self, rhs: Self) -> Self {
        vstd::wrapping::i64_specs::wrapping_add(self, rhs)
    }

    open spec fn minus_spec(self, rhs: Self) -> Self {
        vstd::wrapping::i64_specs::wrapping_sub(self, rhs)
    }

    open spec fn times_spec(self, rhs: Self) -> Self {
        vstd::wrapping::i64_specs::wrapping_mul(self, rhs)
    }

    open spec fn conj_spec(self) -> Self {
        self
    }

    open spec fn real_spec(self) -> Self {
        self
    }

    fn zero() -> (r: Self) {
        0i64
    }

    fn one() -> (r: Self) {
        1i64
    }

    fn is_zero(self) -> (b: bool) {
        self == 0
    }

    fn plus(self, rhs: Self) -> (r: Self) {
        self.wrapping_add(rhs)
    }

    fn minus(self, rhs: Self) -> (r: Self) {
        self.wrapping_sub(rhs)
    }

    fn times(self, rhs: Self) -> (r: Self) {
        self.wrapping_mul(rhs)
    }

    fn conj(self) -> (r: Self) {
        self
    }

    fn real_part(self) -> (r: Self) {
        self
    }
}

/// The absolute value of an integer, which always fits the unsigned type.
pub open spec fn magnitude_spec(v: i64) -> u64 {
    if v < 0 {
        (-(v as int)) as u64
    } else {
        v as u64
    }
}

/// The absolute value of an integer.
pub fn magnitude(v: i64) -> (r: u64)
    ensures
        r == magnitude_spec(v),
{
    if v < 0 {
        let below: i64 = -(v + 1);
        (below as u64) + 1
    } else {
        v as u64
    }
}

/// Integer division that is defined everywhere: it truncates towards zero,
/// wraps where the quotient does not fit, and gives zero where the divisor is
/// zero.
impl Field for i64 {
    open spec fn over_spec(self, rhs: Self) -> Self {
        if rhs == 0 {
            0i64
        } else {
            let q = magnitude_spec(self) / magnitude_spec(rhs);
            if (self < 0) != (rhs < 0) {
                (-(q as int)) as i64
            } else if q > i64::MAX {
                i64::MIN
            } else {
                q as i64
            }
        }
    }

    fn over(self, rhs: Self) -> (r: Self) {
        if rhs == 0 {
            return 0i64;
        }
        let q: u64 = magnitude(self) / magnitude(rhs);
        if (self < 0) != (rhs < 0) {
            if q > 0x7fff_ffff_ffff_ffff {
                i64::MIN
            } else {
                -(q as i64)
            }
        } else if q > 0x7fff_ffff_ffff_ffff {
            i64::MIN
        } else {
            q as i64
        }
    }
}

/// Whether `r` is the integer square root of `v`: the greatest integer
/// whose square is at most `v`.
pub open spec fn is_int_sqrt(v: int, r: int) -> bool {
    0 <= r && r * r <= v < (r + 1) * (r + 1)
}

/// The integer square root of `v`, zero for a negative `v`.
pub open spec fn int_sqrt(v: int) -> int {
    if v < 0 {
        0
    } else {
        choose|r: int| is_int_sqrt(v, r)
    }
}

/// There is one integer square root at most.
pub proof fn lemma_int_sqrt_unique(v: int, r1: int, r2: int)
    requires
        is_int_sqrt(v, r1),
        is_int_sqrt(v, r2),
    ensures
        r1 == r2,
{
    if r1 < r2 {
        assert((r1 + 1) * (r1 + 1) <= r2 * r2) by (nonlinear_arith)
            requires
                0 <= r1,
                r1 + 1 <= r2,
        ;
    } else if r2 < r1 {
        assert((r2 + 1) * (r2 + 1) <= r1 * r1) by (nonlinear_arith)
            requires
                0 <= r2,
                r2 + 1 <= r1,
        ;
    }
}

/// Computes the integer square root of a nonnegative integer by bisection.
pub fn int_sqrt_of(v: i64) -> (r: i64)
    requires
        v >= 0,
    ensures
        r == int_sqrt(v as int),
        is_int_sqrt(v as int, r as int),
{
    let target: u64 = v as u64;
    let mut lo: u64 = 0;
    let mut hi: u64 = 3037000500;
    assert(0u64 * 0u64 <= target);
    assert(3037000500u64 * 3037000500u64 > target) by (nonlinear_arith)
        requires
            target <= 0x7fff_ffff_ffff_ffff,
    ;
    while hi - lo > 1
        invariant
            0 <= lo < hi <= 3037000500,
            lo * lo <= target < hi * hi,
        decreases hi - lo,
    {
        let mid: u64 = lo + (hi - lo) / 2;
        assert(mid * mid <= 3037000500 * 3037000500) by (nonlinear_arith)
            requires
                0 <= mid <= 3037000500,
        ;
        if mid * mid <= target {
            lo = mid;
        } else {
            hi = mid;
        }
    }
    proof {
        assert(is_int_sqrt(v as int, lo as int));
        lemma_int_sqrt_unique(v as int, lo as int, int_sqrt(v as int));
    }
    lo as i64
}

impl Real for i64 {
    /// The integer square root, zero for a negative integer.
    open spec fn sqrt_spec(self) -> Self {
        int_sqrt(self as int) as i64
    }

    fn sqrt(self) -> (r: Self) {
        if self < 0 {
            0i64
        } else {
            int_sqrt_of(self)
        }
    }

    open spec fn absolute_spec(self) -> Self {
        if self < 0 {
            vstd::wrapping::i64_specs::wrapping_sub(0i64, self)
        } else {
            self
        }
    }

    open spec fn less_spec(self, rhs: Self) -> bool {
        self < rhs
    }

    fn absolute(self) -> (r: Self) {
        if self < 0 {
            0i64.wrapping_sub(self)
        } else {
            self
        }
    }

    fn less(self, rhs: Self) -> (b: bool) {
        self < rhs
    }
}

impl WeakOrder for i64 {
    proof fn lemma_less_irreflexive(a: Self) {
    }

    proof fn lemma_less_transitive(a: Self, b: Self, c: Self) {
    }

    proof fn lemma_less_splits(a: Self, b: Self, c: Self) {
    }
}

impl Magnitude for i64 {
    type Norm = i64;

    open spec fn abs1_spec(self) -> i64 {
        self.absolute_spec()
    }

    fn abs1(self) -> (r: i64) {
        self.absolute()
    }
}

/// Integers of half the width under wrapping arithmetic.
impl Scalar for i32 {
    open spec fn zero_spec() -> Self {
        0i32
    }

    open spec fn one_spec() -> Self {
        1i32
    }

    open spec fn is_zero_spec(self) -> bool {
        self == 0
    }

    open spec fn plus_spec(self, rhs: Self) -> Self {
        vstd::wrapping::i32_specs::wrapping_add(self, rhs)
    }

    open spec fn minus_spec(self, rhs: Self) -> Self {
        vstd::wrapping::i32_specs::wrapping_sub(self, rhs)
    }

    open spec fn times_spec(self, rhs: Self) -> Self {
        vstd::wrapping::i32_specs::wrapping_mul(self, rhs)
    }

    open spec fn conj_spec(self) -> Self {
        self
    }

    open spec fn real_spec(self) -> Self {
        self
    }

    fn zero() -> (r: Self) {
        0i32
    }

    fn one() -> (r: Self) {
        1i32
    }

    fn is_zero(self) -> (b: bool) {
        self == 0
    }

    fn plus(self, rhs: Self) -> (r: Self) {
        self.wrapping_add(rhs)
    }

    fn minus(self, rhs: Self) -> (r: Self) {
        self.wrapping_sub(rhs)
    }

    fn times(self, rhs: Self) -> (r: Self) {
        self.wrapping_mul(rhs)
    }

    fn conj(self) -> (r: Self) {
        self
    }

    fn real_part(self) -> (r: Self) {
        self
    }
}

/// Products of integers of half the width are exact in the full width; the
/// result is narrowed by keeping its low bits.
impl Widen for i32 {
    type Wide = i64;

    open spec fn widen_spec(self) -> i64 {
        self as i64
    }

    open spec fn narrow_spec(wide: i64) -> Self {
        wide as i32
    }

    fn widen(self) -> (r: i64) {
        self as i64
    }

    fn narrow(wide: i64) -> (r: Self) {
        #[verifier::truncate]
        (wide as i32)
    }
}

impl ExactRing for i64 {
    proof fn lemma_zero_is_zero() {
    }

    proof fn lemma_plus_zero(a: Self) {
    }

    proof fn lemma_minus_zero(a: Self) {
    }

    proof fn lemma_times_one(a: Self) {
    }

    proof fn lemma_times_zero(a: Self) {
    }
}

} // verus!
