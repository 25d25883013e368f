use vstd::prelude::*;
use vstd::arithmetic::div_mod::{
    lemma_fundamental_div_mod, lemma_mod_multiples_vanish, lemma_small_mod,
};
use vstd::wrapping::i64_specs::{signed_crop, wrapping_add, wrapping_mul, wrapping_sub};
use crate::complex::Complex;
use crate::scalar::{ExactRing, Scalar};

verus! {

/// Scalars that form a commutative ring in which conjugation respects sums
/// and products. Floating-point numbers do not: their sums are not
/// associative.
pub trait CommutativeRing: ExactRing {
    proof fn lemma_plus_commutes(a: Self, b: Self)
        ensures
            a.plus_spec(b) == b.plus_spec(a),
    ;

    proof fn lemma_plus_associates(a: Self, b: Self, c: Self)
        ensures
            a.plus_spec(b).plus_spec(c) == a.plus_spec(b.plus_spec(c)),
    ;

    proof fn lemma_times_commutes(a: Self, b: Self)
        ensures
            a.times_spec(b) == b.times_spec(a),
    ;

    proof fn lemma_times_associates(a: Self, b: Self, c: Self)
        ensures
            a.times_spec(b).times_spec(c) == a.times_spec(b.times_spec(c)),
    ;

    proof fn lemma_distributes(a: Self, b: Self, c: Self)
        ensures
            a.times_spec(b.plus_spec(c)) == a.times_spec(b).plus_spec(a.times_spec(c)),
    ;

    proof fn lemma_sum_minus(a: Self, b: Self)
        ensures
            a.plus_spec(b).minus_spec(a) == b,
    ;

    proof fn lemma_conj_of_sum(a: Self, b: Self)
        ensures
            a.plus_spec(b).conj_spec() == a.conj_spec().plus_spec(b.conj_spec()),
    ;

    proof fn lemma_conj_of_product(a: Self, b: Self)
        ensures
            a.times_spec(b).conj_spec() == a.conj_spec().times_spec(b.conj_spec()),
    ;
}

/// The number of values of a 64-bit integer.
pub open spec fn range64() -> int {
    0x1_0000_0000_0000_0000
}

/// An integer in the range of the type is its own wrapped value.
pub proof fn lemma_crop_in_range(w: int)
    requires
        i64::MIN <= w <= i64::MAX,
    ensures
        signed_crop(w) == w,
{
    if w >= 0 {
        lemma_small_mod(w as nat, range64() as nat);
    } else {
        lemma_small_mod((w + range64()) as nat, range64() as nat);
        lemma_mod_multiples_vanish(1, w, range64());
    }
}

/// Integers that differ by a multiple of the range wrap to the same value.
pub proof fn lemma_crop_shift(v: int, m: int)
    ensures
        signed_crop(v + m * range64()) == signed_crop(v),
{
    lemma_mod_multiples_vanish(m, v, range64());
    assert(range64() * m + v == v + m * range64()) by (nonlinear_arith);
}

/// The wrapped value of an integer differs from it by a multiple of the
/// range.
pub proof fn lemma_crop_residue(v: int) -> (m: int)
    ensures
        signed_crop(v) == v + m * range64(),
{
    lemma_fundamental_div_mod(v, range64());
    let q = v / range64();
    assert(range64() * q == q * range64()) by (nonlinear_arith);
    if (v % range64()) > (i64::MAX as int) {
        assert((-q - 1) * range64() == -(q * range64()) - range64()) by (nonlinear_arith);
        -q - 1
    } else {
        assert((-q) * range64() == -(q * range64())) by (nonlinear_arith);
        -q
    }
}

/// A wrapping sum is the wrapped value of the sum.
pub proof fn lemma_sum_wraps(a: i64, b: i64)
    ensures
        wrapping_add(a, b) == signed_crop(a + b),
{
    let w = wrapping_add(a, b) as int;
    lemma_crop_in_range(w);
    if a + b > i64::MAX {
        lemma_crop_shift(w, 1);
    } else if a + b < i64::MIN {
        lemma_crop_shift(w, -1);
    }
}

/// The wrapped value of a sum is that of the sum of the wrapped values.
pub proof fn lemma_crop_of_sum(u: int, v: int)
    ensures
        signed_crop(signed_crop(u) + signed_crop(v)) == signed_crop(u + v),
{
    let m = lemma_crop_residue(u);
    let k = lemma_crop_residue(v);
    lemma_crop_shift(u + v, m + k);
    assert((m + k) * range64() == m * range64() + k * range64()) by (nonlinear_arith);
}

/// The wrapped value of a product is that of the product of the wrapped
/// values.
pub proof fn lemma_crop_of_product(u: int, v: int)
    ensures
        signed_crop(signed_crop(u) * signed_crop(v)) == signed_crop(u * v),
{
    let m = lemma_crop_residue(u);
    let k = lemma_crop_residue(v);
    let r = range64();
    assert((u + m * r) * (v + k * r) == u * v + (u * k + m * v + m * k * r) * r)
        by (nonlinear_arith);
    lemma_crop_shift(u * v, u * k + m * v + m * k * r);
}

impl CommutativeRing for i64 {
    proof fn lemma_plus_commutes(a: Self, b: Self) {
    }

    proof fn lemma_plus_associates(a: Self, b: Self, c: Self) {
        lemma_sum_wraps(a, b);
        lemma_sum_wraps(b, c);
        lemma_sum_wraps(wrapping_add(a, b), c);
        lemma_sum_wraps(a, wrapping_add(b, c));
        lemma_crop_in_range(c as int);
        lemma_crop_in_range(a as int);
        lemma_crop_of_sum(a + b, c as int);
        lemma_crop_of_sum(a as int, b + c);
    }

    proof fn lemma_times_commutes(a: Self, b: Self) {
        assert(a * b == b * a) by (nonlinear_arith);
    }

    proof fn lemma_times_associates(a: Self, b: Self, c: Self) {
        lemma_crop_in_range(c as int);
        lemma_crop_in_range(a as int);
        lemma_crop_of_product(a * b, c as int);
        lemma_crop_of_product(a as int, b * c);
        assert((a * b) * c == a * (b * c)) by (nonlinear_arith);
    }

    proof fn lemma_distributes(a: Self, b: Self, c: Self) {
        lemma_sum_wraps(b, c);
        lemma_sum_wraps(wrapping_mul(a, b), wrapping_mul(a, c));
        lemma_crop_in_range(a as int);
        lemma_crop_of_product(a as int, b + c);
        lemma_crop_of_sum(a * b, a * c);
        assert(a * (b + c) == a * b + a * c) by (nonlinear_arith);
    }

    proof fn lemma_sum_minus(a: Self, b: Self) {
        lemma_sum_wraps(a, b);
        lemma_difference_wraps(wrapping_add(a, b), a);
        lemma_crop_in_range(a as int);
        lemma_crop_in_range(b as int);
        lemma_crop_of_difference(a + b, a as int);
    }

    proof fn lemma_conj_of_sum(a: Self, b: Self) {
    }

    proof fn lemma_conj_of_product(a: Self, b: Self) {
    }
}

/// A wrapping difference is the wrapped value of the difference.
pub proof fn lemma_difference_wraps(a: i64, b: i64)
    ensures
        wrapping_sub(a, b) == signed_crop(a - b),
{
    let w = wrapping_sub(a, b) as int;
    lemma_crop_in_range(w);
    if a - b > i64::MAX {
        lemma_crop_shift(w, 1);
    } else if a - b < i64::MIN {
        lemma_crop_shift(w, -1);
    }
}

/// The wrapped value of a difference is that of the difference of the
/// wrapped values.
pub proof fn lemma_crop_of_difference(u: int, v: int)
    ensures
        signed_crop(signed_crop(u) - signed_crop(v)) == signed_crop(u - v),
{
    let m = lemma_crop_residue(u);
    let k = lemma_crop_residue(v);
    lemma_crop_shift(u - v, m - k);
    assert((m - k) * range64() == m * range64() - k * range64()) by (nonlinear_arith);
}

/// A product of three integers can be taken in either grouping.
proof fn lemma_triple(a: int, b: int, c: int)
    ensures
        (a * b) * c == a * (b * c),
{
    assert((a * b) * c == a * (b * c)) by (nonlinear_arith);
}

/// A product with a sum or a difference is the sum or the difference of the
/// products, on either side.
proof fn lemma_spread(a: int, x: int, y: int)
    ensures
        a * (x + y) == a * x + a * y,
        a * (x - y) == a * x - a * y,
        (x + y) * a == a * x + a * y,
        (x - y) * a == a * x - a * y,
        x * a == a * x,
        y * a == a * y,
{
    assert(a * (x + y) == a * x + a * y) by (nonlinear_arith);
    assert(a * (x - y) == a * x - a * y) by (nonlinear_arith);
    assert((x + y) * a == a * x + a * y) by (nonlinear_arith);
    assert((x - y) * a == a * x - a * y) by (nonlinear_arith);
    assert(x * a == a * x) by (nonlinear_arith);
    assert(y * a == a * y) by (nonlinear_arith);
}

/// Whether the parts of `z` are the wrapped values of the integers `re` and
/// `im`.
pub open spec fn means(z: Complex<i64>, re: int, im: int) -> bool {
    z.re == signed_crop(re) && z.im == signed_crop(im)
}

/// The parts of a complex number stand for themselves.
pub proof fn lemma_means_itself(z: Complex<i64>)
    ensures
        means(z, z.re as int, z.im as int),
{
    lemma_crop_in_range(z.re as int);
    lemma_crop_in_range(z.im as int);
}

/// The sum of two complex numbers stands for the sum of what they stand
/// for.
pub proof fn lemma_means_sum(z: Complex<i64>, w: Complex<i64>, zr: int, zi: int, wr: int, wi: int)
    requires
        means(z, zr, zi),
        means(w, wr, wi),
    ensures
        means(z.plus_spec(w), zr + wr, zi + wi),
{
    lemma_sum_wraps(z.re, w.re);
    lemma_sum_wraps(z.im, w.im);
    lemma_crop_of_sum(zr, wr);
    lemma_crop_of_sum(zi, wi);
}

/// The product of two complex numbers stands for the product of what they
/// stand for.
pub proof fn lemma_means_product(
    z: Complex<i64>,
    w: Complex<i64>,
    zr: int,
    zi: int,
    wr: int,
    wi: int,
)
    requires
        means(z, zr, zi),
        means(w, wr, wi),
    ensures
        means(z.times_spec(w), zr * wr - zi * wi, zr * wi + zi * wr),
{
    lemma_crop_of_product(zr, wr);
    lemma_crop_of_product(zi, wi);
    lemma_crop_of_product(zr, wi);
    lemma_crop_of_product(zi, wr);
    lemma_difference_wraps(wrapping_mul(z.re, w.re), wrapping_mul(z.im, w.im));
    lemma_sum_wraps(wrapping_mul(z.re, w.im), wrapping_mul(z.im, w.re));
    lemma_crop_of_difference(zr * wr, zi * wi);
    lemma_crop_of_sum(zr * wi, zi * wr);
}

/// The conjugate of a complex number stands for the conjugate of what it
/// stands for.
pub proof fn lemma_means_conj(z: Complex<i64>, zr: int, zi: int)
    requires
        means(z, zr, zi),
    ensures
        means(z.conj_spec(), zr, -zi),
{
    lemma_difference_wraps(0i64, z.im);
    lemma_crop_in_range(0);
    lemma_crop_of_difference(0, zi);
}

impl CommutativeRing for Complex<i64> {
    proof fn lemma_plus_commutes(a: Self, b: Self) {
    }

    proof fn lemma_plus_associates(a: Self, b: Self, c: Self) {
        i64::lemma_plus_associates(a.re, b.re, c.re);
        i64::lemma_plus_associates(a.im, b.im, c.im);
    }

    proof fn lemma_times_commutes(a: Self, b: Self) {
        lemma_means_itself(a);
        lemma_means_itself(b);
        lemma_means_product(a, b, a.re as int, a.im as int, b.re as int, b.im as int);
        lemma_means_product(b, a, b.re as int, b.im as int, a.re as int, a.im as int);
        assert(a.re * b.re - a.im * b.im == b.re * a.re - b.im * a.im) by (nonlinear_arith);
        assert(a.re * b.im + a.im * b.re == b.re * a.im + b.im * a.re) by (nonlinear_arith);
    }

    proof fn lemma_times_associates(a: Self, b: Self, c: Self) {
        let (ar, ai) = (a.re as int, a.im as int);
        let (br, bi) = (b.re as int, b.im as int);
        let (cr, ci) = (c.re as int, c.im as int);
        lemma_means_itself(a);
        lemma_means_itself(b);
        lemma_means_itself(c);
        lemma_means_product(a, b, ar, ai, br, bi);
        lemma_means_product(b, c, br, bi, cr, ci);
        lemma_means_product(
            a.times_spec(b),
            c,
            ar * br - ai * bi,
            ar * bi + ai * br,
            cr,
            ci,
        );
        lemma_means_product(
            a,
            b.times_spec(c),
            ar,
            ai,
            br * cr - bi * ci,
            br * ci + bi * cr,
        );
        lemma_spread(cr, ar * br, ai * bi);
        lemma_spread(ci, ar * bi, ai * br);
        lemma_spread(ci, ar * br, ai * bi);
        lemma_spread(cr, ar * bi, ai * br);
        lemma_spread(ar, br * cr, bi * ci);
        lemma_spread(ai, br * ci, bi * cr);
        lemma_spread(ar, br * ci, bi * cr);
        lemma_spread(ai, br * cr, bi * ci);
        lemma_triple(ar, br, cr);
        lemma_triple(ai, bi, cr);
        lemma_triple(ar, bi, ci);
        lemma_triple(ai, br, ci);
        lemma_triple(ar, br, ci);
        lemma_triple(ai, bi, ci);
        lemma_triple(ar, bi, cr);
        lemma_triple(ai, br, cr);
    }

    proof fn lemma_distributes(a: Self, b: Self, c: Self) {
        let (ar, ai) = (a.re as int, a.im as int);
        let (br, bi) = (b.re as int, b.im as int);
        let (cr, ci) = (c.re as int, c.im as int);
        lemma_means_itself(a);
        lemma_means_itself(b);
        lemma_means_itself(c);
        lemma_means_sum(b, c, br, bi, cr, ci);
        lemma_means_product(a, b.plus_spec(c), ar, ai, br + cr, bi + ci);
        lemma_means_product(a, b, ar, ai, br, bi);
        lemma_means_product(a, c, ar, ai, cr, ci);
        lemma_means_sum(
            a.times_spec(b),
            a.times_spec(c),
            ar * br - ai * bi,
            ar * bi + ai * br,
            ar * cr - ai * ci,
            ar * ci + ai * cr,
        );
        assert(ar * (br + cr) - ai * (bi + ci) == (ar * br - ai * bi) + (ar * cr - ai * ci))
            by (nonlinear_arith);
        assert(ar * (bi + ci) + ai * (br + cr) == (ar * bi + ai * br) + (ar * ci + ai * cr))
            by (nonlinear_arith);
    }

    proof fn lemma_sum_minus(a: Self, b: Self) {
        i64::lemma_sum_minus(a.re, b.re);
        i64::lemma_sum_minus(a.im, b.im);
    }

    proof fn lemma_conj_of_sum(a: Self, b: Self) {
        let (ar, ai) = (a.re as int, a.im as int);
        let (br, bi) = (b.re as int, b.im as int);
        lemma_means_itself(a);
        lemma_means_itself(b);
        lemma_means_sum(a, b, ar, ai, br, bi);
        lemma_means_conj(a.plus_spec(b), ar + br, ai + bi);
        lemma_means_conj(a, ar, ai);
        lemma_means_conj(b, br, bi);
        lemma_means_sum(a.conj_spec(), b.conj_spec(), ar, -ai, br, -bi);
    }

    proof fn lemma_conj_of_product(a: Self, b: Self) {
        let (ar, ai) = (a.re as int, a.im as int);
        let (br, bi) = (b.re as int, b.im as int);
        lemma_means_itself(a);
        lemma_means_itself(b);
        lemma_means_product(a, b, ar, ai, br, bi);
        lemma_means_conj(a.times_spec(b), ar * br - ai * bi, ar * bi + ai * br);
        lemma_means_conj(a, ar, ai);
        lemma_means_conj(b, br, bi);
        lemma_means_product(a.conj_spec(), b.conj_spec(), ar, -ai, br, -bi);
        assert(ar * br - (-ai) * (-bi) == ar * br - ai * bi) by (nonlinear_arith);
        assert(ar * (-bi) + (-ai) * br == -(ar * bi + ai * br)) by (nonlinear_arith);
    }
}

} // verus!
