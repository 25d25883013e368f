use metal::complex::Complex;
use metal::gemm::gemm;
use metal::gemv::gbmv;
use metal::givens::rotg;
use metal::level1::{axpy, dotc, dotu, iamax, rot, scal};
use metal::norm::{nrm2, nrm2_complex};
use metal::scalar::{Field, Magnitude, Real, Scalar};
use metal::selector::{Diag, Trans, Uplo};
use metal::syrk::syrk;
use metal::trmv::trmv;
use metal::trsv::trsv;

/// Double precision numbers as scalars of the kernels.
#[derive(Clone, Copy, Debug, PartialEq)]
struct F(f64);

impl Scalar for F {
    fn zero_spec() -> Self {
        F(0.0)
    }
    fn one_spec() -> Self {
        F(1.0)
    }
    fn is_zero_spec(self) -> bool {
        self.0 == 0.0
    }
    fn plus_spec(self, rhs: Self) -> Self {
        F(self.0 + rhs.0)
    }
    fn minus_spec(self, rhs: Self) -> Self {
        F(self.0 - rhs.0)
    }
    fn times_spec(self, rhs: Self) -> Self {
        F(self.0 * rhs.0)
    }
    fn conj_spec(self) -> Self {
        self
    }
    fn real_spec(self) -> Self {
        self
    }
    fn zero() -> Self {
        F(0.0)
    }
    fn one() -> Self {
        F(1.0)
    }
    fn is_zero(self) -> bool {
        self.0 == 0.0
    }
    fn plus(self, rhs: Self) -> Self {
        F(self.0 + rhs.0)
    }
    fn minus(self, rhs: Self) -> Self {
        F(self.0 - rhs.0)
    }
    fn times(self, rhs: Self) -> Self {
        F(self.0 * rhs.0)
    }
    fn conj(self) -> Self {
        self
    }
    fn real_part(self) -> Self {
        self
    }
}

impl Field for F {
    fn over_spec(self, rhs: Self) -> Self {
        F(self.0 / rhs.0)
    }
    fn over(self, rhs: Self) -> Self {
        F(self.0 / rhs.0)
    }
}

impl Real for F {
    fn absolute_spec(self) -> Self {
        F(self.0.abs())
    }
    fn less_spec(self, rhs: Self) -> bool {
        self.0 < rhs.0
    }
    fn sqrt_spec(self) -> Self {
        F(self.0.sqrt())
    }
    fn absolute(self) -> Self {
        F(self.0.abs())
    }
    fn less(self, rhs: Self) -> bool {
        self.0 < rhs.0
    }
    fn sqrt(self) -> Self {
        F(self.0.sqrt())
    }
}

impl Magnitude for F {
    type Norm = F;
    fn abs1_spec(self) -> F {
        F(self.0.abs())
    }
    fn abs1(self) -> F {
        F(self.0.abs())
    }
}

fn fs(vals: &[f64]) -> Vec<F> {
    vals.iter().map(|v| F(*v)).collect()
}

fn close(a: f64, b: f64) -> bool {
    (a - b).abs() <= 1e-12 * (1.0 + a.abs().max(b.abs()))
}

const NAN: F = F(f64::NAN);

#[test]
fn norm_of_large_elements_does_not_overflow() {
    let x = fs(&[1e200, 1e200, 1e200, 1e200]);
    let naive: f64 = x.iter().map(|v| v.0 * v.0).sum::<f64>().sqrt();
    assert!(naive.is_infinite());
    let norm = nrm2(4, &x, 1).unwrap().0;
    assert!(close(norm, 2e200));
}

#[test]
fn norm_of_small_elements_does_not_underflow() {
    let x = fs(&[3e-200, 4e-200]);
    let naive: f64 = x.iter().map(|v| v.0 * v.0).sum::<f64>().sqrt();
    assert_eq!(naive, 0.0);
    let norm = nrm2(2, &x, 1).unwrap().0;
    assert!(close(norm, 5e-200));
}

#[test]
fn norm_scales_with_the_vector() {
    let base = [3.0, -4.0, 12.0];
    let unit = nrm2(3, &fs(&base), 1).unwrap().0;
    assert!(close(unit, 13.0));
    for factor in [1e150, -1e150, 1e-150, -2.5, 0.0] {
        let mut x = fs(&base);
        scal(3, F(factor), &mut x, 1).unwrap();
        let norm = nrm2(3, &x, 1).unwrap().0;
        assert!(close(norm, factor.abs() * unit));
    }
}

#[test]
fn norm_with_strides_and_of_complex_vectors() {
    let x = fs(&[3.0, 99.0, 4.0]);
    assert!(close(nrm2(2, &x, 2).unwrap().0, 5.0));
    assert!(close(nrm2(2, &x, -2).unwrap().0, 5.0));
    assert_eq!(nrm2(0, &x, 1).unwrap().0, 0.0);
    let z = [Complex::new(F(1e200), F(-1e200)), Complex::new(F(1e200), F(1e200))];
    assert!(close(nrm2_complex(2, &z, 1).unwrap().0, 2e200));
}

#[test]
fn rotation_of_pair_with_zero_second_element() {
    for a in [3.0, -3.0, 1e300, -1e-300] {
        let g = rotg(F(a), F(0.0));
        assert_eq!((g.c.0, g.s.0, g.r.0, g.z.0), (1.0, 0.0, a, 0.0));
        // The rotation takes (a, 0) to (r, 0) and is orthogonal.
        assert_eq!(g.c.0 * 0.0 - g.s.0 * a, 0.0);
        assert!(close(g.c.0 * g.c.0 + g.s.0 * g.s.0, 1.0));
    }
}

#[test]
fn rotation_of_zero_pair_is_the_identity() {
    let g = rotg(F(0.0), F(0.0));
    assert_eq!((g.c.0, g.s.0, g.r.0, g.z.0), (1.0, 0.0, 0.0, 0.0));
}

#[test]
fn rotation_of_pair_with_zero_first_element_is_the_identity() {
    let g = rotg(F(0.0), F(-2.0));
    assert_eq!((g.c.0, g.s.0, g.r.0, g.z.0), (1.0, 0.0, 0.0, 0.0));
}

#[test]
fn rotation_zeroes_the_second_element() {
    for (a, b) in [(3.0, 4.0), (4.0, 3.0), (-3.0, 4.0), (5.0, -12.0), (1e200, 1e200), (1e-200, 2e-200)] {
        let g = rotg(F(a), F(b));
        let scale = a.abs().max(b.abs());
        assert!(close(g.c.0 * g.c.0 + g.s.0 * g.s.0, 1.0));
        assert!(((g.c.0 * b - g.s.0 * a) / scale).abs() < 1e-15);
        assert!(close(g.c.0 * a + g.s.0 * b, g.r.0));
        assert!(close(g.r.0.abs() / scale, (a / scale).hypot(b / scale)));
        // r has the sign of the element of greater absolute value.
        let roe = if a.abs() > b.abs() { a } else { b };
        assert_eq!(g.r.0 < 0.0, roe < 0.0);
    }
    let g = rotg(F(3.0), F(4.0));
    assert!(close(g.r.0, 5.0) && close(g.c.0, 0.6) && close(g.s.0, 0.8));
    // |a| < |b| and c is not zero: z is 1 / c.
    assert!(close(g.z.0, 1.0 / 0.6));
    let h = rotg(F(4.0), F(3.0));
    // |a| > |b|: z is s.
    assert!(close(h.z.0, 0.6));
}

#[test]
fn constructed_rotation_applied_to_vectors() {
    let g = rotg(F(3.0), F(4.0));
    let mut x = fs(&[3.0, 1.0]);
    let mut y = fs(&[4.0, 0.0]);
    rot(2, &mut x, 1, &mut y, 1, g.c, g.s).unwrap();
    assert!(close(x[0].0, 5.0));
    assert!(y[0].0.abs() < 1e-15);
    assert!(close(x[1].0, 0.6));
    assert!(close(y[1].0, -0.8));
}

#[test]
fn axpy_with_zero_factor_ignores_nan() {
    let x = [NAN, F(f64::INFINITY)];
    let mut y = fs(&[1.0, 2.0]);
    assert_eq!(axpy(2, F(0.0), &x, 1, &mut y, 1), Ok(()));
    assert_eq!(y, fs(&[1.0, 2.0]));
    // A negative zero is a zero too.
    assert_eq!(axpy(2, F(-0.0), &x, 1, &mut y, 1), Ok(()));
    assert_eq!(y, fs(&[1.0, 2.0]));
}

#[test]
fn scal_by_zero_clears_nan() {
    let mut x = [NAN, F(f64::INFINITY), F(3.0)];
    assert_eq!(scal(3, F(0.0), &mut x, 1), Ok(()));
    assert_eq!(x.to_vec(), fs(&[0.0, 0.0, 0.0]));
}

#[test]
fn inner_product_is_linear_in_its_second_argument() {
    let x = fs(&[1.5, -2.0, 0.25, 8.0]);
    let y1 = fs(&[0.5, 3.0, -1.0, 2.0]);
    let y2 = fs(&[-4.0, 0.125, 6.0, 1.0]);
    let a = 2.5;
    let combined: Vec<F> = (0..4).map(|i| F(a * y1[i].0 + y2[i].0)).collect();
    let left = dotu(4, &x, 1, &combined, 1).unwrap().0;
    let right = a * dotu(4, &x, 1, &y1, 1).unwrap().0 + dotu(4, &x, 1, &y2, 1).unwrap().0;
    assert!(close(left, right));
}

#[test]
fn inner_product_is_conjugate_linear_in_its_first_argument() {
    type Z = Complex<F>;
    let z = |re: f64, im: f64| Complex::new(F(re), F(im));
    let x1 = [z(1.0, 2.0), z(-0.5, 0.25)];
    let x2 = [z(3.0, -1.0), z(0.0, 4.0)];
    let y = [z(2.0, 1.0), z(-1.0, -1.0)];
    let a = z(0.5, -2.0);
    let combined: Vec<Z> = (0..2).map(|i| a.times(x1[i]).plus(x2[i])).collect();
    let left = dotc(2, &combined, 1, &y, 1).unwrap();
    let right = a.conj().times(dotc(2, &x1, 1, &y, 1).unwrap()).plus(dotc(2, &x2, 1, &y, 1).unwrap());
    assert!(close(left.re.0, right.re.0));
    assert!(close(left.im.0, right.im.0));
}

#[test]
fn inner_product_adds_from_first_to_last() {
    // Added from the left the small terms are lost one by one.
    let x = fs(&[1e16, 1.0, 1.0, -1e16]);
    let ones = fs(&[1.0, 1.0, 1.0, 1.0]);
    assert_eq!(dotu(4, &x, 1, &ones, 1).unwrap().0, 0.0);
    // Walked backwards the order of the additions is the other one.
    let first = ((0.0 + 1e16) + 1.0 + 1.0) - 1e16;
    let last = ((0.0 - 1e16) + 1.0 + 1.0) + 1e16;
    assert_eq!(dotu(4, &x, 1, &ones, 1).unwrap().0, first);
    assert_eq!(dotu(4, &x, -1, &ones, 1).unwrap().0, last);
}

#[test]
fn solve_inverts_multiply_for_well_conditioned_matrix() {
    let n = 4usize;
    // Lower triangle with a dominant diagonal, by columns.
    let mut a = vec![NAN; n * n];
    for j in 0..n {
        for i in j..n {
            a[i + j * n] = F(if i == j { 4.0 + i as f64 } else { 0.25 * (i as f64 - j as f64) - 0.5 });
        }
    }
    let b = fs(&[1.0, -2.0, 3.5, 0.125]);
    for trans in [Trans::N, Trans::T] {
        for diag in [Diag::N, Diag::U] {
            let mut x = b.clone();
            assert_eq!(trmv(Uplo::L, trans, diag, n, &a, n, &mut x, 1), Ok(()));
            assert_eq!(trsv(Uplo::L, trans, diag, n, &a, n, &mut x, 1), Ok(()));
            for i in 0..n {
                assert!(close(x[i].0, b[i].0));
            }
        }
    }
}

#[test]
fn solve_with_zero_pivot_gives_infinity() {
    let a = fs(&[0.0]);
    let mut x = fs(&[1.0]);
    assert_eq!(trsv(Uplo::U, Trans::N, Diag::N, 1, &a, 1, &mut x, 1), Ok(()));
    assert!(x[0].0.is_infinite());
    let mut z = fs(&[0.0]);
    assert_eq!(trsv(Uplo::U, Trans::N, Diag::N, 1, &a, 1, &mut z, 1), Ok(()));
    assert!(z[0].0.is_nan());
}

#[test]
fn product_with_identity_ignores_uninitialised_output() {
    let (m, n) = (3usize, 2usize);
    let a = fs(&[1.5, -2.0, 0.0, 4.0, 1e300, -0.5]);
    let identity = fs(&[1.0, 0.0, 0.0, 1.0]);
    let mut c = vec![NAN; m * n];
    assert_eq!(
        gemm(Trans::N, Trans::N, m, n, n, F(1.0), &a, m, &identity, n, F(0.0), &mut c, m),
        Ok(())
    );
    assert_eq!(c, a);
}

#[test]
fn rank_k_update_leaves_other_triangle_untouched() {
    let n = 3usize;
    let a = fs(&[1.0, 2.0, 3.0]);
    let sentinel = F(f64::from_bits(0x7ff8_dead_beef_0001));
    for uplo in [Uplo::U, Uplo::L] {
        let mut c = vec![sentinel; n * n];
        assert_eq!(syrk(uplo, Trans::N, n, 1, F(1.0), &a, n, F(0.0), &mut c, n), Ok(()));
        for j in 0..n {
            for i in 0..n {
                let v = c[i + j * n].0;
                if uplo.contains(i, j) {
                    assert_eq!(v, a[i].0 * a[j].0);
                } else {
                    assert_eq!(v.to_bits(), sentinel.0.to_bits());
                }
            }
        }
    }
}

#[test]
fn band_product_never_reads_outside_the_band() {
    let (m, n, kl, ku) = (5usize, 5usize, 1usize, 2usize);
    let lda = kl + ku + 2;
    let mut a = vec![NAN; lda * n];
    for j in 0..n {
        for i in 0..m {
            if i + ku >= j && i <= j + kl {
                a[ku + i - j + j * lda] = F(1.0 + (i + 2 * j) as f64);
            }
        }
    }
    let x = fs(&[1.0, -1.0, 2.0, 0.5, 3.0]);
    for trans in [Trans::N, Trans::T] {
        let mut y = vec![NAN; m];
        assert_eq!(gbmv(trans, m, n, kl, ku, F(1.0), &a, lda, &x, 1, F(0.0), &mut y, 1), Ok(()));
        for r in 0..m {
            let mut want = 0.0;
            for l in 0..n {
                let (i, j) = if trans == Trans::N { (r, l) } else { (l, r) };
                if i + ku >= j && i <= j + kl {
                    want += (1.0 + (i + 2 * j) as f64) * x[l].0;
                }
            }
            assert!(!y[r].0.is_nan());
            assert!(close(y[r].0, want));
        }
    }
}

#[test]
fn greatest_magnitude_of_floats() {
    let x = fs(&[1.0, -3.0, 3.0, 2.0]);
    assert_eq!(iamax(4, &x, 1), Ok(2));
    // Walked backwards the view is [2, 3, -3, 1].
    assert_eq!(iamax(4, &x, -1), Ok(2));
    let z = [Complex::new(F(3.0), F(4.0)), Complex::new(F(6.0), F(0.0))];
    assert_eq!(iamax(2, &z, 1), Ok(1));
}
