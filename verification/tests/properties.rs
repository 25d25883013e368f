use metal::complex::Complex;
use metal::gemm::gemm;
use metal::gemv::gbmv;
use metal::givens::rotg;
use metal::level1::{axpy, copy, dotc, dotu, rot, swap};
use metal::scalar::Scalar;
use metal::selector::{Diag, Trans, Uplo};
use metal::syrk::{her2k, herk, syr2k, syrk};
use metal::trmv::{tbmv, tpmv, trmv};
use metal::trsv::{tbsv, tpsv, trsv};

const HOLE: i64 = 1_000_003;

type C = Complex<i64>;

fn c(re: i64, im: i64) -> C {
    Complex::new(re, im)
}

/// Values all over the range of the integers, so that sums and products
/// wrap.
fn wild(seed: u64, i: usize) -> i64 {
    let mut v = seed.wrapping_mul(0x9e37_79b9_7f4a_7c15).wrapping_add(i as u64);
    v ^= v >> 29;
    v = v.wrapping_mul(0xbf58_476d_1ce4_e5b9);
    v ^= v >> 32;
    v as i64
}

fn wilds(seed: u64, n: usize) -> Vec<i64> {
    (0..n).map(|i| wild(seed, i)).collect()
}

fn cwilds(seed: u64, n: usize) -> Vec<C> {
    (0..n).map(|i| c(wild(seed, 2 * i), wild(seed, 2 * i + 1))).collect()
}

fn span(n: usize, inc: isize) -> usize {
    if n == 0 {
        0
    } else {
        1 + (n - 1) * inc.unsigned_abs()
    }
}

const STRIDES: [isize; 5] = [1, 3, -1, -2, 7];

#[test]
fn swapping_twice_restores_both_vectors() {
    for n in [0usize, 1, 2, 5] {
        for incx in STRIDES {
            for incy in STRIDES {
                let x0 = wilds(1, span(n, incx));
                let y0 = wilds(2, span(n, incy));
                let mut x = x0.clone();
                let mut y = y0.clone();
                assert_eq!(swap(n, &mut x, incx, &mut y, incy), Ok(()));
                assert_eq!(swap(n, &mut x, incx, &mut y, incy), Ok(()));
                assert_eq!((x, y), (x0, y0));
            }
        }
    }
}

#[test]
fn copy_then_swap_moves_the_copy_into_the_other_vector() {
    for n in [0usize, 1, 2, 5] {
        for incx in STRIDES {
            for incy in STRIDES {
                let x0 = wilds(3, span(n, incx));
                let y0 = wilds(4, span(n, incy));
                let mut saved = vec![HOLE; n];
                assert_eq!(copy(n, &x0, incx, &mut saved, 1), Ok(()));
                let mut x = x0.clone();
                let mut y = y0.clone();
                assert_eq!(swap(n, &mut x, incx, &mut y, incy), Ok(()));
                // The view of y now holds what the copy holds.
                let mut from_y = vec![HOLE; n];
                assert_eq!(copy(n, &y, incy, &mut from_y, 1), Ok(()));
                assert_eq!(from_y, saved);
                // The view of x holds what that of y held.
                let mut from_x = vec![HOLE; n];
                let mut old_y = vec![HOLE; n];
                assert_eq!(copy(n, &x, incx, &mut from_x, 1), Ok(()));
                assert_eq!(copy(n, &y0, incy, &mut old_y, 1), Ok(()));
                assert_eq!(from_x, old_y);
                // Swapping back restores the pairing.
                assert_eq!(swap(n, &mut x, incx, &mut y, incy), Ok(()));
                assert_eq!((x, y), (x0, y0));
            }
        }
    }
}

#[test]
fn linear_combination_with_zero_factor_is_the_identity() {
    for n in [0usize, 1, 4] {
        for incx in STRIDES {
            for incy in STRIDES {
                let x = wilds(5, span(n, incx));
                let y0 = wilds(6, span(n, incy));
                let mut y = y0.clone();
                assert_eq!(axpy(n, 0, &x, incx, &mut y, incy), Ok(()));
                assert_eq!(y, y0);
                let cx = cwilds(5, span(n, incx));
                let cy0 = cwilds(6, span(n, incy));
                let mut cy = cy0.clone();
                assert_eq!(axpy(n, c(0, 0), &cx, incx, &mut cy, incy), Ok(()));
                assert_eq!(cy, cy0);
            }
        }
    }
}

#[test]
fn integer_inner_product_is_linear_in_its_second_argument() {
    let n = 6usize;
    for seed in 0..8u64 {
        let x = wilds(seed, n);
        let y1 = wilds(seed + 100, n);
        let y2 = wilds(seed + 200, n);
        let a = wild(seed + 300, 0);
        let y: Vec<i64> = (0..n).map(|i| a.times(y1[i]).plus(y2[i])).collect();
        let left = dotu(n, &x, 1, &y, 1).unwrap();
        let right = a.times(dotu(n, &x, 1, &y1, 1).unwrap()).plus(dotu(n, &x, 1, &y2, 1).unwrap());
        assert_eq!(left, right);
    }
}

#[test]
fn complex_inner_product_is_conjugate_linear_in_its_first_argument() {
    let n = 5usize;
    for seed in 0..8u64 {
        let x1 = cwilds(seed, n);
        let x2 = cwilds(seed + 100, n);
        let y = cwilds(seed + 200, n);
        let a = c(wild(seed + 300, 0), wild(seed + 300, 1));
        let x: Vec<C> = (0..n).map(|i| a.times(x1[i]).plus(x2[i])).collect();
        let conjugated = dotc(n, &x, 1, &y, 1).unwrap();
        let want = a.conj().times(dotc(n, &x1, 1, &y, 1).unwrap()).plus(dotc(n, &x2, 1, &y, 1).unwrap());
        assert_eq!(conjugated, want);
        let plain = dotu(n, &x, 1, &y, 1).unwrap();
        let want = a.times(dotu(n, &x1, 1, &y, 1).unwrap()).plus(dotu(n, &x2, 1, &y, 1).unwrap());
        assert_eq!(plain, want);
        // It is linear in the second argument whether or not the first is conjugated.
        let y1 = cwilds(seed + 400, n);
        let y2 = cwilds(seed + 500, n);
        let yy: Vec<C> = (0..n).map(|i| a.times(y1[i]).plus(y2[i])).collect();
        let left = dotc(n, &x1, 1, &yy, 1).unwrap();
        let right = a.times(dotc(n, &x1, 1, &y1, 1).unwrap()).plus(dotc(n, &x1, 1, &y2, 1).unwrap());
        assert_eq!(left, right);
    }
}

#[test]
fn rotation_for_pair_with_zero_second_element_is_exact() {
    for a in [0i64, 1, -1, 7, i64::MAX, i64::MIN] {
        let g = rotg(a, 0);
        assert_eq!((g.r, g.c, g.s, g.z), (a, 1, 0, 0));
        assert_eq!(g.c.times(g.c).plus(g.s.times(g.s)), 1);
        let mut x = [a];
        let mut y = [0i64];
        assert_eq!(rot(1, &mut x, 1, &mut y, 1, g.c, g.s), Ok(()));
        assert_eq!((x, y), ([a], [0]));
    }
}

#[test]
fn unit_triangular_solve_undoes_the_product_exactly() {
    let n = 6usize;
    for uplo in [Uplo::U, Uplo::L] {
        for trans in [Trans::N, Trans::T, Trans::C] {
            for incx in [1isize, -2] {
                for seed in 0..4u64 {
                    let x0 = wilds(seed, span(n, incx));
                    // Every slot of the matrix holds a wild value, the other
                    // triangle and the diagonal too: they are never read.
                    let full = wilds(seed + 10, n * n);
                    let mut x = x0.clone();
                    assert_eq!(trmv(uplo, trans, Diag::U, n, &full, n, &mut x, incx), Ok(()));
                    assert_ne!(x, x0);
                    assert_eq!(trsv(uplo, trans, Diag::U, n, &full, n, &mut x, incx), Ok(()));
                    assert_eq!(x, x0);
                    let band = wilds(seed + 20, 3 * n);
                    assert_eq!(tbmv(uplo, trans, Diag::U, n, 2, &band, 3, &mut x, incx), Ok(()));
                    assert_eq!(tbsv(uplo, trans, Diag::U, n, 2, &band, 3, &mut x, incx), Ok(()));
                    assert_eq!(x, x0);
                    let packed = wilds(seed + 30, n * (n + 1) / 2);
                    assert_eq!(tpmv(uplo, trans, Diag::U, n, &packed, &mut x, incx), Ok(()));
                    assert_eq!(tpsv(uplo, trans, Diag::U, n, &packed, &mut x, incx), Ok(()));
                    assert_eq!(x, x0);
                }
            }
        }
    }
}

#[test]
fn product_with_identity_is_the_matrix() {
    let (m, n) = (4usize, 3usize);
    let mut identity = vec![0i64; n * n];
    for j in 0..n {
        identity[j + j * n] = 1;
    }
    for seed in 0..4u64 {
        let a = wilds(seed, m * n);
        // With beta zero what the output held is never looked at.
        let mut out = wilds(seed + 50, m * n);
        assert_eq!(gemm(Trans::N, Trans::N, m, n, n, 1, &a, m, &identity, n, 0, &mut out, m), Ok(()));
        assert_eq!(out, a);
        let mut back = wilds(seed + 60, m * n);
        assert_eq!(gemm(Trans::N, Trans::T, m, n, n, 1, &a, m, &identity, n, 0, &mut back, m), Ok(()));
        assert_eq!(back, a);
        // The transposed matrix times the identity is the transpose.
        let mut turned = vec![HOLE; n * m];
        assert_eq!(gemm(Trans::T, Trans::N, n, m, m, 1, &a, m, &{
            let mut id = vec![0i64; m * m];
            for j in 0..m {
                id[j + j * m] = 1;
            }
            id
        }, m, 0, &mut turned, n), Ok(()));
        for i in 0..m {
            for j in 0..n {
                assert_eq!(turned[j + i * n], a[i + j * m]);
            }
        }
    }
}

#[test]
fn complex_product_with_identity_is_the_matrix() {
    let (m, n) = (3usize, 3usize);
    let mut identity = vec![c(0, 0); n * n];
    for j in 0..n {
        identity[j + j * n] = c(1, 0);
    }
    let a = cwilds(7, m * n);
    let mut out = cwilds(8, m * n);
    assert_eq!(
        gemm(Trans::N, Trans::N, m, n, n, c(1, 0), &a, m, &identity, n, c(0, 0), &mut out, m),
        Ok(())
    );
    assert_eq!(out, a);
}

#[test]
fn rank_k_updates_never_write_the_other_triangle() {
    let (n, k, ldc) = (5usize, 3usize, 7usize);
    for uplo in [Uplo::U, Uplo::L] {
        for trans in [Trans::N, Trans::T] {
            let a = wilds(9, n * k);
            let b = wilds(10, n * k);
            let lda = if trans == Trans::N { n } else { k };
            let before = wilds(11, ldc * n);
            let mut c1 = before.clone();
            let mut c2 = before.clone();
            assert_eq!(syrk(uplo, trans, n, k, 3, &a, lda, 5, &mut c1, ldc), Ok(()));
            assert_eq!(syr2k(uplo, trans, n, k, 3, &a, lda, &b, lda, 5, &mut c2, ldc), Ok(()));
            let mut changed = 0;
            for p in 0..ldc * n {
                let (i, j) = (p % ldc, p / ldc);
                if i >= n || !uplo.contains(i, j) {
                    assert_eq!(c1[p], before[p]);
                    assert_eq!(c2[p], before[p]);
                } else if c1[p] != before[p] {
                    changed += 1;
                }
            }
            assert!(changed > 0);
        }
    }
}

#[test]
fn hermitian_rank_k_updates_never_write_the_other_triangle() {
    let (n, k) = (4usize, 2usize);
    for uplo in [Uplo::U, Uplo::L] {
        for trans in [Trans::N, Trans::C] {
            let a = cwilds(12, n * k);
            let b = cwilds(13, n * k);
            let lda = if trans == Trans::N { n } else { k };
            let before = cwilds(14, n * n);
            let mut c1 = before.clone();
            let mut c2 = before.clone();
            assert_eq!(herk(uplo, trans, n, k, c(3, 1), &a, lda, c(5, 2), &mut c1, n), Ok(()));
            assert_eq!(
                her2k(uplo, trans, n, k, c(3, 1), &a, lda, &b, lda, c(5, 2), &mut c2, n),
                Ok(())
            );
            for j in 0..n {
                for i in 0..n {
                    if !uplo.contains(i, j) {
                        assert_eq!(c1[i + j * n], before[i + j * n]);
                        assert_eq!(c2[i + j * n], before[i + j * n]);
                    } else if i == j {
                        // The diagonal of a Hermitian matrix is real.
                        assert_eq!(c1[i + j * n].im, 0);
                        assert_eq!(c2[i + j * n].im, 0);
                    }
                }
            }
        }
    }
}

#[test]
fn band_product_depends_on_the_band_only() {
    let (m, n, kl, ku, lda) = (6usize, 5usize, 2usize, 1usize, 5usize);
    let mut first = wilds(15, lda * n);
    let mut second = wilds(16, lda * n);
    for j in 0..n {
        for i in 0..m {
            if i + ku >= j && i <= j + kl {
                let v = wild(17, i + 100 * j);
                first[ku + i - j + j * lda] = v;
                second[ku + i - j + j * lda] = v;
            }
        }
    }
    assert_ne!(first, second);
    for trans in [Trans::N, Trans::T, Trans::C] {
        let (len_x, len_y) = if trans == Trans::N { (n, m) } else { (m, n) };
        let x = wilds(18, len_x);
        let y0 = wilds(19, len_y);
        let mut y1 = y0.clone();
        let mut y2 = y0.clone();
        assert_eq!(gbmv(trans, m, n, kl, ku, 3, &first, lda, &x, 1, 5, &mut y1, 1), Ok(()));
        assert_eq!(gbmv(trans, m, n, kl, ku, 3, &second, lda, &x, 1, 5, &mut y2, 1), Ok(()));
        assert_eq!(y1, y2);
        assert_ne!(y1, y0);
    }
}

#[test]
fn solve_undoes_the_product_where_the_diagonal_cancels() {
    // A stored diagonal of ones and minus ones: dividing by each element
    // undoes multiplying by it, also where the product wraps.
    let n = 5usize;
    for uplo in [Uplo::U, Uplo::L] {
        for trans in [Trans::N, Trans::T, Trans::C] {
            for seed in 0..4u64 {
                let x0 = wilds(seed, n);
                let mut a = wilds(seed + 40, n * n);
                for i in 0..n {
                    a[i + i * n] = if (i as u64 + seed) % 2 == 0 { 1 } else { -1 };
                }
                let mut x = x0.clone();
                assert_eq!(trmv(uplo, trans, Diag::N, n, &a, n, &mut x, 1), Ok(()));
                assert_ne!(x, x0);
                assert_eq!(trsv(uplo, trans, Diag::N, n, &a, n, &mut x, 1), Ok(()));
                assert_eq!(x, x0);
            }
        }
    }
}

#[test]
fn solve_need_not_undo_the_product_where_the_diagonal_does_not_cancel() {
    // 2 * 2^62 wraps to the least integer, and half of that is not 2^62.
    let a = [2i64];
    let mut x = [1i64 << 62];
    assert_eq!(trmv(Uplo::L, Trans::N, Diag::N, 1, &a, 1, &mut x, 1), Ok(()));
    assert_eq!(x, [i64::MIN]);
    assert_eq!(trsv(Uplo::L, Trans::N, Diag::N, 1, &a, 1, &mut x, 1), Ok(()));
    assert_eq!(x, [-(1i64 << 62)]);
}
