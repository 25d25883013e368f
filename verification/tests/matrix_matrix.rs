use metal::complex::Complex;
use metal::error::ArgError;
use metal::gemm::{check_gemm, gemm};
use metal::layout::{blend_sum, op_get, product_sum};
use metal::scalar::{conj_for, diag_for, scalar_for};
use metal::selector::{Diag, Side, Trans, Uplo};
use metal::symm::{check_symm, hemm, symm};
use metal::syrk::{
    check_syr2k, check_syrk, her2k, herk, is_classic_operator, rank_ops, syr2k, syrk,
};
use metal::triangle::{sym_get, tri_op_get, Store};
use metal::trmm::{check_trmm, trmm};
use metal::trsm::trsm;

const HOLE: i64 = 1_000_003;

type C = Complex<i64>;

fn c(re: i64, im: i64) -> C {
    Complex::new(re, im)
}

fn cadd(a: C, b: C) -> C {
    c(a.re + b.re, a.im + b.im)
}

fn cmul(a: C, b: C) -> C {
    c(a.re * b.re - a.im * b.im, a.re * b.im + a.im * b.re)
}

fn cconj(a: C) -> C {
    c(a.re, -a.im)
}

const CHOLE: C = Complex { re: HOLE, im: HOLE };

fn gen(seed: usize, i: usize, j: usize) -> i64 {
    ((i * 7 + j * 13 + seed * 5 + i * j) % 9) as i64 - 4
}

fn cgen(seed: usize, i: usize, j: usize) -> C {
    c(gen(seed, i, j), gen(seed + 3, j, i))
}

/// A dense matrix as rows of values.
type Dense<T> = Vec<Vec<T>>;

fn dense<T>(rows: usize, cols: usize, at: &dyn Fn(usize, usize) -> T) -> Dense<T> {
    (0..rows).map(|i| (0..cols).map(|j| at(i, j)).collect()).collect()
}

/// The buffer of a full matrix with leading dimension `ld`; the slots below
/// the last row hold `hole`.
fn full<T: Copy>(a: &Dense<T>, ld: usize, hole: T) -> Vec<T> {
    let rows = a.len();
    let cols = if rows == 0 { 0 } else { a[0].len() };
    let mut buf = vec![hole; ld * cols];
    for j in 0..cols {
        for i in 0..rows {
            buf[i + j * ld] = a[i][j];
        }
    }
    buf
}

/// The buffer of a full matrix of which one triangle is stored.
fn full_triangle<T: Copy>(uplo: Uplo, n: usize, ld: usize, hole: T, at: &dyn Fn(usize, usize) -> T) -> Vec<T> {
    let mut buf = vec![hole; ld * n];
    for j in 0..n {
        for i in 0..n {
            if uplo.contains(i, j) {
                buf[i + j * ld] = at(i, j);
            }
        }
    }
    buf
}

fn transpose<T: Copy>(a: &Dense<T>) -> Dense<T> {
    let rows = a.len();
    let cols = if rows == 0 { 0 } else { a[0].len() };
    dense(cols, rows, &|i, j| a[j][i])
}

fn product(a: &Dense<i64>, b: &Dense<i64>) -> Dense<i64> {
    let inner = b.len();
    let cols = if inner == 0 { 0 } else { b[0].len() };
    dense(a.len(), cols, &|i, j| (0..inner).map(|l| a[i][l] * b[l][j]).sum())
}

fn cproduct(a: &Dense<C>, b: &Dense<C>) -> Dense<C> {
    let inner = b.len();
    let cols = if inner == 0 { 0 } else { b[0].len() };
    dense(a.len(), cols, &|i, j| {
        let mut s = c(0, 0);
        for l in 0..inner {
            s = cadd(s, cmul(a[i][l], b[l][j]));
        }
        s
    })
}

fn apply(trans: Trans, a: &Dense<i64>) -> Dense<i64> {
    match trans {
        Trans::N => a.clone(),
        _ => transpose(a),
    }
}

fn capply(trans: Trans, a: &Dense<C>) -> Dense<C> {
    match trans {
        Trans::N => a.clone(),
        Trans::T => transpose(a),
        Trans::C => {
            let t = transpose(a);
            dense(t.len(), if t.is_empty() { 0 } else { t[0].len() }, &|i, j| cconj(t[i][j]))
        }
    }
}

const ALL_TRANS: [Trans; 3] = [Trans::N, Trans::T, Trans::C];

#[test]
fn gemm_matches_dense_product() {
    let (m, n, k) = (3usize, 4usize, 2usize);
    for transa in ALL_TRANS {
        for transb in ALL_TRANS {
            let a = if transa == Trans::N { dense(m, k, &|i, j| gen(1, i, j)) } else { dense(k, m, &|i, j| gen(1, i, j)) };
            let b = if transb == Trans::N { dense(k, n, &|i, j| gen(2, i, j)) } else { dense(n, k, &|i, j| gen(2, i, j)) };
            let c0 = dense(m, n, &|i, j| gen(3, i, j));
            for (alpha, beta) in [(2i64, 3i64), (1, 0), (0, 1)] {
                let (lda, ldb, ldc) = (a.len() + 1, b.len() + 2, m + 3);
                let ab = full(&a, lda, HOLE);
                let bb = full(&b, ldb, HOLE);
                let mut cb = full(&c0, ldc, HOLE);
                assert_eq!(
                    gemm(transa, transb, m, n, k, alpha, &ab, lda, &bb, ldb, beta, &mut cb, ldc),
                    Ok(())
                );
                let p = product(&apply(transa, &a), &apply(transb, &b));
                let want = dense(m, n, &|i, j| alpha * p[i][j] + beta * c0[i][j]);
                assert_eq!(cb, full(&want, ldc, HOLE));
            }
        }
    }
}

#[test]
fn gemm_of_complex_matrices() {
    let (m, n, k) = (2usize, 2usize, 3usize);
    for transa in ALL_TRANS {
        for transb in ALL_TRANS {
            let a = if transa == Trans::N { dense(m, k, &|i, j| cgen(1, i, j)) } else { dense(k, m, &|i, j| cgen(1, i, j)) };
            let b = if transb == Trans::N { dense(k, n, &|i, j| cgen(2, i, j)) } else { dense(n, k, &|i, j| cgen(2, i, j)) };
            let c0 = dense(m, n, &|i, j| cgen(3, i, j));
            let (alpha, beta) = (c(1, 2), c(0, -1));
            let (lda, ldb, ldc) = (a.len(), b.len(), m);
            let ab = full(&a, lda, CHOLE);
            let bb = full(&b, ldb, CHOLE);
            let mut cb = full(&c0, ldc, CHOLE);
            assert_eq!(
                gemm(transa, transb, m, n, k, alpha, &ab, lda, &bb, ldb, beta, &mut cb, ldc),
                Ok(())
            );
            let p = cproduct(&capply(transa, &a), &capply(transb, &b));
            let want = dense(m, n, &|i, j| cadd(cmul(alpha, p[i][j]), cmul(beta, c0[i][j])));
            assert_eq!(cb, full(&want, ldc, CHOLE));
        }
    }
}

#[test]
fn gemm_exact_values() {
    // [1 2; 3 4] * [5 6; 7 8] = [19 22; 43 50]
    let a = [1i64, 3, 2, 4];
    let b = [5i64, 7, 6, 8];
    let mut r = [0i64; 4];
    assert_eq!(gemm(Trans::N, Trans::N, 2, 2, 2, 1, &a, 2, &b, 2, 0, &mut r, 2), Ok(()));
    assert_eq!(r, [19, 43, 22, 50]);
    assert_eq!(gemm(Trans::T, Trans::N, 2, 2, 2, 1, &a, 2, &b, 2, 1, &mut r, 2), Ok(()));
    // [1 3; 2 4] * [5 6; 7 8] = [26 30; 38 44]
    assert_eq!(r, [45, 81, 52, 94]);
}

#[test]
fn gemm_with_no_inner_dimension_scales_the_output() {
    let a: [i64; 0] = [];
    let b: [i64; 0] = [];
    let mut r = [1i64, 2, 3, 4];
    assert_eq!(gemm(Trans::N, Trans::N, 2, 2, 0, 5, &a, 2, &b, 1, 3, &mut r, 2), Ok(()));
    assert_eq!(r, [3, 6, 9, 12]);
    assert_eq!(gemm(Trans::N, Trans::N, 2, 2, 0, 5, &a, 2, &b, 1, 0, &mut r, 2), Ok(()));
    assert_eq!(r, [0, 0, 0, 0]);
}

#[test]
fn gemm_of_empty_output_touches_nothing() {
    let a = [1i64; 4];
    let mut r = [9i64; 4];
    assert_eq!(gemm(Trans::N, Trans::N, 0, 2, 2, 1, &a, 0, &a, 0, 0, &mut r, 0), Ok(()));
    assert_eq!(gemm(Trans::N, Trans::N, 2, 0, 2, 1, &a, 0, &a, 0, 0, &mut r, 0), Ok(()));
    assert_eq!(r, [9; 4]);
}

#[test]
fn gemm_refuses_bad_arguments_and_writes_nothing() {
    let a = [1i64; 6];
    let b = [1i64; 6];
    let mut r = [9i64; 4];
    // a is 2 by 3, b is 3 by 2.
    assert_eq!(gemm(Trans::N, Trans::N, 2, 2, 3, 1, &a, 1, &b, 3, 0, &mut r, 2), Err(ArgError::LeadingDimension));
    assert_eq!(gemm(Trans::N, Trans::N, 2, 2, 3, 1, &a, 3, &b, 3, 0, &mut r, 2), Err(ArgError::BufferTooShort));
    assert_eq!(gemm(Trans::N, Trans::N, 2, 2, 3, 1, &a, 2, &b, 2, 0, &mut r, 2), Err(ArgError::LeadingDimension));
    assert_eq!(gemm(Trans::N, Trans::N, 2, 2, 3, 1, &a, 2, &b, 4, 0, &mut r, 2), Err(ArgError::BufferTooShort));
    assert_eq!(gemm(Trans::N, Trans::N, 2, 2, 3, 1, &a, 2, &b, 3, 0, &mut r, 1), Err(ArgError::LeadingDimension));
    assert_eq!(gemm(Trans::N, Trans::N, 2, 2, 3, 1, &a, 2, &b, 3, 0, &mut r, 3), Err(ArgError::BufferTooShort));
    // As stored, a transposed operand has its dimensions exchanged.
    assert_eq!(gemm(Trans::T, Trans::N, 2, 2, 3, 1, &a, 2, &b, 3, 0, &mut r, 2), Err(ArgError::LeadingDimension));
    assert_eq!(gemm(Trans::T, Trans::T, 2, 2, 3, 1, &a, 3, &b, 2, 0, &mut r, 2), Ok(()));
    assert_eq!(check_gemm(Trans::N, Trans::N, 2, 2, 3, 6, 2, 6, 3, 4, 2), Ok(()));
    assert_eq!(check_gemm(Trans::N, Trans::N, 2, 2, 3, 6, 2, 6, 3, 3, 2), Err(ArgError::BufferTooShort));
}

fn sym_dense(uplo: Uplo, n: usize, seed: usize) -> Dense<i64> {
    dense(n, n, &|i, j| if uplo.contains(i, j) { gen(seed, i, j) } else { gen(seed, j, i) })
}

fn herm_dense(uplo: Uplo, n: usize, seed: usize) -> Dense<C> {
    dense(n, n, &|i, j| {
        if i == j {
            c(gen(seed, i, i), 0)
        } else if uplo.contains(i, j) {
            cgen(seed, i, j)
        } else {
            cconj(cgen(seed, j, i))
        }
    })
}

#[test]
fn symm_matches_dense_product() {
    let (m, n) = (3usize, 4usize);
    for side in [Side::L, Side::R] {
        for uplo in [Uplo::U, Uplo::L] {
            let order = if side == Side::L { m } else { n };
            let lda = order + 1;
            let ab = full_triangle(uplo, order, lda, HOLE, &|i, j| gen(4, i, j));
            let s = sym_dense(uplo, order, 4);
            let b = dense(m, n, &|i, j| gen(5, i, j));
            let c0 = dense(m, n, &|i, j| gen(6, i, j));
            for (alpha, beta) in [(2i64, 3i64), (1, 0)] {
                let bb = full(&b, m, HOLE);
                let mut cb = full(&c0, m + 2, HOLE);
                assert_eq!(symm(side, uplo, m, n, alpha, &ab, lda, &bb, m, beta, &mut cb, m + 2), Ok(()));
                let p = if side == Side::L { product(&s, &b) } else { product(&b, &s) };
                let want = dense(m, n, &|i, j| alpha * p[i][j] + beta * c0[i][j]);
                assert_eq!(cb, full(&want, m + 2, HOLE));
            }
        }
    }
}

#[test]
fn hemm_matches_dense_product() {
    let (m, n) = (3usize, 2usize);
    for side in [Side::L, Side::R] {
        for uplo in [Uplo::U, Uplo::L] {
            let order = if side == Side::L { m } else { n };
            let ab = full_triangle(uplo, order, order, CHOLE, &|i, j| cgen(4, i, j));
            let h = herm_dense(uplo, order, 4);
            let b = dense(m, n, &|i, j| cgen(5, i, j));
            let c0 = dense(m, n, &|i, j| cgen(6, i, j));
            let (alpha, beta) = (c(1, 1), c(2, -1));
            let bb = full(&b, m, CHOLE);
            let mut cb = full(&c0, m, CHOLE);
            assert_eq!(hemm(side, uplo, m, n, alpha, &ab, order, &bb, m, beta, &mut cb, m), Ok(()));
            let p = if side == Side::L { cproduct(&h, &b) } else { cproduct(&b, &h) };
            let want = dense(m, n, &|i, j| cadd(cmul(alpha, p[i][j]), cmul(beta, c0[i][j])));
            assert_eq!(cb, full(&want, m, CHOLE));
        }
    }
}

#[test]
fn symm_refuses_bad_arguments() {
    let a = [1i64; 9];
    let b = [1i64; 6];
    let mut r = [9i64; 6];
    assert_eq!(symm(Side::L, Uplo::U, 3, 2, 1, &a, 2, &b, 3, 0, &mut r, 3), Err(ArgError::LeadingDimension));
    assert_eq!(symm(Side::L, Uplo::U, 3, 2, 1, &a, 3, &b, 2, 0, &mut r, 3), Err(ArgError::LeadingDimension));
    assert_eq!(symm(Side::L, Uplo::U, 3, 2, 1, &a, 3, &b, 3, 0, &mut r, 4), Err(ArgError::BufferTooShort));
    assert_eq!(symm(Side::R, Uplo::U, 3, 2, 1, &a, 2, &b, 3, 0, &mut r, 3), Ok(()));
    assert_eq!(hemm(Side::R, Uplo::U, 0, 2, 1, &a, 0, &b, 0, 0, &mut r, 0), Ok(()));
    assert_eq!(check_symm(Side::L, 3, 2, 9, 3, 6, 3, 6, 3), Ok(()));
    assert_eq!(check_symm(Side::L, 3, 2, 8, 3, 6, 3, 6, 3), Err(ArgError::BufferTooShort));
}

#[test]
fn syrk_updates_one_triangle() {
    let (n, k) = (4usize, 3usize);
    for uplo in [Uplo::U, Uplo::L] {
        for trans in ALL_TRANS {
            let a = if trans == Trans::N { dense(n, k, &|i, j| gen(7, i, j)) } else { dense(k, n, &|i, j| gen(7, i, j)) };
            let b = if trans == Trans::N { dense(n, k, &|i, j| gen(8, i, j)) } else { dense(k, n, &|i, j| gen(8, i, j)) };
            let oa = if trans == Trans::N { a.clone() } else { transpose(&a) };
            let ob = if trans == Trans::N { b.clone() } else { transpose(&b) };
            let aat = product(&oa, &transpose(&oa));
            let abt = product(&oa, &transpose(&ob));
            let bat = product(&ob, &transpose(&oa));
            for (alpha, beta) in [(2i64, 3i64), (1, 0)] {
                let lda = a.len() + 1;
                let ldc = n + 1;
                let ab = full(&a, lda, HOLE);
                let bb = full(&b, lda, HOLE);
                let mut c1 = full_triangle(uplo, n, ldc, HOLE, &|i, j| gen(9, i, j));
                let mut c2 = c1.clone();
                assert_eq!(syrk(uplo, trans, n, k, alpha, &ab, lda, beta, &mut c1, ldc), Ok(()));
                assert_eq!(
                    syr2k(uplo, trans, n, k, alpha, &ab, lda, &bb, lda, beta, &mut c2, ldc),
                    Ok(())
                );
                let want1 = full_triangle(uplo, n, ldc, HOLE, &|i, j| alpha * aat[i][j] + beta * gen(9, i, j));
                let want2 = full_triangle(uplo, n, ldc, HOLE, &|i, j| {
                    alpha * abt[i][j] + alpha * bat[i][j] + beta * gen(9, i, j)
                });
                assert_eq!(c1, want1);
                assert_eq!(c2, want2);
            }
        }
    }
}

#[test]
fn herk_takes_real_factors_and_keeps_the_diagonal_real() {
    let (n, k) = (3usize, 2usize);
    for uplo in [Uplo::U, Uplo::L] {
        for trans in [Trans::N, Trans::C] {
            let a = if trans == Trans::N { dense(n, k, &|i, j| cgen(7, i, j)) } else { dense(k, n, &|i, j| cgen(7, i, j)) };
            let b = if trans == Trans::N { dense(n, k, &|i, j| cgen(8, i, j)) } else { dense(k, n, &|i, j| cgen(8, i, j)) };
            let oa = capply(trans, &a);
            let ob = capply(trans, &b);
            // op(a) is n by k where trans is N, and its conjugate transpose otherwise.
            let (left_a, left_b) = if trans == Trans::N { (oa.clone(), ob.clone()) } else { (oa.clone(), ob.clone()) };
            let right_a = capply(Trans::C, &left_a);
            let right_b = capply(Trans::C, &left_b);
            let aah = cproduct(&left_a, &right_a);
            let abh = cproduct(&left_a, &right_b);
            let bah = cproduct(&left_b, &right_a);
            let (alpha, beta) = (c(2, 7), c(3, -5));
            let lda = a.len();
            let ab = full(&a, lda, CHOLE);
            let bb = full(&b, lda, CHOLE);
            let mut c1 = full_triangle(uplo, n, n, CHOLE, &|i, j| cgen(9, i, j));
            let mut c2 = c1.clone();
            assert_eq!(herk(uplo, trans, n, k, alpha, &ab, lda, beta, &mut c1, n), Ok(()));
            assert_eq!(her2k(uplo, trans, n, k, alpha, &ab, lda, &bb, lda, beta, &mut c2, n), Ok(()));
            let old = |i: usize, j: usize| if i == j { c(cgen(9, i, i).re, 0) } else { cgen(9, i, j) };
            let real = |i: usize, j: usize, v: C| if i == j { c(v.re, 0) } else { v };
            let want1 = full_triangle(uplo, n, n, CHOLE, &|i, j| {
                real(i, j, cadd(cmul(c(2, 0), aah[i][j]), cmul(c(3, 0), old(i, j))))
            });
            let want2 = full_triangle(uplo, n, n, CHOLE, &|i, j| {
                real(
                    i,
                    j,
                    cadd(
                        cadd(cmul(alpha, abh[i][j]), cmul(cconj(alpha), bah[i][j])),
                        cmul(c(3, 0), old(i, j)),
                    ),
                )
            });
            assert_eq!(c1, want1);
            assert_eq!(c2, want2);
        }
    }
}

#[test]
fn rank_k_updates_refuse_bad_arguments() {
    let a = [1i64; 6];
    let mut r = [9i64; 9];
    assert_eq!(syrk(Uplo::U, Trans::N, 3, 2, 1, &a, 2, 0, &mut r, 3), Err(ArgError::LeadingDimension));
    assert_eq!(syrk(Uplo::U, Trans::N, 3, 2, 1, &a, 4, 0, &mut r, 3), Err(ArgError::BufferTooShort));
    assert_eq!(syrk(Uplo::U, Trans::T, 3, 2, 1, &a, 2, 0, &mut r, 3), Ok(()));
    assert_eq!(syrk(Uplo::U, Trans::N, 3, 2, 1, &a, 3, 0, &mut r, 2), Err(ArgError::LeadingDimension));
    let mut s = [9i64; 9];
    assert_eq!(syr2k(Uplo::U, Trans::N, 3, 2, 1, &a, 3, &a, 2, 0, &mut s, 3), Err(ArgError::LeadingDimension));
    assert_eq!(syr2k(Uplo::U, Trans::N, 3, 2, 1, &a, 3, &a, 3, 0, &mut s, 4), Err(ArgError::BufferTooShort));
    assert_eq!(her2k(Uplo::U, Trans::N, 0, 2, 1, &a, 0, &a, 0, 0, &mut s, 0), Ok(()));
    assert_eq!(s, [9; 9]);
    assert_eq!(check_syrk(Trans::N, 3, 2, 6, 3, 9, 3), Ok(()));
    assert_eq!(check_syrk(Trans::N, 3, 2, 5, 3, 9, 3), Err(ArgError::BufferTooShort));
    assert_eq!(check_syr2k(Trans::T, 3, 2, 6, 2, 6, 2, 9, 3), Ok(()));
    assert_eq!(check_syr2k(Trans::T, 3, 2, 6, 2, 5, 2, 9, 3), Err(ArgError::BufferTooShort));
}

fn tri_dense(uplo: Uplo, trans: Trans, diag: Diag, n: usize, seed: usize) -> Dense<i64> {
    let stored = dense(n, n, &|i, j| {
        if !uplo.contains(i, j) {
            0
        } else if i == j {
            if diag == Diag::U {
                1
            } else {
                gen(seed, i, i) + 5
            }
        } else {
            gen(seed, i, j)
        }
    });
    apply(trans, &stored)
}

fn tri_full(uplo: Uplo, diag: Diag, n: usize, ld: usize, seed: usize) -> Vec<i64> {
    full_triangle(uplo, n, ld, HOLE, &|i, j| {
        if i == j {
            if diag == Diag::U {
                HOLE
            } else {
                gen(seed, i, i) + 5
            }
        } else {
            gen(seed, i, j)
        }
    })
}

#[test]
fn trmm_matches_dense_product() {
    let (m, n) = (3usize, 4usize);
    for side in [Side::L, Side::R] {
        for uplo in [Uplo::U, Uplo::L] {
            for trans in ALL_TRANS {
                for diag in [Diag::N, Diag::U] {
                    let order = if side == Side::L { m } else { n };
                    let lda = order + 1;
                    let ldb = m + 2;
                    let ab = tri_full(uplo, diag, order, lda, 10);
                    let t = tri_dense(uplo, trans, diag, order, 10);
                    let b = dense(m, n, &|i, j| gen(11, i, j));
                    let mut bb = full(&b, ldb, HOLE);
                    assert_eq!(trmm(side, uplo, trans, diag, m, n, 3, &ab, lda, &mut bb, ldb), Ok(()));
                    let p = if side == Side::L { product(&t, &b) } else { product(&b, &t) };
                    let want = dense(m, n, &|i, j| 3 * p[i][j]);
                    assert_eq!(bb, full(&want, ldb, HOLE));
                }
            }
        }
    }
}

#[test]
fn trsm_inverts_the_product() {
    let (m, n) = (3usize, 4usize);
    for side in [Side::L, Side::R] {
        for uplo in [Uplo::U, Uplo::L] {
            for trans in ALL_TRANS {
                for diag in [Diag::N, Diag::U] {
                    let order = if side == Side::L { m } else { n };
                    let lda = order + 1;
                    let ldb = m + 2;
                    let ab = tri_full(uplo, diag, order, lda, 12);
                    let t = tri_dense(uplo, trans, diag, order, 12);
                    let solution = dense(m, n, &|i, j| gen(13, i, j));
                    let rhs = if side == Side::L { product(&t, &solution) } else { product(&solution, &t) };
                    let mut bb = full(&rhs, ldb, HOLE);
                    assert_eq!(trsm(side, uplo, trans, diag, m, n, 1, &ab, lda, &mut bb, ldb), Ok(()));
                    assert_eq!(bb, full(&solution, ldb, HOLE));
                    // With a factor the solution is scaled by it.
                    let mut twice = full(&rhs, ldb, HOLE);
                    assert_eq!(trsm(side, uplo, trans, diag, m, n, 2, &ab, lda, &mut twice, ldb), Ok(()));
                    let want = dense(m, n, &|i, j| 2 * solution[i][j]);
                    assert_eq!(twice, full(&want, ldb, HOLE));
                }
            }
        }
    }
}

#[test]
fn trmm_exact_values() {
    // Upper triangle [1 2; 0 3], b = [1 1; 1 1].
    let a = [1i64, HOLE, 2, 3];
    let mut b = [1i64, 1, 1, 1];
    assert_eq!(trmm(Side::L, Uplo::U, Trans::N, Diag::N, 2, 2, 1, &a, 2, &mut b, 2), Ok(()));
    assert_eq!(b, [3, 3, 3, 3]);
    let mut r = [1i64, 1, 1, 1];
    assert_eq!(trmm(Side::R, Uplo::U, Trans::N, Diag::N, 2, 2, 1, &a, 2, &mut r, 2), Ok(()));
    assert_eq!(r, [1, 1, 5, 5]);
}

#[test]
fn triangular_matrix_kernels_refuse_bad_arguments() {
    let a = [1i64; 9];
    let mut b = [9i64; 6];
    assert_eq!(trmm(Side::L, Uplo::U, Trans::N, Diag::N, 3, 2, 1, &a, 2, &mut b, 3), Err(ArgError::LeadingDimension));
    assert_eq!(trmm(Side::L, Uplo::U, Trans::N, Diag::N, 3, 2, 1, &a, 3, &mut b, 2), Err(ArgError::LeadingDimension));
    assert_eq!(trsm(Side::L, Uplo::U, Trans::N, Diag::N, 3, 2, 1, &a, 3, &mut b, 4), Err(ArgError::BufferTooShort));
    assert_eq!(trsm(Side::R, Uplo::U, Trans::N, Diag::N, 3, 2, 1, &a, 1, &mut b, 3), Err(ArgError::LeadingDimension));
    assert_eq!(trsm(Side::R, Uplo::U, Trans::N, Diag::N, 0, 2, 1, &a, 0, &mut b, 0), Ok(()));
    assert_eq!(trmm(Side::R, Uplo::U, Trans::N, Diag::N, 3, 0, 1, &a, 0, &mut b, 0), Ok(()));
    assert_eq!(b, [9; 6]);
    assert_eq!(check_trmm(Side::R, 3, 2, 4, 2, 6, 3), Ok(()));
    assert_eq!(check_trmm(Side::L, 3, 2, 4, 2, 6, 3), Err(ArgError::LeadingDimension));
}

#[test]
fn element_readers() {
    // a = [1 3 5; 2 4 6] by columns.
    let a = [1i64, 2, 3, 4, 5, 6];
    assert_eq!(op_get(Trans::N, &a, 2, 3, 2, 1, 2), 6);
    assert_eq!(op_get(Trans::T, &a, 3, 2, 2, 2, 1), 6);
    let z = [c(1, 2)];
    assert_eq!(op_get(Trans::C, &z, 1, 1, 1, 0, 0), c(1, -2));
    // Row 1 of a times column 0 of a^T: 2*2 + 4*4 + 6*6.
    assert_eq!(product_sum(Trans::N, Trans::T, 2, 2, 3, &a, 2, &a, 2, 1, 1), 56);
    // Upper triangle of a symmetric matrix, lower slot a hole.
    let s = [c(1, 9), CHOLE, c(2, 3), c(4, 9)];
    assert_eq!(sym_get(false, Store::Full, Uplo::U, 2, &s, 2, 1, 0), c(2, 3));
    assert_eq!(sym_get(true, Store::Full, Uplo::U, 2, &s, 2, 1, 0), c(2, -3));
    assert_eq!(sym_get(true, Store::Full, Uplo::U, 2, &s, 2, 0, 0), c(1, 0));
    assert_eq!(sym_get(false, Store::Full, Uplo::U, 2, &s, 2, 0, 0), c(1, 9));
    assert_eq!(tri_op_get(Trans::N, Store::Full, Uplo::U, 2, &s, 2, 0, 1), c(2, 3));
    assert_eq!(tri_op_get(Trans::C, Store::Full, Uplo::U, 2, &s, 2, 1, 0), c(2, -3));
}

#[test]
fn scalar_helpers() {
    assert_eq!(blend_sum(5i64, 0, HOLE), 5);
    assert_eq!(blend_sum(5i64, 2, 10), 25);
    assert_eq!(scalar_for(true, c(2, 3)), c(2, 0));
    assert_eq!(scalar_for(false, c(2, 3)), c(2, 3));
    assert_eq!(conj_for(true, c(2, 3)), c(2, -3));
    assert_eq!(conj_for(false, c(2, 3)), c(2, 3));
    assert_eq!(diag_for(true, 1, 1, c(2, 3)), c(2, 0));
    assert_eq!(diag_for(true, 0, 1, c(2, 3)), c(2, 3));
    assert_eq!(diag_for(false, 1, 1, c(2, 3)), c(2, 3));
    assert_eq!(rank_ops(false, Trans::N), (Trans::N, Trans::T));
    assert_eq!(rank_ops(true, Trans::N), (Trans::N, Trans::C));
    assert_eq!(rank_ops(false, Trans::T), (Trans::T, Trans::N));
    assert_eq!(rank_ops(true, Trans::C), (Trans::C, Trans::N));
}

#[test]
fn operators_of_the_classic_rank_k_interface() {
    // Symmetric update of real matrices: every operator.
    for trans in ALL_TRANS {
        assert!(is_classic_operator(false, false, trans));
    }
    // Symmetric update of complex matrices: no conjugate transpose.
    assert!(is_classic_operator(false, true, Trans::N));
    assert!(is_classic_operator(false, true, Trans::T));
    assert!(!is_classic_operator(false, true, Trans::C));
    // Hermitian update: no plain transpose.
    assert!(is_classic_operator(true, true, Trans::N));
    assert!(!is_classic_operator(true, true, Trans::T));
    assert!(is_classic_operator(true, true, Trans::C));
}

#[test]
fn symmetric_update_reads_conjugate_transpose_as_transpose() {
    // a is the 1 by 1 matrix [i]: a^T * a = -1, a^H * a would be 1.
    let a = [c(0, 1)];
    for trans in [Trans::T, Trans::C] {
        let mut r = [c(0, 0)];
        assert_eq!(syrk(Uplo::U, trans, 1, 1, c(1, 0), &a, 1, c(0, 0), &mut r, 1), Ok(()));
        assert_eq!(r, [c(-1, 0)]);
        let mut h = [c(0, 0)];
        assert_eq!(herk(Uplo::U, trans, 1, 1, c(1, 0), &a, 1, c(0, 0), &mut h, 1), Ok(()));
        assert_eq!(h, [c(1, 0)]);
    }
}
