use vstd::prelude::*;
use crate::error::ArgError;
use crate::layout::{
    and_then_check, blend_spec, blend_sum, blend_sum_spec, check_matrix, full_at, matrix_check,
    product_sum, product_term, stored_cols, stored_rows,
};
use crate::scalar::{conj_for, diag_for, herm_conj, herm_diag, herm_scalar, scalar_for, Scalar};
use crate::selector::{Trans, Uplo};
use crate::sum::sum_range;
use crate::triangle::{
    lemma_tri_progress_column, lemma_tri_progress_end, lemma_tri_progress_start,
    lemma_tri_progress_step, lemma_tri_written_empty, tri_index, tri_progress, tri_written, Store,
};

verus! {

/// The operator on the left factor of a rank-k update: none for `a * a^T`,
/// the transpose, conjugated for a Hermitian update, for `a^T * a`. Only
/// whether `trans` flips is looked at: `T` and `C` are read alike, and it is
/// the kind of the update, not the selector, that decides on the conjugate.
pub open spec fn rank_left(herm: bool, trans: Trans) -> Trans {
    if !trans.flips() {
        Trans::N
    } else if herm {
        Trans::C
    } else {
        Trans::T
    }
}

/// The operator on the right factor of a rank-k update.
pub open spec fn rank_right(herm: bool, trans: Trans) -> Trans {
    if trans.flips() {
        Trans::N
    } else if herm {
        Trans::C
    } else {
        Trans::T
    }
}

/// Whether the operator is among those that the classic interface of the
/// rank-k updates knows: a symmetric update of real matrices knows all three
/// and reads the conjugate transpose as the transpose, a symmetric update of
/// complex matrices knows no conjugate transpose, and a Hermitian update
/// knows no plain transpose. The kernels of this library take every
/// operator; a caller that hands its arguments on to a routine of the classic
/// interface asks this first.
pub open spec fn classic_operator(herm: bool, complex: bool, trans: Trans) -> bool {
    match trans {
        Trans::N => true,
        Trans::T => !herm,
        Trans::C => herm || !complex,
    }
}

/// Tells whether the operator is among those that the classic interface of
/// the rank-k updates knows.
pub fn is_classic_operator(herm: bool, complex: bool, trans: Trans) -> (b: bool)
    ensures
        b == classic_operator(herm, complex, trans),
{
    match trans {
        Trans::N => true,
        Trans::T => !herm,
        Trans::C => herm || !complex,
    }
}

/// What the validation of a rank-k update returns. A matrix of order zero is
/// accepted as it is. Otherwise `a` and `c` are validated in this order.
pub open spec fn syrk_check(
    trans: Trans,
    n: int,
    k: int,
    a_len: int,
    lda: int,
    c_len: int,
    ldc: int,
) -> Result<(), ArgError> {
    if n == 0 {
        Ok(())
    } else {
        and_then_check(
            matrix_check(a_len, stored_rows(trans, n, k), stored_cols(trans, n, k), lda),
            matrix_check(c_len, n, n, ldc),
        )
    }
}

/// What the validation of a rank-2k update returns. A matrix of order zero
/// is accepted as it is. Otherwise `a`, `b` and `c` are validated in this
/// order.
pub open spec fn syr2k_check(
    trans: Trans,
    n: int,
    k: int,
    a_len: int,
    lda: int,
    b_len: int,
    ldb: int,
    c_len: int,
    ldc: int,
) -> Result<(), ArgError> {
    if n == 0 {
        Ok(())
    } else {
        and_then_check(
            matrix_check(a_len, stored_rows(trans, n, k), stored_cols(trans, n, k), lda),
            and_then_check(
                matrix_check(b_len, stored_rows(trans, n, k), stored_cols(trans, n, k), ldb),
                matrix_check(c_len, n, n, ldc),
            ),
        )
    }
}

/// Row `i`, column `j` of `alpha * a * a^T + beta * c`, or with a flipping
/// `trans` of `alpha * a^T * a + beta * c`, as a function of `i` and `j`. A
/// Hermitian update conjugates the transposed factor, takes the real parts of
/// `alpha` and `beta`, and keeps the diagonal real.
pub open spec fn syrk_elem<T: Scalar>(
    herm: bool,
    trans: Trans,
    k: int,
    alpha: T,
    a: Seq<T>,
    lda: int,
    beta: T,
    c: Seq<T>,
    ldc: int,
) -> spec_fn(int, int) -> T {
    |i: int, j: int|
        herm_diag(
            herm,
            i,
            j,
            blend_spec(
                herm_scalar(herm, alpha),
                sum_range(
                    product_term(rank_left(herm, trans), rank_right(herm, trans), a, lda, a, lda, i, j),
                    0,
                    k,
                ),
                herm_scalar(herm, beta),
                herm_diag(herm, i, j, c[full_at(ldc, i, j)]),
            ),
        )
}

/// Row `i`, column `j` of `alpha * a * b^T + alpha * b * a^T + beta * c`, or
/// with a flipping `trans` of `alpha * a^T * b + alpha * b^T * a + beta * c`,
/// as a function of `i` and `j`. A Hermitian update conjugates the transposed
/// factors and the second `alpha`, takes the real part of `beta`, and keeps
/// the diagonal real.
pub open spec fn syr2k_elem<T: Scalar>(
    herm: bool,
    trans: Trans,
    k: int,
    alpha: T,
    a: Seq<T>,
    lda: int,
    b: Seq<T>,
    ldb: int,
    beta: T,
    c: Seq<T>,
    ldc: int,
) -> spec_fn(int, int) -> T {
    |i: int, j: int|
        herm_diag(
            herm,
            i,
            j,
            blend_sum_spec(
                alpha.times_spec(
                    sum_range(
                        product_term(
                            rank_left(herm, trans),
                            rank_right(herm, trans),
                            a,
                            lda,
                            b,
                            ldb,
                            i,
                            j,
                        ),
                        0,
                        k,
                    ),
                ).plus_spec(
                    herm_conj(herm, alpha).times_spec(
                        sum_range(
                            product_term(
                                rank_left(herm, trans),
                                rank_right(herm, trans),
                                b,
                                ldb,
                                a,
                                lda,
                                i,
                                j,
                            ),
                            0,
                            k,
                        ),
                    ),
                ),
                herm_scalar(herm, beta),
                herm_diag(herm, i, j, c[full_at(ldc, i, j)]),
            ),
        )
}

/// The buffer of `c` after a rank-k update: the elements of the `uplo`
/// triangle are replaced, every other slot keeps its value.
pub open spec fn syrk_result<T: Scalar>(
    herm: bool,
    uplo: Uplo,
    trans: Trans,
    n: int,
    k: int,
    alpha: T,
    a: Seq<T>,
    lda: int,
    beta: T,
    c: Seq<T>,
    ldc: int,
) -> Seq<T> {
    tri_written(
        c,
        Store::Full,
        uplo,
        n,
        ldc,
        syrk_elem(herm, trans, k, alpha, a, lda, beta, c, ldc),
    )
}

/// The buffer of `c` after a rank-2k update: the elements of the `uplo`
/// triangle are replaced, every other slot keeps its value.
pub open spec fn syr2k_result<T: Scalar>(
    herm: bool,
    uplo: Uplo,
    trans: Trans,
    n: int,
    k: int,
    alpha: T,
    a: Seq<T>,
    lda: int,
    b: Seq<T>,
    ldb: int,
    beta: T,
    c: Seq<T>,
    ldc: int,
) -> Seq<T> {
    tri_written(
        c,
        Store::Full,
        uplo,
        n,
        ldc,
        syr2k_elem(herm, trans, k, alpha, a, lda, b, ldb, beta, c, ldc),
    )
}

/// The operators on the two factors of a rank-k update.
pub fn rank_ops(herm: bool, trans: Trans) -> (ops: (Trans, Trans))
    ensures
        ops.0 == rank_left(herm, trans),
        ops.1 == rank_right(herm, trans),
{
    let turned: Trans = if herm {
        Trans::C
    } else {
        Trans::T
    };
    if trans.is_flipped() {
        (turned, Trans::N)
    } else {
        (Trans::N, turned)
    }
}

/// Validates the arguments of a rank-k update.
pub fn check_syrk(
    trans: Trans,
    n: usize,
    k: usize,
    a_len: usize,
    lda: usize,
    c_len: usize,
    ldc: usize,
) -> (r: Result<(), ArgError>)
    ensures
        r == syrk_check(
            trans,
            n as int,
            k as int,
            a_len as int,
            lda as int,
            c_len as int,
            ldc as int,
        ),
{
    if n == 0 {
        return Ok(());
    }
    let flip: bool = trans.is_flipped();
    match check_matrix(a_len, if flip { k } else { n }, if flip { n } else { k }, lda) {
        Err(e) => Err(e),
        Ok(()) => check_matrix(c_len, n, n, ldc),
    }
}

/// Validates the arguments of a rank-2k update.
pub fn check_syr2k(
    trans: Trans,
    n: usize,
    k: usize,
    a_len: usize,
    lda: usize,
    b_len: usize,
    ldb: usize,
    c_len: usize,
    ldc: usize,
) -> (r: Result<(), ArgError>)
    ensures
        r == syr2k_check(
            trans,
            n as int,
            k as int,
            a_len as int,
            lda as int,
            b_len as int,
            ldb as int,
            c_len as int,
            ldc as int,
        ),
{
    if n == 0 {
        return Ok(());
    }
    let flip: bool = trans.is_flipped();
    let rows: usize = if flip { k } else { n };
    let cols: usize = if flip { n } else { k };
    match check_matrix(a_len, rows, cols, lda) {
        Err(e) => Err(e),
        Ok(()) => match check_matrix(b_len, rows, cols, ldb) {
            Err(e) => Err(e),
            Ok(()) => check_matrix(c_len, n, n, ldc),
        },
    }
}

/// Symmetric or Hermitian rank-k update of the `uplo` triangle of `c`.
#[verifier::loop_isolation(false)]
pub fn rank_k_update<T: Scalar>(
    herm: bool,
    uplo: Uplo,
    trans: Trans,
    n: usize,
    k: usize,
    alpha: T,
    a: &[T],
    lda: usize,
    beta: T,
    c: &mut [T],
    ldc: usize,
) -> (r: Result<(), ArgError>)
    ensures
        r == syrk_check(
            trans,
            n as int,
            k as int,
            a@.len() as int,
            lda as int,
            old(c)@.len() as int,
            ldc as int,
        ),
        r is Err ==> final(c)@ == old(c)@,
        r is Ok ==> final(c)@ == syrk_result(
            herm,
            uplo,
            trans,
            n as int,
            k as int,
            alpha,
            a@,
            lda as int,
            beta,
            old(c)@,
            ldc as int,
        ),
{
    let ghost val = syrk_elem(herm, trans, k as int, alpha, a@, lda as int, beta, c@, ldc as int);
    if n == 0 {
        proof {
            lemma_tri_written_empty(c@, Store::Full, uplo, n as int, ldc as int, val);
        }
        return Ok(());
    }
    match check_syrk(trans, n, k, a.len(), lda, c.len(), ldc) {
        Err(e) => {
            return Err(e);
        },
        Ok(()) => {},
    }
    let ops: (Trans, Trans) = rank_ops(herm, trans);
    let scale: T = scalar_for(herm, alpha);
    let keep: T = scalar_for(herm, beta);
    proof {
        lemma_tri_progress_start(c@, Store::Full, uplo, n as int, ldc as int, val);
    }
    let mut j: usize = 0;
    while j < n
        invariant
            0 <= j <= n,
            c@.len() == old(c)@.len(),
            c@ == tri_progress(old(c)@, Store::Full, uplo, n as int, ldc as int, val, 0, j as int),
        decreases n - j,
    {
        let mut i: usize = 0;
        while i < n
            invariant
                0 <= i <= n,
                c@.len() == old(c)@.len(),
                c@ == tri_progress(
                    old(c)@,
                    Store::Full,
                    uplo,
                    n as int,
                    ldc as int,
                    val,
                    i as int,
                    j as int,
                ),
            decreases n - i,
        {
            proof {
                lemma_tri_progress_step(
                    old(c)@,
                    Store::Full,
                    uplo,
                    n as int,
                    ldc as int,
                    val,
                    i as int,
                    j as int,
                );
            }
            if uplo.contains(i, j) {
                let acc: T = product_sum(ops.0, ops.1, n, n, k, a, lda, a, lda, i, j);
                let p0: usize = tri_index(Store::Full, uplo, n, ldc, i, j);
                let before: T = diag_for(herm, i, j, c[p0]);
                let v: T = diag_for(herm, i, j, blend_sum(scale.times(acc), keep, before));
                c[p0] = v;
            }
            i += 1;
        }
        proof {
            lemma_tri_progress_column(old(c)@, Store::Full, uplo, n as int, ldc as int, val, j as int);
        }
        j += 1;
    }
    proof {
        lemma_tri_progress_end(old(c)@, Store::Full, uplo, n as int, ldc as int, val);
    }
    Ok(())
}

/// Symmetric or Hermitian rank-2k update of the `uplo` triangle of `c`.
#[verifier::loop_isolation(false)]
pub fn rank_2k_update<T: Scalar>(
    herm: bool,
    uplo: Uplo,
    trans: Trans,
    n: usize,
    k: usize,
    alpha: T,
    a: &[T],
    lda: usize,
    b: &[T],
    ldb: usize,
    beta: T,
    c: &mut [T],
    ldc: usize,
) -> (r: Result<(), ArgError>)
    ensures
        r == syr2k_check(
            trans,
            n as int,
            k as int,
            a@.len() as int,
            lda as int,
            b@.len() as int,
            ldb as int,
            old(c)@.len() as int,
            ldc as int,
        ),
        r is Err ==> final(c)@ == old(c)@,
        r is Ok ==> final(c)@ == syr2k_result(
            herm,
            uplo,
            trans,
            n as int,
            k as int,
            alpha,
            a@,
            lda as int,
            b@,
            ldb as int,
            beta,
            old(c)@,
            ldc as int,
        ),
{
    let ghost val = syr2k_elem(
        herm,
        trans,
        k as int,
        alpha,
        a@,
        lda as int,
        b@,
        ldb as int,
        beta,
        c@,
        ldc as int,
    );
    if n == 0 {
        proof {
            lemma_tri_written_empty(c@, Store::Full, uplo, n as int, ldc as int, val);
        }
        return Ok(());
    }
    match check_syr2k(trans, n, k, a.len(), lda, b.len(), ldb, c.len(), ldc) {
        Err(e) => {
            return Err(e);
        },
        Ok(()) => {},
    }
    let ops: (Trans, Trans) = rank_ops(herm, trans);
    let second: T = conj_for(herm, alpha);
    let keep: T = scalar_for(herm, beta);
    proof {
        lemma_tri_progress_start(c@, Store::Full, uplo, n as int, ldc as int, val);
    }
    let mut j: usize = 0;
    while j < n
        invariant
            0 <= j <= n,
            c@.len() == old(c)@.len(),
            c@ == tri_progress(old(c)@, Store::Full, uplo, n as int, ldc as int, val, 0, j as int),
        decreases n - j,
    {
        let mut i: usize = 0;
        while i < n
            invariant
                0 <= i <= n,
                c@.len() == old(c)@.len(),
                c@ == tri_progress(
                    old(c)@,
                    Store::Full,
                    uplo,
                    n as int,
                    ldc as int,
                    val,
                    i as int,
                    j as int,
                ),
            decreases n - i,
        {
            proof {
                lemma_tri_progress_step(
                    old(c)@,
                    Store::Full,
                    uplo,
                    n as int,
                    ldc as int,
                    val,
                    i as int,
                    j as int,
                );
            }
            if uplo.contains(i, j) {
                let ab: T = product_sum(ops.0, ops.1, n, n, k, a, lda, b, ldb, i, j);
                let ba: T = product_sum(ops.0, ops.1, n, n, k, b, ldb, a, lda, i, j);
                let p0: usize = tri_index(Store::Full, uplo, n, ldc, i, j);
                let before: T = diag_for(herm, i, j, c[p0]);
                let t: T = alpha.times(ab).plus(second.times(ba));
                let v: T = diag_for(herm, i, j, blend_sum(t, keep, before));
                c[p0] = v;
            }
            i += 1;
        }
        proof {
            lemma_tri_progress_column(old(c)@, Store::Full, uplo, n as int, ldc as int, val, j as int);
        }
        j += 1;
    }
    proof {
        lemma_tri_progress_end(old(c)@, Store::Full, uplo, n as int, ldc as int, val);
    }
    Ok(())
}

/// Symmetric rank-k update: the `uplo` triangle of `c` becomes that of
/// `alpha * a * a^T + beta * c` where `trans` is `N`, and of
/// `alpha * a^T * a + beta * c` where it is `T` or `C`: both are read as the
/// plain transpose, and no element is conjugated. The other triangle of `c`
/// is neither read nor written.
pub fn syrk<T: Scalar>(
    uplo: Uplo,
    trans: Trans,
    n: usize,
    k: usize,
    alpha: T,
    a: &[T],
    lda: usize,
    beta: T,
    c: &mut [T],
    ldc: usize,
) -> (r: Result<(), ArgError>)
    ensures
        r == syrk_check(
            trans,
            n as int,
            k as int,
            a@.len() as int,
            lda as int,
            old(c)@.len() as int,
            ldc as int,
        ),
        r is Err ==> final(c)@ == old(c)@,
        r is Ok ==> final(c)@ == syrk_result(
            false,
            uplo,
            trans,
            n as int,
            k as int,
            alpha,
            a@,
            lda as int,
            beta,
            old(c)@,
            ldc as int,
        ),
{
    rank_k_update(false, uplo, trans, n, k, alpha, a, lda, beta, c, ldc)
}

/// Hermitian rank-k update: the `uplo` triangle of `c` becomes that of
/// `alpha * a * a^H + beta * c` where `trans` is `N`, and of
/// `alpha * a^H * a + beta * c` where it is `C` or `T`: both are read as the
/// conjugate transpose. Of `alpha` and `beta` the real parts are taken. The
/// other triangle of `c` is neither read nor written.
pub fn herk<T: Scalar>(
    uplo: Uplo,
    trans: Trans,
    n: usize,
    k: usize,
    alpha: T,
    a: &[T],
    lda: usize,
    beta: T,
    c: &mut [T],
    ldc: usize,
) -> (r: Result<(), ArgError>)
    ensures
        r == syrk_check(
            trans,
            n as int,
            k as int,
            a@.len() as int,
            lda as int,
            old(c)@.len() as int,
            ldc as int,
        ),
        r is Err ==> final(c)@ == old(c)@,
        r is Ok ==> final(c)@ == syrk_result(
            true,
            uplo,
            trans,
            n as int,
            k as int,
            alpha,
            a@,
            lda as int,
            beta,
            old(c)@,
            ldc as int,
        ),
{
    rank_k_update(true, uplo, trans, n, k, alpha, a, lda, beta, c, ldc)
}

/// Symmetric rank-2k update: the `uplo` triangle of `c` becomes that of
/// `alpha * a * b^T + alpha * b * a^T + beta * c` where `trans` is `N`, and
/// of `alpha * a^T * b + alpha * b^T * a + beta * c` where it is `T` or `C`:
/// both are read as the plain transpose, and no element is conjugated.
pub fn syr2k<T: Scalar>(
    uplo: Uplo,
    trans: Trans,
    n: usize,
    k: usize,
    alpha: T,
    a: &[T],
    lda: usize,
    b: &[T],
    ldb: usize,
    beta: T,
    c: &mut [T],
    ldc: usize,
) -> (r: Result<(), ArgError>)
    ensures
        r == syr2k_check(
            trans,
            n as int,
            k as int,
            a@.len() as int,
            lda as int,
            b@.len() as int,
            ldb as int,
            old(c)@.len() as int,
            ldc as int,
        ),
        r is Err ==> final(c)@ == old(c)@,
        r is Ok ==> final(c)@ == syr2k_result(
            false,
            uplo,
            trans,
            n as int,
            k as int,
            alpha,
            a@,
            lda as int,
            b@,
            ldb as int,
            beta,
            old(c)@,
            ldc as int,
        ),
{
    rank_2k_update(false, uplo, trans, n, k, alpha, a, lda, b, ldb, beta, c, ldc)
}

/// Hermitian rank-2k update: the `uplo` triangle of `c` becomes that of
/// `alpha * a * b^H + conj(alpha) * b * a^H + beta * c` where `trans` is `N`,
/// and of `alpha * a^H * b + conj(alpha) * b^H * a + beta * c` where it is
/// `C` or `T`: both are read as the conjugate transpose. Of `beta` the real
/// part is taken.
pub fn her2k<T: Scalar>(
    uplo: Uplo,
    trans: Trans,
    n: usize,
    k: usize,
    alpha: T,
    a: &[T],
    lda: usize,
    b: &[T],
    ldb: usize,
    beta: T,
    c: &mut [T],
    ldc: usize,
) -> (r: Result<(), ArgError>)
    ensures
        r == syr2k_check(
            trans,
            n as int,
            k as int,
            a@.len() as int,
            lda as int,
            b@.len() as int,
            ldb as int,
            old(c)@.len() as int,
            ldc as int,
        ),
        r is Err ==> final(c)@ == old(c)@,
        r is Ok ==> final(c)@ == syr2k_result(
            true,
            uplo,
            trans,
            n as int,
            k as int,
            alpha,
            a@,
            lda as int,
            b@,
            ldb as int,
            beta,
            old(c)@,
            ldc as int,
        ),
{
    rank_2k_update(true, uplo, trans, n, k, alpha, a, lda, b, ldb, beta, c, ldc)
}

} // verus!
