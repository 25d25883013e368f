use vstd::prelude::*;
use crate::error::ArgError;
use crate::layout::{
    and_then_check, check_matrix, full_at, full_index, full_region, full_written,
    lemma_full_region_column, lemma_full_region_end, lemma_full_region_read,
    lemma_full_region_start, lemma_full_region_write, lemma_full_written_empty, matrix_check,
};
use crate::scalar::{conj_for, diag_for, herm_conj, herm_diag, herm_scalar, scalar_for, Scalar};
use crate::selector::Uplo;
use crate::stride::{check_vector, slot, slot_index, vector_check};
use crate::triangle::{
    check_tri, is_stored, lemma_tri_progress_column, lemma_tri_progress_end,
    lemma_tri_progress_start, lemma_tri_progress_step, lemma_tri_written_empty, tri_at, tri_check,
    tri_index, tri_progress, tri_written, Store,
};

verus! {

/// What the validation of a general rank-1 update returns. A matrix with no
/// row or no column is accepted as it is. Otherwise `x`, `y` and the matrix
/// are validated in this order.
pub open spec fn ger_check(
    m: int,
    n: int,
    x_len: int,
    incx: int,
    y_len: int,
    incy: int,
    a_len: int,
    lda: int,
) -> Result<(), ArgError> {
    if m == 0 || n == 0 {
        Ok(())
    } else {
        and_then_check(
            vector_check(x_len, m, incx),
            and_then_check(vector_check(y_len, n, incy), matrix_check(a_len, m, n, lda)),
        )
    }
}

/// Validates the arguments of a general rank-1 update.
pub fn check_ger(
    m: usize,
    n: usize,
    x_len: usize,
    incx: isize,
    y_len: usize,
    incy: isize,
    a_len: usize,
    lda: usize,
) -> (r: Result<(), ArgError>)
    ensures
        r == ger_check(
            m as int,
            n as int,
            x_len as int,
            incx as int,
            y_len as int,
            incy as int,
            a_len as int,
            lda as int,
        ),
{
    if m == 0 || n == 0 {
        return Ok(());
    }
    match check_vector(x_len, m, incx) {
        Err(e) => Err(e),
        Ok(()) => match check_vector(y_len, n, incy) {
            Err(e) => Err(e),
            Ok(()) => check_matrix(a_len, m, n, lda),
        },
    }
}

/// Row `i`, column `j` of `a + alpha * x * y^T`, with `y` conjugated where
/// `conj` is set, as a function of `i` and `j`.
pub open spec fn ger_elem<T: Scalar>(
    conj: bool,
    m: int,
    n: int,
    alpha: T,
    x: Seq<T>,
    incx: int,
    y: Seq<T>,
    incy: int,
    a: Seq<T>,
    lda: int,
) -> spec_fn(int, int) -> T {
    |i: int, j: int|
        a[full_at(lda, i, j)].plus_spec(
            x[slot(m, incx, i)].times_spec(
                alpha.times_spec(herm_conj(conj, y[slot(n, incy, j)])),
            ),
        )
}

/// The buffer of `a` after a general rank-1 update.
pub open spec fn ger_result<T: Scalar>(
    conj: bool,
    m: int,
    n: int,
    alpha: T,
    x: Seq<T>,
    incx: int,
    y: Seq<T>,
    incy: int,
    a: Seq<T>,
    lda: int,
) -> Seq<T> {
    full_written(a, m, n, lda, ger_elem(conj, m, n, alpha, x, incx, y, incy, a, lda))
}

/// General rank-1 update: `a` becomes `a + alpha * x * y^T`, with `y`
/// conjugated where `conj` is set. `a` is `m` by `n`.
#[verifier::loop_isolation(false)]
pub fn rank1_update<T: Scalar>(
    conj: bool,
    m: usize,
    n: usize,
    alpha: T,
    x: &[T],
    incx: isize,
    y: &[T],
    incy: isize,
    a: &mut [T],
    lda: usize,
) -> (r: Result<(), ArgError>)
    ensures
        r == ger_check(
            m as int,
            n as int,
            x@.len() as int,
            incx as int,
            y@.len() as int,
            incy as int,
            old(a)@.len() as int,
            lda as int,
        ),
        r is Err ==> final(a)@ == old(a)@,
        r is Ok ==> final(a)@ == ger_result(
            conj,
            m as int,
            n as int,
            alpha,
            x@,
            incx as int,
            y@,
            incy as int,
            old(a)@,
            lda as int,
        ),
{
    let ghost val = ger_elem(
        conj,
        m as int,
        n as int,
        alpha,
        x@,
        incx as int,
        y@,
        incy as int,
        a@,
        lda as int,
    );
    if m == 0 || n == 0 {
        proof {
            lemma_full_written_empty(a@, m as int, n as int, lda as int, val);
        }
        return Ok(());
    }
    match check_ger(m, n, x.len(), incx, y.len(), incy, a.len(), lda) {
        Err(e) => {
            return Err(e);
        },
        Ok(()) => {},
    }
    proof {
        lemma_full_region_start(a@, m as int, n as int, lda as int, val, 0, 0, 0);
    }
    let mut j: usize = 0;
    while j < n
        invariant
            0 <= j <= n,
            a@.len() == old(a)@.len(),
            a@ == full_region(old(a)@, m as int, n as int, lda as int, val, 0, j as int, j as int, 0, 0),
        decreases n - j,
    {
        let py: usize = slot_index(n, incy, j);
        let temp: T = alpha.times(conj_for(conj, y[py]));
        let mut i: usize = 0;
        while i < m
            invariant
                0 <= i <= m,
                a@.len() == old(a)@.len(),
                a@ == full_region(
                    old(a)@,
                    m as int,
                    n as int,
                    lda as int,
                    val,
                    0,
                    j as int,
                    j as int,
                    0,
                    i as int,
                ),
            decreases m - i,
        {
            let px: usize = slot_index(m, incx, i);
            let p0: usize = full_index(m, n, lda, i, j);
            proof {
                lemma_full_region_read(
                    old(a)@,
                    m as int,
                    n as int,
                    lda as int,
                    val,
                    0,
                    j as int,
                    j as int,
                    0,
                    i as int,
                    i as int,
                    j as int,
                );
                lemma_full_region_write(
                    old(a)@,
                    m as int,
                    n as int,
                    lda as int,
                    val,
                    0,
                    j as int,
                    j as int,
                    0,
                    i as int,
                    i as int,
                );
            }
            let v: T = a[p0].plus(x[px].times(temp));
            a[p0] = v;
            i += 1;
        }
        proof {
            lemma_full_region_column(
                old(a)@,
                m as int,
                n as int,
                lda as int,
                val,
                0,
                j as int,
                j as int,
                j + 1,
                0,
            );
        }
        j += 1;
    }
    proof {
        lemma_full_region_end(old(a)@, m as int, n as int, lda as int, val, n as int, 0);
    }
    Ok(())
}

/// What the validation of a symmetric rank-1 update returns. A matrix of
/// order zero is accepted as it is. Otherwise `x` and the matrix are
/// validated in this order.
pub open spec fn syr_check(
    store: Store,
    n: int,
    x_len: int,
    incx: int,
    a_len: int,
    lda: int,
) -> Result<(), ArgError> {
    if n == 0 {
        Ok(())
    } else {
        and_then_check(vector_check(x_len, n, incx), tri_check(a_len, store, n, lda))
    }
}

/// What the validation of a symmetric rank-2 update returns. A matrix of
/// order zero is accepted as it is. Otherwise `x`, `y` and the matrix are
/// validated in this order.
pub open spec fn syr2_check(
    store: Store,
    n: int,
    x_len: int,
    incx: int,
    y_len: int,
    incy: int,
    a_len: int,
    lda: int,
) -> Result<(), ArgError> {
    if n == 0 {
        Ok(())
    } else {
        and_then_check(
            vector_check(x_len, n, incx),
            and_then_check(vector_check(y_len, n, incy), tri_check(a_len, store, n, lda)),
        )
    }
}

/// Validates the arguments of a symmetric rank-1 update.
pub fn check_syr(
    store: Store,
    n: usize,
    x_len: usize,
    incx: isize,
    a_len: usize,
    lda: usize,
) -> (r: Result<(), ArgError>)
    ensures
        r == syr_check(store, n as int, x_len as int, incx as int, a_len as int, lda as int),
{
    if n == 0 {
        return Ok(());
    }
    match check_vector(x_len, n, incx) {
        Err(e) => Err(e),
        Ok(()) => check_tri(a_len, store, n, lda),
    }
}

/// Validates the arguments of a symmetric rank-2 update.
pub fn check_syr2(
    store: Store,
    n: usize,
    x_len: usize,
    incx: isize,
    y_len: usize,
    incy: isize,
    a_len: usize,
    lda: usize,
) -> (r: Result<(), ArgError>)
    ensures
        r == syr2_check(
            store,
            n as int,
            x_len as int,
            incx as int,
            y_len as int,
            incy as int,
            a_len as int,
            lda as int,
        ),
{
    if n == 0 {
        return Ok(());
    }
    match check_vector(x_len, n, incx) {
        Err(e) => Err(e),
        Ok(()) => match check_vector(y_len, n, incy) {
            Err(e) => Err(e),
            Ok(()) => check_tri(a_len, store, n, lda),
        },
    }
}

/// Row `i`, column `j` of `a + alpha * x * x^T`, as a function of `i` and
/// `j`. A Hermitian update conjugates the second `x`, takes the real part of
/// `alpha`, and keeps the diagonal real.
pub open spec fn syr_elem<T: Scalar>(
    herm: bool,
    store: Store,
    uplo: Uplo,
    n: int,
    alpha: T,
    x: Seq<T>,
    incx: int,
    a: Seq<T>,
    lda: int,
) -> spec_fn(int, int) -> T {
    |i: int, j: int|
        herm_diag(herm, i, j, a[tri_at(store, uplo, n, lda, i, j)]).plus_spec(
            herm_diag(
                herm,
                i,
                j,
                x[slot(n, incx, i)].times_spec(
                    herm_scalar(herm, alpha).times_spec(herm_conj(herm, x[slot(n, incx, j)])),
                ),
            ),
        )
}

/// Row `i`, column `j` of `a + alpha * x * y^T + alpha * y * x^T`, as a
/// function of `i` and `j`. A Hermitian update conjugates the second factor
/// of each product, the second `alpha` with it, and keeps the diagonal real.
pub open spec fn syr2_elem<T: Scalar>(
    herm: bool,
    store: Store,
    uplo: Uplo,
    n: int,
    alpha: T,
    x: Seq<T>,
    incx: int,
    y: Seq<T>,
    incy: int,
    a: Seq<T>,
    lda: int,
) -> spec_fn(int, int) -> T {
    |i: int, j: int|
        herm_diag(herm, i, j, a[tri_at(store, uplo, n, lda, i, j)]).plus_spec(
            herm_diag(
                herm,
                i,
                j,
                x[slot(n, incx, i)].times_spec(
                    alpha.times_spec(herm_conj(herm, y[slot(n, incy, j)])),
                ).plus_spec(
                    y[slot(n, incy, i)].times_spec(
                        herm_conj(herm, alpha.times_spec(x[slot(n, incx, j)])),
                    ),
                ),
            ),
        )
}

/// The buffer of the matrix after a symmetric rank-1 update: the stored
/// elements of the `uplo` triangle are replaced, every other slot keeps its
/// value.
pub open spec fn syr_result<T: Scalar>(
    herm: bool,
    store: Store,
    uplo: Uplo,
    n: int,
    alpha: T,
    x: Seq<T>,
    incx: int,
    a: Seq<T>,
    lda: int,
) -> Seq<T> {
    tri_written(a, store, uplo, n, lda, syr_elem(herm, store, uplo, n, alpha, x, incx, a, lda))
}

/// The buffer of the matrix after a symmetric rank-2 update: the stored
/// elements of the `uplo` triangle are replaced, every other slot keeps its
/// value.
pub open spec fn syr2_result<T: Scalar>(
    herm: bool,
    store: Store,
    uplo: Uplo,
    n: int,
    alpha: T,
    x: Seq<T>,
    incx: int,
    y: Seq<T>,
    incy: int,
    a: Seq<T>,
    lda: int,
) -> Seq<T> {
    tri_written(
        a,
        store,
        uplo,
        n,
        lda,
        syr2_elem(herm, store, uplo, n, alpha, x, incx, y, incy, a, lda),
    )
}

/// Symmetric or Hermitian rank-1 update of a stored triangle, in any store.
#[verifier::loop_isolation(false)]
pub fn symmetric_rank1<T: Scalar>(
    herm: bool,
    store: Store,
    uplo: Uplo,
    n: usize,
    alpha: T,
    x: &[T],
    incx: isize,
    a: &mut [T],
    lda: usize,
) -> (r: Result<(), ArgError>)
    ensures
        r == syr_check(
            store,
            n as int,
            x@.len() as int,
            incx as int,
            old(a)@.len() as int,
            lda as int,
        ),
        r is Err ==> final(a)@ == old(a)@,
        r is Ok ==> final(a)@ == syr_result(
            herm,
            store,
            uplo,
            n as int,
            alpha,
            x@,
            incx as int,
            old(a)@,
            lda as int,
        ),
{
    let ghost val = syr_elem(herm, store, uplo, n as int, alpha, x@, incx as int, a@, lda as int);
    if n == 0 {
        proof {
            lemma_tri_written_empty(a@, store, uplo, n as int, lda as int, val);
        }
        return Ok(());
    }
    match check_syr(store, n, x.len(), incx, a.len(), lda) {
        Err(e) => {
            return Err(e);
        },
        Ok(()) => {},
    }
    let scale: T = scalar_for(herm, alpha);
    proof {
        lemma_tri_progress_start(a@, store, uplo, n as int, lda as int, val);
    }
    let mut j: usize = 0;
    while j < n
        invariant
            0 <= j <= n,
            a@.len() == old(a)@.len(),
            a@ == tri_progress(old(a)@, store, uplo, n as int, lda as int, val, 0, j as int),
        decreases n - j,
    {
        let pj: usize = slot_index(n, incx, j);
        let temp: T = scale.times(conj_for(herm, x[pj]));
        let mut i: usize = 0;
        while i < n
            invariant
                0 <= i <= n,
                a@.len() == old(a)@.len(),
                a@ == tri_progress(old(a)@, store, uplo, n as int, lda as int, val, i as int, j as int),
            decreases n - i,
        {
            proof {
                lemma_tri_progress_step(
                    old(a)@,
                    store,
                    uplo,
                    n as int,
                    lda as int,
                    val,
                    i as int,
                    j as int,
                );
            }
            if is_stored(store, uplo, i, j) {
                let pi: usize = slot_index(n, incx, i);
                let p0: usize = tri_index(store, uplo, n, lda, i, j);
                let before: T = diag_for(herm, i, j, a[p0]);
                let v: T = before.plus(diag_for(herm, i, j, x[pi].times(temp)));
                a[p0] = v;
            }
            i += 1;
        }
        proof {
            lemma_tri_progress_column(old(a)@, store, uplo, n as int, lda as int, val, j as int);
        }
        j += 1;
    }
    proof {
        lemma_tri_progress_end(old(a)@, store, uplo, n as int, lda as int, val);
    }
    Ok(())
}

/// Symmetric or Hermitian rank-2 update of a stored triangle, in any store.
#[verifier::loop_isolation(false)]
pub fn symmetric_rank2<T: Scalar>(
    herm: bool,
    store: Store,
    uplo: Uplo,
    n: usize,
    alpha: T,
    x: &[T],
    incx: isize,
    y: &[T],
    incy: isize,
    a: &mut [T],
    lda: usize,
) -> (r: Result<(), ArgError>)
    ensures
        r == syr2_check(
            store,
            n as int,
            x@.len() as int,
            incx as int,
            y@.len() as int,
            incy as int,
            old(a)@.len() as int,
            lda as int,
        ),
        r is Err ==> final(a)@ == old(a)@,
        r is Ok ==> final(a)@ == syr2_result(
            herm,
            store,
            uplo,
            n as int,
            alpha,
            x@,
            incx as int,
            y@,
            incy as int,
            old(a)@,
            lda as int,
        ),
{
    let ghost val = syr2_elem(
        herm,
        store,
        uplo,
        n as int,
        alpha,
        x@,
        incx as int,
        y@,
        incy as int,
        a@,
        lda as int,
    );
    if n == 0 {
        proof {
            lemma_tri_written_empty(a@, store, uplo, n as int, lda as int, val);
        }
        return Ok(());
    }
    match check_syr2(store, n, x.len(), incx, y.len(), incy, a.len(), lda) {
        Err(e) => {
            return Err(e);
        },
        Ok(()) => {},
    }
    proof {
        lemma_tri_progress_start(a@, store, uplo, n as int, lda as int, val);
    }
    let mut j: usize = 0;
    while j < n
        invariant
            0 <= j <= n,
            a@.len() == old(a)@.len(),
            a@ == tri_progress(old(a)@, store, uplo, n as int, lda as int, val, 0, j as int),
        decreases n - j,
    {
        let xj: usize = slot_index(n, incx, j);
        let yj: usize = slot_index(n, incy, j);
        let temp1: T = alpha.times(conj_for(herm, y[yj]));
        let temp2: T = conj_for(herm, alpha.times(x[xj]));
        let mut i: usize = 0;
        while i < n
            invariant
                0 <= i <= n,
                a@.len() == old(a)@.len(),
                a@ == tri_progress(old(a)@, store, uplo, n as int, lda as int, val, i as int, j as int),
            decreases n - i,
        {
            proof {
                lemma_tri_progress_step(
                    old(a)@,
                    store,
                    uplo,
                    n as int,
                    lda as int,
                    val,
                    i as int,
                    j as int,
                );
            }
            if is_stored(store, uplo, i, j) {
                let xi: usize = slot_index(n, incx, i);
                let yi: usize = slot_index(n, incy, i);
                let p0: usize = tri_index(store, uplo, n, lda, i, j);
                let before: T = diag_for(herm, i, j, a[p0]);
                let both: T = x[xi].times(temp1).plus(y[yi].times(temp2));
                let v: T = before.plus(diag_for(herm, i, j, both));
                a[p0] = v;
            }
            i += 1;
        }
        proof {
            lemma_tri_progress_column(old(a)@, store, uplo, n as int, lda as int, val, j as int);
        }
        j += 1;
    }
    proof {
        lemma_tri_progress_end(old(a)@, store, uplo, n as int, lda as int, val);
    }
    Ok(())
}

/// General rank-1 update: `a` becomes `a + alpha * x * y^T`.
pub fn geru<T: Scalar>(
    m: usize,
    n: usize,
    alpha: T,
    x: &[T],
    incx: isize,
    y: &[T],
    incy: isize,
    a: &mut [T],
    lda: usize,
) -> (r: Result<(), ArgError>)
    ensures
        r == ger_check(
            m as int,
            n as int,
            x@.len() as int,
            incx as int,
            y@.len() as int,
            incy as int,
            old(a)@.len() as int,
            lda as int,
        ),
        r is Err ==> final(a)@ == old(a)@,
        r is Ok ==> final(a)@ == ger_result(
            false,
            m as int,
            n as int,
            alpha,
            x@,
            incx as int,
            y@,
            incy as int,
            old(a)@,
            lda as int,
        ),
{
    rank1_update(false, m, n, alpha, x, incx, y, incy, a, lda)
}

/// General rank-1 update with the conjugate: `a` becomes
/// `a + alpha * x * y^H`.
pub fn gerc<T: Scalar>(
    m: usize,
    n: usize,
    alpha: T,
    x: &[T],
    incx: isize,
    y: &[T],
    incy: isize,
    a: &mut [T],
    lda: usize,
) -> (r: Result<(), ArgError>)
    ensures
        r == ger_check(
            m as int,
            n as int,
            x@.len() as int,
            incx as int,
            y@.len() as int,
            incy as int,
            old(a)@.len() as int,
            lda as int,
        ),
        r is Err ==> final(a)@ == old(a)@,
        r is Ok ==> final(a)@ == ger_result(
            true,
            m as int,
            n as int,
            alpha,
            x@,
            incx as int,
            y@,
            incy as int,
            old(a)@,
            lda as int,
        ),
{
    rank1_update(true, m, n, alpha, x, incx, y, incy, a, lda)
}

/// Symmetric rank-1 update: the `uplo` triangle of `a` becomes that of
/// `a + alpha * x * x^T`. The other triangle is neither read nor written.
pub fn syr<T: Scalar>(
    uplo: Uplo,
    n: usize,
    alpha: T,
    x: &[T],
    incx: isize,
    a: &mut [T],
    lda: usize,
) -> (r: Result<(), ArgError>)
    ensures
        r == syr_check(
            Store::Full,
            n as int,
            x@.len() as int,
            incx as int,
            old(a)@.len() as int,
            lda as int,
        ),
        r is Err ==> final(a)@ == old(a)@,
        r is Ok ==> final(a)@ == syr_result(
            false,
            Store::Full,
            uplo,
            n as int,
            alpha,
            x@,
            incx as int,
            old(a)@,
            lda as int,
        ),
{
    symmetric_rank1(false, Store::Full, uplo, n, alpha, x, incx, a, lda)
}

/// Hermitian rank-1 update: the `uplo` triangle of `a` becomes that of
/// `a + alpha * x * x^H`, with real `alpha`. The other triangle is neither
/// read nor written.
pub fn her<T: Scalar>(
    uplo: Uplo,
    n: usize,
    alpha: T,
    x: &[T],
    incx: isize,
    a: &mut [T],
    lda: usize,
) -> (r: Result<(), ArgError>)
    ensures
        r == syr_check(
            Store::Full,
            n as int,
            x@.len() as int,
            incx as int,
            old(a)@.len() as int,
            lda as int,
        ),
        r is Err ==> final(a)@ == old(a)@,
        r is Ok ==> final(a)@ == syr_result(
            true,
            Store::Full,
            uplo,
            n as int,
            alpha,
            x@,
            incx as int,
            old(a)@,
            lda as int,
        ),
{
    symmetric_rank1(true, Store::Full, uplo, n, alpha, x, incx, a, lda)
}

/// Symmetric rank-1 update of a packed triangle: `ap` becomes
/// `ap + alpha * x * x^T`.
pub fn spr<T: Scalar>(
    uplo: Uplo,
    n: usize,
    alpha: T,
    x: &[T],
    incx: isize,
    ap: &mut [T],
) -> (r: Result<(), ArgError>)
    ensures
        r == syr_check(
            Store::Packed,
            n as int,
            x@.len() as int,
            incx as int,
            old(ap)@.len() as int,
            0usize as int,
        ),
        r is Err ==> final(ap)@ == old(ap)@,
        r is Ok ==> final(ap)@ == syr_result(
            false,
            Store::Packed,
            uplo,
            n as int,
            alpha,
            x@,
            incx as int,
            old(ap)@,
            0usize as int,
        ),
{
    symmetric_rank1(false, Store::Packed, uplo, n, alpha, x, incx, ap, 0usize)
}

/// Hermitian rank-1 update of a packed triangle: `ap` becomes
/// `ap + alpha * x * x^H`, with real `alpha`.
pub fn hpr<T: Scalar>(
    uplo: Uplo,
    n: usize,
    alpha: T,
    x: &[T],
    incx: isize,
    ap: &mut [T],
) -> (r: Result<(), ArgError>)
    ensures
        r == syr_check(
            Store::Packed,
            n as int,
            x@.len() as int,
            incx as int,
            old(ap)@.len() as int,
            0usize as int,
        ),
        r is Err ==> final(ap)@ == old(ap)@,
        r is Ok ==> final(ap)@ == syr_result(
            true,
            Store::Packed,
            uplo,
            n as int,
            alpha,
            x@,
            incx as int,
            old(ap)@,
            0usize as int,
        ),
{
    symmetric_rank1(true, Store::Packed, uplo, n, alpha, x, incx, ap, 0usize)
}

/// Symmetric rank-2 update: the `uplo` triangle of `a` becomes that of
/// `a + alpha * x * y^T + alpha * y * x^T`.
pub fn syr2<T: Scalar>(
    uplo: Uplo,
    n: usize,
    alpha: T,
    x: &[T],
    incx: isize,
    y: &[T],
    incy: isize,
    a: &mut [T],
    lda: usize,
) -> (r: Result<(), ArgError>)
    ensures
        r == syr2_check(
            Store::Full,
            n as int,
            x@.len() as int,
            incx as int,
            y@.len() as int,
            incy as int,
            old(a)@.len() as int,
            lda as int,
        ),
        r is Err ==> final(a)@ == old(a)@,
        r is Ok ==> final(a)@ == syr2_result(
            false,
            Store::Full,
            uplo,
            n as int,
            alpha,
            x@,
            incx as int,
            y@,
            incy as int,
            old(a)@,
            lda as int,
        ),
{
    symmetric_rank2(false, Store::Full, uplo, n, alpha, x, incx, y, incy, a, lda)
}

/// Hermitian rank-2 update: the `uplo` triangle of `a` becomes that of
/// `a + alpha * x * y^H + conj(alpha) * y * x^H`.
pub fn her2<T: Scalar>(
    uplo: Uplo,
    n: usize,
    alpha: T,
    x: &[T],
    incx: isize,
    y: &[T],
    incy: isize,
    a: &mut [T],
    lda: usize,
) -> (r: Result<(), ArgError>)
    ensures
        r == syr2_check(
            Store::Full,
            n as int,
            x@.len() as int,
            incx as int,
            y@.len() as int,
            incy as int,
            old(a)@.len() as int,
            lda as int,
        ),
        r is Err ==> final(a)@ == old(a)@,
        r is Ok ==> final(a)@ == syr2_result(
            true,
            Store::Full,
            uplo,
            n as int,
            alpha,
            x@,
            incx as int,
            y@,
            incy as int,
            old(a)@,
            lda as int,
        ),
{
    symmetric_rank2(true, Store::Full, uplo, n, alpha, x, incx, y, incy, a, lda)
}

/// Symmetric rank-2 update of a packed triangle: `ap` becomes
/// `ap + alpha * x * y^T + alpha * y * x^T`.
pub fn spr2<T: Scalar>(
    uplo: Uplo,
    n: usize,
    alpha: T,
    x: &[T],
    incx: isize,
    y: &[T],
    incy: isize,
    ap: &mut [T],
) -> (r: Result<(), ArgError>)
    ensures
        r == syr2_check(
            Store::Packed,
            n as int,
            x@.len() as int,
            incx as int,
            y@.len() as int,
            incy as int,
            old(ap)@.len() as int,
            0usize as int,
        ),
        r is Err ==> final(ap)@ == old(ap)@,
        r is Ok ==> final(ap)@ == syr2_result(
            false,
            Store::Packed,
            uplo,
            n as int,
            alpha,
            x@,
            incx as int,
            y@,
            incy as int,
            old(ap)@,
            0usize as int,
        ),
{
    symmetric_rank2(false, Store::Packed, uplo, n, alpha, x, incx, y, incy, ap, 0usize)
}

/// Hermitian rank-2 update of a packed triangle: `ap` becomes
/// `ap + alpha * x * y^H + conj(alpha) * y * x^H`.
pub fn hpr2<T: Scalar>(
    uplo: Uplo,
    n: usize,
    alpha: T,
    x: &[T],
    incx: isize,
    y: &[T],
    incy: isize,
    ap: &mut [T],
) -> (r: Result<(), ArgError>)
    ensures
        r == syr2_check(
            Store::Packed,
            n as int,
            x@.len() as int,
            incx as int,
            y@.len() as int,
            incy as int,
            old(ap)@.len() as int,
            0usize as int,
        ),
        r is Err ==> final(ap)@ == old(ap)@,
        r is Ok ==> final(ap)@ == syr2_result(
            true,
            Store::Packed,
            uplo,
            n as int,
            alpha,
            x@,
            incx as int,
            y@,
            incy as int,
            old(ap)@,
            0usize as int,
        ),
{
    symmetric_rank2(true, Store::Packed, uplo, n, alpha, x, incx, y, incy, ap, 0usize)
}

} // verus!
