use vstd::prelude::*;
use crate::error::ArgError;
use crate::layout::{and_then_check, blend_spec, blend_sum};
use crate::scalar::Scalar;
use crate::selector::Uplo;
use crate::stride::{
    check_vector, lemma_vec_progress_end, lemma_vec_progress_start, lemma_vec_progress_step, slot,
    slot_index, vec_progress, vec_written, vector_check,
};
use crate::sum::sum_range;
use crate::triangle::{
    check_tri, row_end, row_first, row_hi, row_lo, sym_at, sym_get, tri_check, Store,
};

verus! {

/// What the validation of a symmetric matrix-vector product returns. A
/// matrix of order zero is accepted as it is. Otherwise the matrix, `x` and
/// `y` are validated in this order.
pub open spec fn symv_check(
    store: Store,
    n: int,
    a_len: int,
    lda: int,
    x_len: int,
    incx: int,
    y_len: int,
    incy: int,
) -> Result<(), ArgError> {
    if n == 0 {
        Ok(())
    } else {
        and_then_check(
            tri_check(a_len, store, n, lda),
            and_then_check(vector_check(x_len, n, incx), vector_check(y_len, n, incy)),
        )
    }
}

/// The products that are summed for element `i` of `a * x`.
pub open spec fn symv_term<T: Scalar>(
    herm: bool,
    store: Store,
    uplo: Uplo,
    n: int,
    a: Seq<T>,
    lda: int,
    x: Seq<T>,
    incx: int,
    i: int,
) -> spec_fn(int) -> T {
    |j: int| sym_at(herm, store, uplo, n, a, lda, i, j).times_spec(x[slot(n, incx, j)])
}

/// Element `i` of `alpha * a * x + beta * y`, as a function of `i`, for the
/// symmetric or Hermitian matrix `a` of which one triangle is stored.
pub open spec fn symv_elem<T: Scalar>(
    herm: bool,
    store: Store,
    uplo: Uplo,
    n: int,
    alpha: T,
    a: Seq<T>,
    lda: int,
    x: Seq<T>,
    incx: int,
    beta: T,
    y: Seq<T>,
    incy: int,
) -> spec_fn(int) -> T {
    |i: int|
        blend_spec(
            alpha,
            sum_range(
                symv_term(herm, store, uplo, n, a, lda, x, incx, i),
                row_lo(store, i),
                row_hi(store, n, i),
            ),
            beta,
            y[slot(n, incy, i)],
        )
}

/// The buffer of `y` after the product.
pub open spec fn symv_result<T: Scalar>(
    herm: bool,
    store: Store,
    uplo: Uplo,
    n: int,
    alpha: T,
    a: Seq<T>,
    lda: int,
    x: Seq<T>,
    incx: int,
    beta: T,
    y: Seq<T>,
    incy: int,
) -> Seq<T> {
    vec_written(y, n, incy, symv_elem(herm, store, uplo, n, alpha, a, lda, x, incx, beta, y, incy))
}

/// Validates the arguments of a symmetric matrix-vector product.
pub fn check_symv(
    store: Store,
    n: usize,
    a_len: usize,
    lda: usize,
    x_len: usize,
    incx: isize,
    y_len: usize,
    incy: isize,
) -> (r: Result<(), ArgError>)
    ensures
        r == symv_check(
            store,
            n as int,
            a_len as int,
            lda as int,
            x_len as int,
            incx as int,
            y_len as int,
            incy as int,
        ),
{
    if n == 0 {
        return Ok(());
    }
    match check_tri(a_len, store, n, lda) {
        Err(e) => Err(e),
        Ok(()) => match check_vector(x_len, n, incx) {
            Err(e) => Err(e),
            Ok(()) => check_vector(y_len, n, incy),
        },
    }
}

/// Matrix-vector product of a symmetric or Hermitian matrix in any store:
/// `y` becomes `alpha * a * x + beta * y`. Only the stored triangle is read.
#[verifier::loop_isolation(false)]
pub fn symmetric_mv<T: Scalar>(
    herm: bool,
    store: Store,
    uplo: Uplo,
    n: usize,
    alpha: T,
    a: &[T],
    lda: usize,
    x: &[T],
    incx: isize,
    beta: T,
    y: &mut [T],
    incy: isize,
) -> (r: Result<(), ArgError>)
    ensures
        r == symv_check(
            store,
            n as int,
            a@.len() as int,
            lda as int,
            x@.len() as int,
            incx as int,
            old(y)@.len() as int,
            incy as int,
        ),
        r is Err ==> final(y)@ == old(y)@,
        r is Ok ==> final(y)@ == symv_result(
            herm,
            store,
            uplo,
            n as int,
            alpha,
            a@,
            lda as int,
            x@,
            incx as int,
            beta,
            old(y)@,
            incy as int,
        ),
{
    let ghost val = symv_elem(
        herm,
        store,
        uplo,
        n as int,
        alpha,
        a@,
        lda as int,
        x@,
        incx as int,
        beta,
        y@,
        incy as int,
    );
    if n == 0 {
        proof {
            lemma_vec_progress_start(y@, n as int, incy as int, val, 0);
            lemma_vec_progress_end(y@, n as int, incy as int, val);
        }
        return Ok(());
    }
    match check_symv(store, n, a.len(), lda, x.len(), incx, y.len(), incy) {
        Err(e) => {
            return Err(e);
        },
        Ok(()) => {},
    }
    proof {
        lemma_vec_progress_start(y@, n as int, incy as int, val, 0);
    }
    let mut i: usize = 0;
    while i < n
        invariant
            0 <= i <= n,
            y@.len() == old(y)@.len(),
            y@ == vec_progress(old(y)@, n as int, incy as int, val, 0, i as int),
        decreases n - i,
    {
        let ghost term = symv_term(herm, store, uplo, n as int, a@, lda as int, x@, incx as int, i as int);
        let lo: usize = row_first(store, i);
        let hi: usize = row_end(store, n, i);
        let mut acc: T = T::zero();
        let mut j: usize = lo;
        while j < hi
            invariant
                lo <= j <= hi,
                acc == sum_range(term, lo as int, j as int),
            decreases hi - j,
        {
            let e: T = sym_get(herm, store, uplo, n, a, lda, i, j);
            let px: usize = slot_index(n, incx, j);
            acc = acc.plus(e.times(x[px]));
            j += 1;
        }
        let py: usize = slot_index(n, incy, i);
        proof {
            lemma_vec_progress_step(old(y)@, n as int, incy as int, val, 0, i as int, i as int);
        }
        let v: T = blend_sum(alpha.times(acc), beta, y[py]);
        y[py] = v;
        i += 1;
    }
    proof {
        lemma_vec_progress_end(old(y)@, n as int, incy as int, val);
    }
    Ok(())
}

/// Matrix-vector product of a symmetric matrix of which the `uplo` triangle
/// is stored in a full matrix: `y` becomes `alpha * a * x + beta * y`.
pub fn symv<T: Scalar>(
    uplo: Uplo,
    n: usize,
    alpha: T,
    a: &[T],
    lda: usize,
    x: &[T],
    incx: isize,
    beta: T,
    y: &mut [T],
    incy: isize,
) -> (r: Result<(), ArgError>)
    ensures
        r == symv_check(
            Store::Full,
            n as int,
            a@.len() as int,
            lda as int,
            x@.len() as int,
            incx as int,
            old(y)@.len() as int,
            incy as int,
        ),
        r is Err ==> final(y)@ == old(y)@,
        r is Ok ==> final(y)@ == symv_result(
            false,
            Store::Full,
            uplo,
            n as int,
            alpha,
            a@,
            lda as int,
            x@,
            incx as int,
            beta,
            old(y)@,
            incy as int,
        ),
{
    symmetric_mv(false, Store::Full, uplo, n, alpha, a, lda, x, incx, beta, y, incy)
}

/// Matrix-vector product of a Hermitian matrix of which the `uplo` triangle
/// is stored in a full matrix: `y` becomes `alpha * a * x + beta * y`.
pub fn hemv<T: Scalar>(
    uplo: Uplo,
    n: usize,
    alpha: T,
    a: &[T],
    lda: usize,
    x: &[T],
    incx: isize,
    beta: T,
    y: &mut [T],
    incy: isize,
) -> (r: Result<(), ArgError>)
    ensures
        r == symv_check(
            Store::Full,
            n as int,
            a@.len() as int,
            lda as int,
            x@.len() as int,
            incx as int,
            old(y)@.len() as int,
            incy as int,
        ),
        r is Err ==> final(y)@ == old(y)@,
        r is Ok ==> final(y)@ == symv_result(
            true,
            Store::Full,
            uplo,
            n as int,
            alpha,
            a@,
            lda as int,
            x@,
            incx as int,
            beta,
            old(y)@,
            incy as int,
        ),
{
    symmetric_mv(true, Store::Full, uplo, n, alpha, a, lda, x, incx, beta, y, incy)
}

/// Matrix-vector product of a symmetric band matrix with `k` diagonals
/// beside the main one: `y` becomes `alpha * a * x + beta * y`.
pub fn sbmv<T: Scalar>(
    uplo: Uplo,
    n: usize,
    k: usize,
    alpha: T,
    a: &[T],
    lda: usize,
    x: &[T],
    incx: isize,
    beta: T,
    y: &mut [T],
    incy: isize,
) -> (r: Result<(), ArgError>)
    ensures
        r == symv_check(
            Store::Band { k },
            n as int,
            a@.len() as int,
            lda as int,
            x@.len() as int,
            incx as int,
            old(y)@.len() as int,
            incy as int,
        ),
        r is Err ==> final(y)@ == old(y)@,
        r is Ok ==> final(y)@ == symv_result(
            false,
            Store::Band { k },
            uplo,
            n as int,
            alpha,
            a@,
            lda as int,
            x@,
            incx as int,
            beta,
            old(y)@,
            incy as int,
        ),
{
    symmetric_mv(false, Store::Band { k }, uplo, n, alpha, a, lda, x, incx, beta, y, incy)
}

/// Matrix-vector product of a Hermitian band matrix with `k` diagonals
/// beside the main one: `y` becomes `alpha * a * x + beta * y`.
pub fn hbmv<T: Scalar>(
    uplo: Uplo,
    n: usize,
    k: usize,
    alpha: T,
    a: &[T],
    lda: usize,
    x: &[T],
    incx: isize,
    beta: T,
    y: &mut [T],
    incy: isize,
) -> (r: Result<(), ArgError>)
    ensures
        r == symv_check(
            Store::Band { k },
            n as int,
            a@.len() as int,
            lda as int,
            x@.len() as int,
            incx as int,
            old(y)@.len() as int,
            incy as int,
        ),
        r is Err ==> final(y)@ == old(y)@,
        r is Ok ==> final(y)@ == symv_result(
            true,
            Store::Band { k },
            uplo,
            n as int,
            alpha,
            a@,
            lda as int,
            x@,
            incx as int,
            beta,
            old(y)@,
            incy as int,
        ),
{
    symmetric_mv(true, Store::Band { k }, uplo, n, alpha, a, lda, x, incx, beta, y, incy)
}

/// Matrix-vector product of a symmetric matrix of which the `uplo` triangle
/// is packed: `y` becomes `alpha * ap * x + beta * y`.
pub fn spmv<T: Scalar>(
    uplo: Uplo,
    n: usize,
    alpha: T,
    ap: &[T],
    x: &[T],
    incx: isize,
    beta: T,
    y: &mut [T],
    incy: isize,
) -> (r: Result<(), ArgError>)
    ensures
        r == symv_check(
            Store::Packed,
            n as int,
            ap@.len() as int,
            0usize as int,
            x@.len() as int,
            incx as int,
            old(y)@.len() as int,
            incy as int,
        ),
        r is Err ==> final(y)@ == old(y)@,
        r is Ok ==> final(y)@ == symv_result(
            false,
            Store::Packed,
            uplo,
            n as int,
            alpha,
            ap@,
            0usize as int,
            x@,
            incx as int,
            beta,
            old(y)@,
            incy as int,
        ),
{
    symmetric_mv(false, Store::Packed, uplo, n, alpha, ap, 0usize, x, incx, beta, y, incy)
}

/// Matrix-vector product of a Hermitian matrix of which the `uplo` triangle
/// is packed: `y` becomes `alpha * ap * x + beta * y`.
pub fn hpmv<T: Scalar>(
    uplo: Uplo,
    n: usize,
    alpha: T,
    ap: &[T],
    x: &[T],
    incx: isize,
    beta: T,
    y: &mut [T],
    incy: isize,
) -> (r: Result<(), ArgError>)
    ensures
        r == symv_check(
            Store::Packed,
            n as int,
            ap@.len() as int,
            0usize as int,
            x@.len() as int,
            incx as int,
            old(y)@.len() as int,
            incy as int,
        ),
        r is Err ==> final(y)@ == old(y)@,
        r is Ok ==> final(y)@ == symv_result(
            true,
            Store::Packed,
            uplo,
            n as int,
            alpha,
            ap@,
            0usize as int,
            x@,
            incx as int,
            beta,
            old(y)@,
            incy as int,
        ),
{
    symmetric_mv(true, Store::Packed, uplo, n, alpha, ap, 0usize, x, incx, beta, y, incy)
}

} // verus!
