use vstd::prelude::*;
use crate::error::ArgError;
use crate::layout::and_then_check;
use crate::scalar::Scalar;
use crate::selector::{Diag, Trans, Uplo};
use crate::stride::{
    check_vector, lemma_vec_progress_end, lemma_vec_progress_start, lemma_vec_progress_step,
    lemma_vec_written_empty, slot, slot_index, vec_progress, vec_written, vector_check,
};
use crate::sum::sum_range;
use crate::triangle::{
    check_tri, is_op_lower, op_end, op_first, op_hi, op_lo, tri_check, tri_op_at, tri_op_get,
    Store,
};

verus! {

/// What the validation of a triangular matrix-vector kernel returns. A
/// matrix of order zero is accepted as it is. Otherwise the matrix and `x`
/// are validated in this order.
pub open spec fn trmv_check(
    store: Store,
    n: int,
    a_len: int,
    lda: int,
    x_len: int,
    incx: int,
) -> Result<(), ArgError> {
    if n == 0 {
        Ok(())
    } else {
        and_then_check(tri_check(a_len, store, n, lda), vector_check(x_len, n, incx))
    }
}

/// Validates the arguments of a triangular matrix-vector kernel.
pub fn check_trmv(
    store: Store,
    n: usize,
    a_len: usize,
    lda: usize,
    x_len: usize,
    incx: isize,
) -> (r: Result<(), ArgError>)
    ensures
        r == trmv_check(store, n as int, a_len as int, lda as int, x_len as int, incx as int),
{
    if n == 0 {
        return Ok(());
    }
    match check_tri(a_len, store, n, lda) {
        Err(e) => Err(e),
        Ok(()) => check_vector(x_len, n, incx),
    }
}

/// The terms that are summed for element `i` of `op(a) * x`. With a unit
/// diagonal the diagonal term is `x[i]` itself and the stored diagonal is
/// not read.
pub open spec fn trmv_term<T: Scalar>(
    diag: Diag,
    trans: Trans,
    store: Store,
    uplo: Uplo,
    n: int,
    a: Seq<T>,
    lda: int,
    x: Seq<T>,
    incx: int,
    i: int,
) -> spec_fn(int) -> T {
    |l: int|
        if diag.unit() && l == i {
            x[slot(n, incx, l)]
        } else {
            tri_op_at(trans, store, uplo, n, a, lda, i, l).times_spec(x[slot(n, incx, l)])
        }
}

/// Element `i` of `op(a) * x`, as a function of `i`.
pub open spec fn trmv_elem<T: Scalar>(
    diag: Diag,
    trans: Trans,
    store: Store,
    uplo: Uplo,
    n: int,
    a: Seq<T>,
    lda: int,
    x: Seq<T>,
    incx: int,
) -> spec_fn(int) -> T {
    |i: int|
        sum_range(
            trmv_term(diag, trans, store, uplo, n, a, lda, x, incx, i),
            op_lo(store, uplo, trans, i),
            op_hi(store, uplo, trans, n, i),
        )
}

/// The buffer of `x` after the product.
pub open spec fn trmv_result<T: Scalar>(
    diag: Diag,
    trans: Trans,
    store: Store,
    uplo: Uplo,
    n: int,
    a: Seq<T>,
    lda: int,
    x: Seq<T>,
    incx: int,
) -> Seq<T> {
    vec_written(x, n, incx, trmv_elem(diag, trans, store, uplo, n, a, lda, x, incx))
}

/// Triangular matrix-vector product in place, for any store: `x` becomes
/// `op(a) * x`. The elements are computed in the one order in which each is
/// overwritten only after every element that needs its old value is done:
/// from the last to the first where `op(a)` is lower triangular, from the
/// first to the last where it is upper triangular.
#[verifier::loop_isolation(false)]
pub fn triangular_mv<T: Scalar>(
    store: Store,
    uplo: Uplo,
    trans: Trans,
    diag: Diag,
    n: usize,
    a: &[T],
    lda: usize,
    x: &mut [T],
    incx: isize,
) -> (r: Result<(), ArgError>)
    ensures
        r == trmv_check(
            store,
            n as int,
            a@.len() as int,
            lda as int,
            old(x)@.len() as int,
            incx as int,
        ),
        r is Err ==> final(x)@ == old(x)@,
        r is Ok ==> final(x)@ == trmv_result(
            diag,
            trans,
            store,
            uplo,
            n as int,
            a@,
            lda as int,
            old(x)@,
            incx as int,
        ),
{
    let ghost val = trmv_elem(diag, trans, store, uplo, n as int, a@, lda as int, x@, incx as int);
    if n == 0 {
        proof {
            lemma_vec_written_empty(x@, n as int, incx as int, val);
        }
        return Ok(());
    }
    match check_trmv(store, n, a.len(), lda, x.len(), incx) {
        Err(e) => {
            return Err(e);
        },
        Ok(()) => {},
    }
    let lower: bool = is_op_lower(uplo, trans);
    let unit: bool = diag.is_unit();
    proof {
        lemma_vec_progress_start(x@, n as int, incx as int, val, if lower { n as int } else { 0 });
    }
    let mut t: usize = 0;
    while t < n
        invariant
            0 <= t <= n,
            x@.len() == old(x)@.len(),
            x@ == vec_progress(
                old(x)@,
                n as int,
                incx as int,
                val,
                if lower { n - t } else { 0 },
                if lower { n as int } else { t as int },
            ),
        decreases n - t,
    {
        let i: usize = if lower { n - 1 - t } else { t };
        let ghost done_lo: int = if lower { n - t } else { 0 };
        let ghost done_hi: int = if lower { n as int } else { t as int };
        let ghost term = trmv_term(
            diag,
            trans,
            store,
            uplo,
            n as int,
            a@,
            lda as int,
            old(x)@,
            incx as int,
            i as int,
        );
        let lo: usize = op_first(store, uplo, trans, i);
        let hi: usize = op_end(store, uplo, trans, n, i);
        let mut acc: T = T::zero();
        let mut l: usize = lo;
        while l < hi
            invariant
                lo <= l <= hi <= n,
                acc == sum_range(term, lo as int, l as int),
            decreases hi - l,
        {
            let px: usize = slot_index(n, incx, l);
            proof {
                lemma_vec_progress_step(
                    old(x)@,
                    n as int,
                    incx as int,
                    val,
                    done_lo,
                    done_hi,
                    l as int,
                );
            }
            if unit && l == i {
                acc = acc.plus(x[px]);
            } else {
                let e: T = tri_op_get(trans, store, uplo, n, a, lda, i, l);
                acc = acc.plus(e.times(x[px]));
            }
            l += 1;
        }
        let p0: usize = slot_index(n, incx, i);
        proof {
            lemma_vec_progress_step(old(x)@, n as int, incx as int, val, done_lo, done_hi, i as int);
        }
        x[p0] = acc;
        t += 1;
    }
    proof {
        lemma_vec_progress_end(old(x)@, n as int, incx as int, val);
    }
    Ok(())
}

/// Triangular matrix-vector product in place: `x` becomes `op(a) * x`, where
/// the `uplo` triangle of `a` is stored in a full matrix.
pub fn trmv<T: Scalar>(
    uplo: Uplo,
    trans: Trans,
    diag: Diag,
    n: usize,
    a: &[T],
    lda: usize,
    x: &mut [T],
    incx: isize,
) -> (r: Result<(), ArgError>)
    ensures
        r == trmv_check(
            Store::Full,
            n as int,
            a@.len() as int,
            lda as int,
            old(x)@.len() as int,
            incx as int,
        ),
        r is Err ==> final(x)@ == old(x)@,
        r is Ok ==> final(x)@ == trmv_result(
            diag,
            trans,
            Store::Full,
            uplo,
            n as int,
            a@,
            lda as int,
            old(x)@,
            incx as int,
        ),
{
    triangular_mv(Store::Full, uplo, trans, diag, n, a, lda, x, incx)
}

/// Triangular band matrix-vector product in place: `x` becomes `op(a) * x`,
/// where `a` has `k` diagonals beside the main one.
pub fn tbmv<T: Scalar>(
    uplo: Uplo,
    trans: Trans,
    diag: Diag,
    n: usize,
    k: usize,
    a: &[T],
    lda: usize,
    x: &mut [T],
    incx: isize,
) -> (r: Result<(), ArgError>)
    ensures
        r == trmv_check(
            Store::Band { k },
            n as int,
            a@.len() as int,
            lda as int,
            old(x)@.len() as int,
            incx as int,
        ),
        r is Err ==> final(x)@ == old(x)@,
        r is Ok ==> final(x)@ == trmv_result(
            diag,
            trans,
            Store::Band { k },
            uplo,
            n as int,
            a@,
            lda as int,
            old(x)@,
            incx as int,
        ),
{
    triangular_mv(Store::Band { k }, uplo, trans, diag, n, a, lda, x, incx)
}

/// Triangular packed matrix-vector product in place: `x` becomes
/// `op(ap) * x`.
pub fn tpmv<T: Scalar>(
    uplo: Uplo,
    trans: Trans,
    diag: Diag,
    n: usize,
    ap: &[T],
    x: &mut [T],
    incx: isize,
) -> (r: Result<(), ArgError>)
    ensures
        r == trmv_check(
            Store::Packed,
            n as int,
            ap@.len() as int,
            0usize as int,
            old(x)@.len() as int,
            incx as int,
        ),
        r is Err ==> final(x)@ == old(x)@,
        r is Ok ==> final(x)@ == trmv_result(
            diag,
            trans,
            Store::Packed,
            uplo,
            n as int,
            ap@,
            0usize as int,
            old(x)@,
            incx as int,
        ),
{
    triangular_mv(Store::Packed, uplo, trans, diag, n, ap, 0usize, x, incx)
}

} // verus!
