use vstd::prelude::*;
use crate::error::ArgError;
use crate::scalar::{Field, Scalar};
use crate::selector::{Diag, Trans, Uplo};
use crate::stride::{slot, slot_index};
use crate::sum::sum_range;
use crate::triangle::{
    is_op_lower, op_end, op_first, op_hi, op_lo, op_lower, tri_op_at, tri_op_get, Store,
};
use crate::trmv::{check_trmv, trmv_check};

verus! {

/// The element that step `t` of a substitution solves: they are taken from
/// the first on where `op(a)` is lower triangular, from the last on where it
/// is upper triangular.
pub open spec fn trsv_target(uplo: Uplo, trans: Trans, n: int, t: int) -> int {
    if op_lower(uplo, trans) {
        t
    } else {
        n - 1 - t
    }
}

/// The first column beside the diagonal in row `i` of `op(a)`.
pub open spec fn beside_lo(store: Store, uplo: Uplo, trans: Trans, i: int) -> int {
    if op_lower(uplo, trans) {
        op_lo(store, uplo, trans, i)
    } else {
        i + 1
    }
}

/// One past the last column beside the diagonal in row `i` of `op(a)`.
pub open spec fn beside_hi(store: Store, uplo: Uplo, trans: Trans, n: int, i: int) -> int {
    if op_lower(uplo, trans) {
        i
    } else {
        op_hi(store, uplo, trans, n, i)
    }
}

/// The products that a substitution step takes away from element `i`: those
/// of the row's elements beside the diagonal with the elements of `x` that
/// are solved already.
pub open spec fn trsv_term<T: Scalar>(
    trans: Trans,
    store: Store,
    uplo: Uplo,
    n: int,
    a: Seq<T>,
    lda: int,
    x: Seq<T>,
    incx: int,
    i: int,
) -> spec_fn(int) -> T {
    |l: int| tri_op_at(trans, store, uplo, n, a, lda, i, l).times_spec(x[slot(n, incx, l)])
}

/// Element `i` of the solution, from a buffer in which the elements that row
/// `i` of `op(a)` meets beside the diagonal are solved: what is left of
/// `x[i]` after their products are taken away, divided by the diagonal
/// element unless the diagonal is unit, in which case it is not read.
pub open spec fn trsv_solved<T: Field>(
    diag: Diag,
    trans: Trans,
    store: Store,
    uplo: Uplo,
    n: int,
    a: Seq<T>,
    lda: int,
    x: Seq<T>,
    incx: int,
    i: int,
) -> T {
    let rest = x[slot(n, incx, i)].minus_spec(
        sum_range(
            trsv_term(trans, store, uplo, n, a, lda, x, incx, i),
            beside_lo(store, uplo, trans, i),
            beside_hi(store, uplo, trans, n, i),
        ),
    );
    if diag.unit() {
        rest
    } else {
        rest.over_spec(tri_op_at(trans, store, uplo, n, a, lda, i, i))
    }
}

/// The buffer of `x` after the first `t` steps of the substitution. Each
/// step writes one element's slot; every other slot keeps its value.
pub open spec fn trsv_steps<T: Field>(
    diag: Diag,
    trans: Trans,
    store: Store,
    uplo: Uplo,
    n: int,
    a: Seq<T>,
    lda: int,
    x: Seq<T>,
    incx: int,
    t: int,
) -> Seq<T>
    decreases t,
{
    if t <= 0 {
        x
    } else {
        let before = trsv_steps(diag, trans, store, uplo, n, a, lda, x, incx, t - 1);
        let i = trsv_target(uplo, trans, n, t - 1);
        before.update(
            slot(n, incx, i),
            trsv_solved(diag, trans, store, uplo, n, a, lda, before, incx, i),
        )
    }
}

/// Triangular solve in place, for any store: `x` becomes the solution `z` of
/// `op(a) * z = x`, by forward substitution where `op(a)` is lower
/// triangular and by back substitution where it is upper triangular. A zero
/// on the diagonal is no error: the division is the scalar's own.
#[verifier::loop_isolation(false)]
pub fn triangular_sv<T: Field>(
    store: Store,
    uplo: Uplo,
    trans: Trans,
    diag: Diag,
    n: usize,
    a: &[T],
    lda: usize,
    x: &mut [T],
    incx: isize,
) -> (r: Result<(), ArgError>)
    ensures
        r == trmv_check(
            store,
            n as int,
            a@.len() as int,
            lda as int,
            old(x)@.len() as int,
            incx as int,
        ),
        r is Err ==> final(x)@ == old(x)@,
        r is Ok ==> final(x)@ == trsv_steps(
            diag,
            trans,
            store,
            uplo,
            n as int,
            a@,
            lda as int,
            old(x)@,
            incx as int,
            n as int,
        ),
{
    if n == 0 {
        return Ok(());
    }
    match check_trmv(store, n, a.len(), lda, x.len(), incx) {
        Err(e) => {
            return Err(e);
        },
        Ok(()) => {},
    }
    let lower: bool = is_op_lower(uplo, trans);
    let unit: bool = diag.is_unit();
    let mut t: usize = 0;
    while t < n
        invariant
            0 <= t <= n,
            x@.len() == old(x)@.len(),
            x@ == trsv_steps(
                diag,
                trans,
                store,
                uplo,
                n as int,
                a@,
                lda as int,
                old(x)@,
                incx as int,
                t as int,
            ),
        decreases n - t,
    {
        let i: usize = if lower { t } else { n - 1 - t };
        let ghost before = x@;
        let ghost term = trsv_term(trans, store, uplo, n as int, a@, lda as int, before, incx as int, i as int);
        let lo: usize = if lower { op_first(store, uplo, trans, i) } else { i + 1 };
        let hi: usize = if lower { i } else { op_end(store, uplo, trans, n, i) };
        let mut acc: T = T::zero();
        let mut l: usize = if lo < hi { lo } else { hi };
        while l < hi
            invariant
                l <= hi <= n,
                hi <= lo ==> l >= hi,
                lo < hi ==> lo <= l,
                x@ == before,
                acc == sum_range(term, lo as int, l as int),
            decreases hi - l,
        {
            let px: usize = slot_index(n, incx, l);
            let e: T = tri_op_get(trans, store, uplo, n, a, lda, i, l);
            acc = acc.plus(e.times(x[px]));
            l += 1;
        }
        let p0: usize = slot_index(n, incx, i);
        let rest: T = x[p0].minus(acc);
        let v: T = if unit {
            rest
        } else {
            rest.over(tri_op_get(trans, store, uplo, n, a, lda, i, i))
        };
        x[p0] = v;
        t += 1;
    }
    Ok(())
}

/// Triangular solve in place: `x` becomes the solution `z` of
/// `op(a) * z = x`, where the `uplo` triangle of `a` is stored in a full
/// matrix.
pub fn trsv<T: Field>(
    uplo: Uplo,
    trans: Trans,
    diag: Diag,
    n: usize,
    a: &[T],
    lda: usize,
    x: &mut [T],
    incx: isize,
) -> (r: Result<(), ArgError>)
    ensures
        r == trmv_check(
            Store::Full,
            n as int,
            a@.len() as int,
            lda as int,
            old(x)@.len() as int,
            incx as int,
        ),
        r is Err ==> final(x)@ == old(x)@,
        r is Ok ==> final(x)@ == trsv_steps(
            diag,
            trans,
            Store::Full,
            uplo,
            n as int,
            a@,
            lda as int,
            old(x)@,
            incx as int,
            n as int,
        ),
{
    triangular_sv(Store::Full, uplo, trans, diag, n, a, lda, x, incx)
}

/// Triangular band solve in place: `x` becomes the solution `z` of
/// `op(a) * z = x`, where `a` has `k` diagonals beside the main one.
pub fn tbsv<T: Field>(
    uplo: Uplo,
    trans: Trans,
    diag: Diag,
    n: usize,
    k: usize,
    a: &[T],
    lda: usize,
    x: &mut [T],
    incx: isize,
) -> (r: Result<(), ArgError>)
    ensures
        r == trmv_check(
            Store::Band { k },
            n as int,
            a@.len() as int,
            lda as int,
            old(x)@.len() as int,
            incx as int,
        ),
        r is Err ==> final(x)@ == old(x)@,
        r is Ok ==> final(x)@ == trsv_steps(
            diag,
            trans,
            Store::Band { k },
            uplo,
            n as int,
            a@,
            lda as int,
            old(x)@,
            incx as int,
            n as int,
        ),
{
    triangular_sv(Store::Band { k }, uplo, trans, diag, n, a, lda, x, incx)
}

/// Triangular packed solve in place: `x` becomes the solution `z` of
/// `op(ap) * z = x`.
pub fn tpsv<T: Field>(
    uplo: Uplo,
    trans: Trans,
    diag: Diag,
    n: usize,
    ap: &[T],
    x: &mut [T],
    incx: isize,
) -> (r: Result<(), ArgError>)
    ensures
        r == trmv_check(
            Store::Packed,
            n as int,
            ap@.len() as int,
            0usize as int,
            old(x)@.len() as int,
            incx as int,
        ),
        r is Err ==> final(x)@ == old(x)@,
        r is Ok ==> final(x)@ == trsv_steps(
            diag,
            trans,
            Store::Packed,
            uplo,
            n as int,
            ap@,
            0usize as int,
            old(x)@,
            incx as int,
            n as int,
        ),
{
    triangular_sv(Store::Packed, uplo, trans, diag, n, ap, 0usize, x, incx)
}

} // verus!
