use vstd::prelude::*;
use crate::error::ArgError;
use crate::layout::{
    and_then_check, blend_spec, blend_sum, check_general, general_at, general_check, general_end,
    general_first, general_hi, general_index, general_lo, Banding,
};
use crate::scalar::Scalar;
use crate::selector::Trans;
use crate::stride::{
    check_vector, lemma_vec_progress_end, lemma_vec_progress_start, lemma_vec_progress_step, slot,
    slot_index, vec_progress, vec_written, vector_check,
};
use crate::sum::sum_range;

verus! {

/// How many elements the input vector of a matrix-vector product has.
pub open spec fn gemv_len_x(trans: Trans, m: int, n: int) -> int {
    if trans.flips() {
        m
    } else {
        n
    }
}

/// How many elements the output vector of a matrix-vector product has.
pub open spec fn gemv_len_y(trans: Trans, m: int, n: int) -> int {
    if trans.flips() {
        n
    } else {
        m
    }
}

/// What the validation of a general matrix-vector product returns. A matrix
/// with no row or no column is accepted as it is. Otherwise the matrix, `x`
/// and `y` are validated in this order.
pub open spec fn gemv_check(
    band: Banding,
    trans: Trans,
    m: int,
    n: int,
    a_len: int,
    lda: int,
    x_len: int,
    incx: int,
    y_len: int,
    incy: int,
) -> Result<(), ArgError> {
    if m == 0 || n == 0 {
        Ok(())
    } else {
        and_then_check(
            general_check(a_len, band, m, n, lda),
            and_then_check(
                vector_check(x_len, gemv_len_x(trans, m, n), incx),
                vector_check(y_len, gemv_len_y(trans, m, n), incy),
            ),
        )
    }
}

/// Element `r`, `l` of `op(a)`, read from the store.
pub open spec fn general_op_at<T: Scalar>(
    band: Banding,
    trans: Trans,
    a: Seq<T>,
    lda: int,
    r: int,
    l: int,
) -> T {
    match trans {
        Trans::N => a[general_at(band, lda, r, l)],
        Trans::T => a[general_at(band, lda, l, r)],
        Trans::C => a[general_at(band, lda, l, r)].conj_spec(),
    }
}

/// The products that are summed for element `r` of `op(a) * x`.
pub open spec fn gemv_term<T: Scalar>(
    band: Banding,
    trans: Trans,
    m: int,
    n: int,
    a: Seq<T>,
    lda: int,
    x: Seq<T>,
    incx: int,
    r: int,
) -> spec_fn(int) -> T {
    |l: int|
        general_op_at(band, trans, a, lda, r, l).times_spec(
            x[slot(gemv_len_x(trans, m, n), incx, l)],
        )
}

/// Element `r` of `alpha * op(a) * x + beta * y`, as a function of `r`. Of a
/// band matrix only the stored diagonals enter the sum.
pub open spec fn gemv_elem<T: Scalar>(
    band: Banding,
    trans: Trans,
    m: int,
    n: int,
    alpha: T,
    a: Seq<T>,
    lda: int,
    x: Seq<T>,
    incx: int,
    beta: T,
    y: Seq<T>,
    incy: int,
) -> spec_fn(int) -> T {
    |r: int|
        blend_spec(
            alpha,
            sum_range(
                gemv_term(band, trans, m, n, a, lda, x, incx, r),
                general_lo(band, trans.flips(), r),
                general_hi(band, trans.flips(), gemv_len_x(trans, m, n), r),
            ),
            beta,
            y[slot(gemv_len_y(trans, m, n), incy, r)],
        )
}

/// The buffer of `y` after the product: as it was where the matrix has no
/// row or no column, and otherwise with each element of `y` replaced by its
/// element of `alpha * op(a) * x + beta * y`.
pub open spec fn gemv_result<T: Scalar>(
    band: Banding,
    trans: Trans,
    m: int,
    n: int,
    alpha: T,
    a: Seq<T>,
    lda: int,
    x: Seq<T>,
    incx: int,
    beta: T,
    y: Seq<T>,
    incy: int,
) -> Seq<T> {
    if m == 0 || n == 0 {
        y
    } else {
        vec_written(
            y,
            gemv_len_y(trans, m, n),
            incy,
            gemv_elem(band, trans, m, n, alpha, a, lda, x, incx, beta, y, incy),
        )
    }
}

/// Validates the arguments of a general matrix-vector product.
pub fn check_gemv(
    band: Banding,
    trans: Trans,
    m: usize,
    n: usize,
    a_len: usize,
    lda: usize,
    x_len: usize,
    incx: isize,
    y_len: usize,
    incy: isize,
) -> (r: Result<(), ArgError>)
    ensures
        r == gemv_check(
            band,
            trans,
            m as int,
            n as int,
            a_len as int,
            lda as int,
            x_len as int,
            incx as int,
            y_len as int,
            incy as int,
        ),
{
    if m == 0 || n == 0 {
        return Ok(());
    }
    let flip: bool = trans.is_flipped();
    match check_general(a_len, band, m, n, lda) {
        Err(e) => Err(e),
        Ok(()) => match check_vector(x_len, if flip { m } else { n }, incx) {
            Err(e) => Err(e),
            Ok(()) => check_vector(y_len, if flip { n } else { m }, incy),
        },
    }
}

/// Matrix-vector product of a general matrix in either store: `y` becomes
/// `alpha * op(a) * x + beta * y`.
#[verifier::loop_isolation(false)]
pub fn general_mv<T: Scalar>(
    band: Banding,
    trans: Trans,
    m: usize,
    n: usize,
    alpha: T,
    a: &[T],
    lda: usize,
    x: &[T],
    incx: isize,
    beta: T,
    y: &mut [T],
    incy: isize,
) -> (r: Result<(), ArgError>)
    ensures
        r == gemv_check(
            band,
            trans,
            m as int,
            n as int,
            a@.len() as int,
            lda as int,
            x@.len() as int,
            incx as int,
            old(y)@.len() as int,
            incy as int,
        ),
        r is Err ==> final(y)@ == old(y)@,
        r is Ok ==> final(y)@ == gemv_result(
            band,
            trans,
            m as int,
            n as int,
            alpha,
            a@,
            lda as int,
            x@,
            incx as int,
            beta,
            old(y)@,
            incy as int,
        ),
{
    let flip: bool = trans.is_flipped();
    let conj: bool = trans.is_conjugated();
    let len_x: usize = if flip { m } else { n };
    let len_y: usize = if flip { n } else { m };
    let ghost val = gemv_elem(
        band,
        trans,
        m as int,
        n as int,
        alpha,
        a@,
        lda as int,
        x@,
        incx as int,
        beta,
        y@,
        incy as int,
    );
    if m == 0 || n == 0 {
        return Ok(());
    }
    match check_gemv(band, trans, m, n, a.len(), lda, x.len(), incx, y.len(), incy) {
        Err(e) => {
            return Err(e);
        },
        Ok(()) => {},
    }
    proof {
        lemma_vec_progress_start(y@, len_y as int, incy as int, val, 0);
    }
    let mut r: usize = 0;
    while r < len_y
        invariant
            0 <= r <= len_y,
            y@.len() == old(y)@.len(),
            y@ == vec_progress(old(y)@, len_y as int, incy as int, val, 0, r as int),
        decreases len_y - r,
    {
        let ghost term = gemv_term(band, trans, m as int, n as int, a@, lda as int, x@, incx as int, r as int);
        let lo: usize = general_first(band, flip, r);
        let hi: usize = general_end(band, flip, len_x, r);
        let mut acc: T = T::zero();
        let mut l: usize = if lo < hi { lo } else { hi };
        while l < hi
            invariant
                l <= hi <= len_x,
                hi <= lo ==> l >= hi,
                lo < hi ==> lo <= l,
                acc == sum_range(term, lo as int, l as int),
            decreases hi - l,
        {
            let px: usize = slot_index(len_x, incx, l);
            let pa: usize = if flip {
                general_index(band, m, n, lda, l, r)
            } else {
                general_index(band, m, n, lda, r, l)
            };
            let e: T = if conj { a[pa].conj() } else { a[pa] };
            acc = acc.plus(e.times(x[px]));
            l += 1;
        }
        let py: usize = slot_index(len_y, incy, r);
        proof {
            lemma_vec_progress_step(old(y)@, len_y as int, incy as int, val, 0, r as int, r as int);
        }
        let v: T = blend_sum(alpha.times(acc), beta, y[py]);
        y[py] = v;
        r += 1;
    }
    proof {
        lemma_vec_progress_end(old(y)@, len_y as int, incy as int, val);
    }
    Ok(())
}

/// Matrix-vector product of a full matrix: `y` becomes
/// `alpha * op(a) * x + beta * y`, where `a` is `m` by `n`.
pub fn gemv<T: Scalar>(
    trans: Trans,
    m: usize,
    n: usize,
    alpha: T,
    a: &[T],
    lda: usize,
    x: &[T],
    incx: isize,
    beta: T,
    y: &mut [T],
    incy: isize,
) -> (r: Result<(), ArgError>)
    ensures
        r == gemv_check(
            Banding::Full,
            trans,
            m as int,
            n as int,
            a@.len() as int,
            lda as int,
            x@.len() as int,
            incx as int,
            old(y)@.len() as int,
            incy as int,
        ),
        r is Err ==> final(y)@ == old(y)@,
        r is Ok ==> final(y)@ == gemv_result(
            Banding::Full,
            trans,
            m as int,
            n as int,
            alpha,
            a@,
            lda as int,
            x@,
            incx as int,
            beta,
            old(y)@,
            incy as int,
        ),
{
    general_mv(Banding::Full, trans, m, n, alpha, a, lda, x, incx, beta, y, incy)
}

/// Matrix-vector product of a band matrix with `kl` diagonals below and `ku`
/// above the main one: `y` becomes `alpha * op(a) * x + beta * y`. Only
/// slots of stored diagonals are read.
pub fn gbmv<T: Scalar>(
    trans: Trans,
    m: usize,
    n: usize,
    kl: usize,
    ku: usize,
    alpha: T,
    a: &[T],
    lda: usize,
    x: &[T],
    incx: isize,
    beta: T,
    y: &mut [T],
    incy: isize,
) -> (r: Result<(), ArgError>)
    ensures
        r == gemv_check(
            Banding::Band { kl, ku },
            trans,
            m as int,
            n as int,
            a@.len() as int,
            lda as int,
            x@.len() as int,
            incx as int,
            old(y)@.len() as int,
            incy as int,
        ),
        r is Err ==> final(y)@ == old(y)@,
        r is Ok ==> final(y)@ == gemv_result(
            Banding::Band { kl, ku },
            trans,
            m as int,
            n as int,
            alpha,
            a@,
            lda as int,
            x@,
            incx as int,
            beta,
            old(y)@,
            incy as int,
        ),
{
    general_mv(Banding::Band { kl, ku }, trans, m, n, alpha, a, lda, x, incx, beta, y, incy)
}

} // verus!
