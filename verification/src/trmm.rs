use vstd::prelude::*;
use crate::error::ArgError;
use crate::layout::{
    and_then_check, check_matrix, full_at, full_index, full_region, full_written,
    lemma_full_region_column, lemma_full_region_end, lemma_full_region_read,
    lemma_full_region_start, lemma_full_region_write, lemma_full_written_empty, matrix_check,
};
use crate::scalar::Scalar;
use crate::selector::{Diag, Side, Trans, Uplo};
use crate::sum::sum_range;
use crate::triangle::{is_op_lower, op_hi, op_lo, op_lower, tri_op_at, tri_op_get, Store};

verus! {

/// The order of the triangular operand: the number of rows of `b` where it
/// stands on the left, of columns where it stands on the right.
pub open spec fn trmm_order(side: Side, m: int, n: int) -> int {
    if side.left() {
        m
    } else {
        n
    }
}

/// What the validation of a triangular matrix kernel returns. A matrix `b`
/// with no row or no column is accepted as it is. Otherwise `a` and `b` are
/// validated in this order.
pub open spec fn trmm_check(
    side: Side,
    m: int,
    n: int,
    a_len: int,
    lda: int,
    b_len: int,
    ldb: int,
) -> Result<(), ArgError> {
    if m == 0 || n == 0 {
        Ok(())
    } else {
        and_then_check(
            matrix_check(a_len, trmm_order(side, m, n), trmm_order(side, m, n), lda),
            matrix_check(b_len, m, n, ldb),
        )
    }
}

/// Validates the arguments of a triangular matrix kernel.
pub fn check_trmm(
    side: Side,
    m: usize,
    n: usize,
    a_len: usize,
    lda: usize,
    b_len: usize,
    ldb: usize,
) -> (r: Result<(), ArgError>)
    ensures
        r == trmm_check(
            side,
            m as int,
            n as int,
            a_len as int,
            lda as int,
            b_len as int,
            ldb as int,
        ),
{
    if m == 0 || n == 0 {
        return Ok(());
    }
    let order: usize = if side.is_left() { m } else { n };
    match check_matrix(a_len, order, order, lda) {
        Err(e) => Err(e),
        Ok(()) => check_matrix(b_len, m, n, ldb),
    }
}

/// The first index that is summed over for row `i`, column `j`: the first
/// stored column of row `i` of `op(a)` on the left, the first stored row of
/// column `j` of `op(a)` on the right.
pub open spec fn trmm_lo(side: Side, uplo: Uplo, trans: Trans, i: int, j: int) -> int {
    if side.left() {
        op_lo(Store::Full, uplo, trans, i)
    } else if op_lower(uplo, trans) {
        j
    } else {
        0
    }
}

/// One past the last index that is summed over for row `i`, column `j`.
pub open spec fn trmm_hi(side: Side, uplo: Uplo, trans: Trans, m: int, n: int, i: int, j: int) -> int {
    if side.left() {
        op_hi(Store::Full, uplo, trans, m, i)
    } else if op_lower(uplo, trans) {
        n
    } else {
        j + 1
    }
}

/// The terms that are summed for row `i`, column `j` of `op(a) * b`, or of
/// `b * op(a)`. With a unit diagonal the diagonal term is the element of `b`
/// itself and the stored diagonal is not read.
pub open spec fn trmm_term<T: Scalar>(
    side: Side,
    diag: Diag,
    trans: Trans,
    uplo: Uplo,
    m: int,
    n: int,
    a: Seq<T>,
    lda: int,
    b: Seq<T>,
    ldb: int,
    i: int,
    j: int,
) -> spec_fn(int) -> T {
    if side.left() {
        |l: int|
            if diag.unit() && l == i {
                b[full_at(ldb, l, j)]
            } else {
                tri_op_at(trans, Store::Full, uplo, m, a, lda, i, l).times_spec(
                    b[full_at(ldb, l, j)],
                )
            }
    } else {
        |l: int|
            if diag.unit() && l == j {
                b[full_at(ldb, i, l)]
            } else {
                b[full_at(ldb, i, l)].times_spec(
                    tri_op_at(trans, Store::Full, uplo, n, a, lda, l, j),
                )
            }
    }
}

/// Row `i`, column `j` of `alpha * op(a) * b`, or of `alpha * b * op(a)`, as
/// a function of `i` and `j`.
pub open spec fn trmm_elem<T: Scalar>(
    side: Side,
    diag: Diag,
    trans: Trans,
    uplo: Uplo,
    m: int,
    n: int,
    alpha: T,
    a: Seq<T>,
    lda: int,
    b: Seq<T>,
    ldb: int,
) -> spec_fn(int, int) -> T {
    |i: int, j: int|
        alpha.times_spec(
            sum_range(
                trmm_term(side, diag, trans, uplo, m, n, a, lda, b, ldb, i, j),
                trmm_lo(side, uplo, trans, i, j),
                trmm_hi(side, uplo, trans, m, n, i, j),
            ),
        )
}

/// The buffer of `b` after the product.
pub open spec fn trmm_result<T: Scalar>(
    side: Side,
    diag: Diag,
    trans: Trans,
    uplo: Uplo,
    m: int,
    n: int,
    alpha: T,
    a: Seq<T>,
    lda: int,
    b: Seq<T>,
    ldb: int,
) -> Seq<T> {
    full_written(b, m, n, ldb, trmm_elem(side, diag, trans, uplo, m, n, alpha, a, lda, b, ldb))
}

/// The product with the triangular matrix on the left: each column of `b`
/// is multiplied in place, in the order that the triangle asks for.
#[verifier::loop_isolation(false)]
fn trmm_left<T: Scalar>(
    uplo: Uplo,
    trans: Trans,
    diag: Diag,
    m: usize,
    n: usize,
    alpha: T,
    a: &[T],
    lda: usize,
    b: &mut [T],
    ldb: usize,
)
    requires
        m > 0,
        n > 0,
        matrix_check(a@.len() as int, m as int, m as int, lda as int) is Ok,
        matrix_check(old(b)@.len() as int, m as int, n as int, ldb as int) is Ok,
    ensures
        final(b)@ == trmm_result(
            Side::L,
            diag,
            trans,
            uplo,
            m as int,
            n as int,
            alpha,
            a@,
            lda as int,
            old(b)@,
            ldb as int,
        ),
{
    let ghost val = trmm_elem(
        Side::L,
        diag,
        trans,
        uplo,
        m as int,
        n as int,
        alpha,
        a@,
        lda as int,
        b@,
        ldb as int,
    );
    let b_len: usize = b.len();
    let lower: bool = is_op_lower(uplo, trans);
    let unit: bool = diag.is_unit();
    let ghost rest: int = if lower { m as int } else { 0 };
    proof {
        lemma_full_region_start(b@, m as int, n as int, ldb as int, val, 0, 0, rest);
    }
    let mut j: usize = 0;
    while j < n
        invariant
            0 <= j <= n,
            b@.len() == old(b)@.len(),
            b@ == full_region(
                old(b)@,
                m as int,
                n as int,
                ldb as int,
                val,
                0,
                j as int,
                j as int,
                rest,
                rest,
            ),
        decreases n - j,
    {
        let mut t: usize = 0;
        while t < m
            invariant
                0 <= t <= m,
                b@.len() == old(b)@.len(),
                b@ == full_region(
                    old(b)@,
                    m as int,
                    n as int,
                    ldb as int,
                    val,
                    0,
                    j as int,
                    j as int,
                    if lower { m - t } else { 0 },
                    if lower { m as int } else { t as int },
                ),
            decreases m - t,
        {
            let i: usize = if lower { m - 1 - t } else { t };
            let ghost done_lo: int = if lower { m - t } else { 0 };
            let ghost done_hi: int = if lower { m as int } else { t as int };
            let ghost term = trmm_term(
                Side::L,
                diag,
                trans,
                uplo,
                m as int,
                n as int,
                a@,
                lda as int,
                old(b)@,
                ldb as int,
                i as int,
                j as int,
            );
            let lo: usize = if lower { 0 } else { i };
            let hi: usize = if lower { i + 1 } else { m };
            let mut acc: T = T::zero();
            let mut l: usize = lo;
            while l < hi
                invariant
                    lo <= l <= hi <= m,
                    acc == sum_range(term, lo as int, l as int),
                decreases hi - l,
            {
                let pb: usize = full_index(m, n, ldb, l, j);
                proof {
                    lemma_full_region_read(
                        old(b)@,
                        m as int,
                        n as int,
                        ldb as int,
                        val,
                        0,
                        j as int,
                        j as int,
                        done_lo,
                        done_hi,
                        l as int,
                        j as int,
                    );
                }
                if unit && l == i {
                    acc = acc.plus(b[pb]);
                } else {
                    let e: T = tri_op_get(trans, Store::Full, uplo, m, a, lda, i, l);
                    acc = acc.plus(e.times(b[pb]));
                }
                l += 1;
            }
            let p0: usize = full_index(m, n, ldb, i, j);
            proof {
                lemma_full_region_write(
                    old(b)@,
                    m as int,
                    n as int,
                    ldb as int,
                    val,
                    0,
                    j as int,
                    j as int,
                    done_lo,
                    done_hi,
                    i as int,
                );
            }
            b[p0] = alpha.times(acc);
            t += 1;
        }
        proof {
            lemma_full_region_column(
                old(b)@,
                m as int,
                n as int,
                ldb as int,
                val,
                0,
                j as int,
                j as int,
                j + 1,
                rest,
            );
        }
        j += 1;
    }
    proof {
        lemma_full_region_end(old(b)@, m as int, n as int, ldb as int, val, n as int, rest);
    }
}

/// The product with the triangular matrix on the right: the columns of `b`
/// are replaced in the order that the triangle asks for.
#[verifier::loop_isolation(false)]
fn trmm_right<T: Scalar>(
    uplo: Uplo,
    trans: Trans,
    diag: Diag,
    m: usize,
    n: usize,
    alpha: T,
    a: &[T],
    lda: usize,
    b: &mut [T],
    ldb: usize,
)
    requires
        m > 0,
        n > 0,
        matrix_check(a@.len() as int, n as int, n as int, lda as int) is Ok,
        matrix_check(old(b)@.len() as int, m as int, n as int, ldb as int) is Ok,
    ensures
        final(b)@ == trmm_result(
            Side::R,
            diag,
            trans,
            uplo,
            m as int,
            n as int,
            alpha,
            a@,
            lda as int,
            old(b)@,
            ldb as int,
        ),
{
    let ghost val = trmm_elem(
        Side::R,
        diag,
        trans,
        uplo,
        m as int,
        n as int,
        alpha,
        a@,
        lda as int,
        b@,
        ldb as int,
    );
    let b_len: usize = b.len();
    let lower: bool = is_op_lower(uplo, trans);
    let unit: bool = diag.is_unit();
    proof {
        lemma_full_region_start(
            b@,
            m as int,
            n as int,
            ldb as int,
            val,
            if lower { 0 } else { n as int },
            if lower { 0 } else { n - 1 },
            0,
        );
    }
    let mut s: usize = 0;
    while s < n
        invariant
            0 <= s <= n,
            b@.len() == old(b)@.len(),
            b@ == full_region(
                old(b)@,
                m as int,
                n as int,
                ldb as int,
                val,
                if lower { 0 } else { n - s },
                if lower { s as int } else { n as int },
                if lower { s as int } else { n - 1 - s },
                0,
                0,
            ),
        decreases n - s,
    {
        let j: usize = if lower { s } else { n - 1 - s };
        let ghost done_lo: int = if lower { 0 } else { n - s };
        let ghost done_hi: int = if lower { s as int } else { n as int };
        let lo: usize = if lower { j } else { 0 };
        let hi: usize = if lower { n } else { j + 1 };
        let mut i: usize = 0;
        while i < m
            invariant
                0 <= i <= m,
                b@.len() == old(b)@.len(),
                b@ == full_region(
                    old(b)@,
                    m as int,
                    n as int,
                    ldb as int,
                    val,
                    done_lo,
                    done_hi,
                    j as int,
                    0,
                    i as int,
                ),
            decreases m - i,
        {
            let ghost term = trmm_term(
                Side::R,
                diag,
                trans,
                uplo,
                m as int,
                n as int,
                a@,
                lda as int,
                old(b)@,
                ldb as int,
                i as int,
                j as int,
            );
            let mut acc: T = T::zero();
            let mut l: usize = lo;
            while l < hi
                invariant
                    lo <= l <= hi <= n,
                    acc == sum_range(term, lo as int, l as int),
                decreases hi - l,
            {
                let pb: usize = full_index(m, n, ldb, i, l);
                proof {
                    lemma_full_region_read(
                        old(b)@,
                        m as int,
                        n as int,
                        ldb as int,
                        val,
                        done_lo,
                        done_hi,
                        j as int,
                        0,
                        i as int,
                        i as int,
                        l as int,
                    );
                }
                if unit && l == j {
                    acc = acc.plus(b[pb]);
                } else {
                    let e: T = tri_op_get(trans, Store::Full, uplo, n, a, lda, l, j);
                    acc = acc.plus(b[pb].times(e));
                }
                l += 1;
            }
            let p0: usize = full_index(m, n, ldb, i, j);
            proof {
                lemma_full_region_write(
                    old(b)@,
                    m as int,
                    n as int,
                    ldb as int,
                    val,
                    done_lo,
                    done_hi,
                    j as int,
                    0,
                    i as int,
                    i as int,
                );
            }
            b[p0] = alpha.times(acc);
            i += 1;
        }
        proof {
            lemma_full_region_column(
                old(b)@,
                m as int,
                n as int,
                ldb as int,
                val,
                done_lo,
                done_hi,
                j as int,
                if lower { s + 1 } else { n - 2 - s },
                0,
            );
        }
        s += 1;
    }
    proof {
        lemma_full_region_end(
            old(b)@,
            m as int,
            n as int,
            ldb as int,
            val,
            if lower { n as int } else { -1 },
            0,
        );
    }
}

/// Triangular matrix product in place: `b` becomes `alpha * op(a) * b`
/// where `a` stands on the left, `alpha * b * op(a)` where it stands on the
/// right. `b` is `m` by `n`, and the `uplo` triangle of `a` is stored.
pub fn trmm<T: Scalar>(
    side: Side,
    uplo: Uplo,
    transa: Trans,
    diag: Diag,
    m: usize,
    n: usize,
    alpha: T,
    a: &[T],
    lda: usize,
    b: &mut [T],
    ldb: usize,
) -> (r: Result<(), ArgError>)
    ensures
        r == trmm_check(
            side,
            m as int,
            n as int,
            a@.len() as int,
            lda as int,
            old(b)@.len() as int,
            ldb as int,
        ),
        r is Err ==> final(b)@ == old(b)@,
        r is Ok ==> final(b)@ == trmm_result(
            side,
            diag,
            transa,
            uplo,
            m as int,
            n as int,
            alpha,
            a@,
            lda as int,
            old(b)@,
            ldb as int,
        ),
{
    if m == 0 || n == 0 {
        proof {
            lemma_full_written_empty(
                b@,
                m as int,
                n as int,
                ldb as int,
                trmm_elem(
                    side,
                    diag,
                    transa,
                    uplo,
                    m as int,
                    n as int,
                    alpha,
                    a@,
                    lda as int,
                    b@,
                    ldb as int,
                ),
            );
        }
        return Ok(());
    }
    let left: bool = side.is_left();
    let order: usize = if left { m } else { n };
    match check_trmm(side, m, n, a.len(), lda, b.len(), ldb) {
        Err(e) => {
            return Err(e);
        },
        Ok(()) => {},
    }
    if left {
        trmm_left(uplo, transa, diag, m, n, alpha, a, lda, b, ldb);
    } else {
        trmm_right(uplo, transa, diag, m, n, alpha, a, lda, b, ldb);
    }
    Ok(())
}

} // verus!
