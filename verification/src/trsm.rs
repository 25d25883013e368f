use vstd::prelude::*;
use crate::error::ArgError;
use crate::layout::{full_at, full_index, matrix_check};
use crate::scalar::{Field, Scalar};
use crate::selector::{Diag, Side, Trans, Uplo};
use crate::sum::sum_range;
use crate::triangle::{is_op_lower, op_lower, tri_op_at, tri_op_get, Store};
use crate::trmm::{check_trmm, trmm_check, trmm_order};

verus! {

/// The column of `b` that is solved as the `s`-th. On the left the columns
/// do not depend on each other and are taken in order. On the right each
/// column needs those that `op(a)` joins to it: they are taken from the last
/// on where `op(a)` is lower triangular, from the first on where it is upper
/// triangular.
pub open spec fn trsm_col(side: Side, uplo: Uplo, trans: Trans, n: int, s: int) -> int {
    if side.left() || !op_lower(uplo, trans) {
        s
    } else {
        n - 1 - s
    }
}

/// The row of a column that is solved as the `t`-th. On the right the rows
/// do not depend on each other and are taken in order. On the left they are
/// taken from the first on where `op(a)` is lower triangular, from the last
/// on where it is upper triangular.
pub open spec fn trsm_row(side: Side, uplo: Uplo, trans: Trans, m: int, t: int) -> int {
    if !side.left() || op_lower(uplo, trans) {
        t
    } else {
        m - 1 - t
    }
}

/// The first index of the solved elements that row `i`, column `j` depends
/// on.
pub open spec fn trsm_lo(side: Side, uplo: Uplo, trans: Trans, i: int, j: int) -> int {
    if side.left() {
        if op_lower(uplo, trans) {
            0
        } else {
            i + 1
        }
    } else if op_lower(uplo, trans) {
        j + 1
    } else {
        0
    }
}

/// One past the last index of the solved elements that row `i`, column `j`
/// depends on.
pub open spec fn trsm_hi(side: Side, uplo: Uplo, trans: Trans, m: int, n: int, i: int, j: int) -> int {
    if side.left() {
        if op_lower(uplo, trans) {
            i
        } else {
            m
        }
    } else if op_lower(uplo, trans) {
        n
    } else {
        j
    }
}

/// The products that a substitution step takes away from row `i`, column
/// `j`.
pub open spec fn trsm_term<T: Scalar>(
    side: Side,
    trans: Trans,
    uplo: Uplo,
    m: int,
    n: int,
    a: Seq<T>,
    lda: int,
    b: Seq<T>,
    ldb: int,
    i: int,
    j: int,
) -> spec_fn(int) -> T {
    if side.left() {
        |l: int|
            tri_op_at(trans, Store::Full, uplo, m, a, lda, i, l).times_spec(b[full_at(ldb, l, j)])
    } else {
        |l: int|
            b[full_at(ldb, i, l)].times_spec(tri_op_at(trans, Store::Full, uplo, n, a, lda, l, j))
    }
}

/// The diagonal element of `op(a)` that row `i`, column `j` is divided by.
pub open spec fn trsm_pivot<T: Scalar>(
    side: Side,
    trans: Trans,
    uplo: Uplo,
    m: int,
    n: int,
    a: Seq<T>,
    lda: int,
    i: int,
    j: int,
) -> T {
    if side.left() {
        tri_op_at(trans, Store::Full, uplo, m, a, lda, i, i)
    } else {
        tri_op_at(trans, Store::Full, uplo, n, a, lda, j, j)
    }
}

/// Row `i`, column `j` of the solution, from a buffer in which the elements
/// that it depends on are solved: what is left of `alpha * b[i, j]` after
/// their products are taken away, divided by the diagonal element unless the
/// diagonal is unit, in which case it is not read.
pub open spec fn trsm_solved<T: Field>(
    side: Side,
    diag: Diag,
    trans: Trans,
    uplo: Uplo,
    m: int,
    n: int,
    alpha: T,
    a: Seq<T>,
    lda: int,
    b: Seq<T>,
    ldb: int,
    i: int,
    j: int,
) -> T {
    let rest = alpha.times_spec(b[full_at(ldb, i, j)]).minus_spec(
        sum_range(
            trsm_term(side, trans, uplo, m, n, a, lda, b, ldb, i, j),
            trsm_lo(side, uplo, trans, i, j),
            trsm_hi(side, uplo, trans, m, n, i, j),
        ),
    );
    if diag.unit() {
        rest
    } else {
        rest.over_spec(trsm_pivot(side, trans, uplo, m, n, a, lda, i, j))
    }
}

/// The buffer of `b` after the first `t` rows of the `s`-th column are
/// solved, starting from the buffer `b`.
pub open spec fn trsm_column<T: Field>(
    side: Side,
    diag: Diag,
    trans: Trans,
    uplo: Uplo,
    m: int,
    n: int,
    alpha: T,
    a: Seq<T>,
    lda: int,
    b: Seq<T>,
    ldb: int,
    s: int,
    t: int,
) -> Seq<T>
    decreases t,
{
    if t <= 0 {
        b
    } else {
        let before = trsm_column(side, diag, trans, uplo, m, n, alpha, a, lda, b, ldb, s, t - 1);
        let i = trsm_row(side, uplo, trans, m, t - 1);
        let j = trsm_col(side, uplo, trans, n, s);
        before.update(
            full_at(ldb, i, j),
            trsm_solved(side, diag, trans, uplo, m, n, alpha, a, lda, before, ldb, i, j),
        )
    }
}

/// The buffer of `b` after the first `s` columns are solved. Each step
/// writes one element's slot; every other slot keeps its value.
pub open spec fn trsm_steps<T: Field>(
    side: Side,
    diag: Diag,
    trans: Trans,
    uplo: Uplo,
    m: int,
    n: int,
    alpha: T,
    a: Seq<T>,
    lda: int,
    b: Seq<T>,
    ldb: int,
    s: int,
) -> Seq<T>
    decreases s,
{
    if s <= 0 {
        b
    } else {
        trsm_column(
            side,
            diag,
            trans,
            uplo,
            m,
            n,
            alpha,
            a,
            lda,
            trsm_steps(side, diag, trans, uplo, m, n, alpha, a, lda, b, ldb, s - 1),
            ldb,
            s - 1,
            m,
        )
    }
}

/// The buffer of `b` after the solve: as it was where it has no row or no
/// column, and otherwise with every column solved.
pub open spec fn trsm_result<T: Field>(
    side: Side,
    diag: Diag,
    trans: Trans,
    uplo: Uplo,
    m: int,
    n: int,
    alpha: T,
    a: Seq<T>,
    lda: int,
    b: Seq<T>,
    ldb: int,
) -> Seq<T> {
    if m == 0 || n == 0 {
        b
    } else {
        trsm_steps(side, diag, trans, uplo, m, n, alpha, a, lda, b, ldb, n)
    }
}

/// Solves row `i`, column `j` from a buffer in which the elements that it
/// depends on are solved.
fn trsm_solve<T: Field>(
    side: Side,
    uplo: Uplo,
    trans: Trans,
    diag: Diag,
    m: usize,
    n: usize,
    alpha: T,
    a: &[T],
    lda: usize,
    b: &[T],
    ldb: usize,
    i: usize,
    j: usize,
) -> (v: T)
    requires
        i < m,
        j < n,
        matrix_check(
            a@.len() as int,
            trmm_order(side, m as int, n as int),
            trmm_order(side, m as int, n as int),
            lda as int,
        ) is Ok,
        matrix_check(b@.len() as int, m as int, n as int, ldb as int) is Ok,
    ensures
        v == trsm_solved(
            side,
            diag,
            trans,
            uplo,
            m as int,
            n as int,
            alpha,
            a@,
            lda as int,
            b@,
            ldb as int,
            i as int,
            j as int,
        ),
{
    let b_len: usize = b.len();
    let left: bool = side.is_left();
    let lower: bool = is_op_lower(uplo, trans);
    let order: usize = if left { m } else { n };
    let ghost term = trsm_term(
        side,
        trans,
        uplo,
        m as int,
        n as int,
        a@,
        lda as int,
        b@,
        ldb as int,
        i as int,
        j as int,
    );
    let lo: usize = if left {
        if lower { 0 } else { i + 1 }
    } else if lower {
        j + 1
    } else {
        0
    };
    let hi: usize = if left {
        if lower { i } else { m }
    } else if lower {
        n
    } else {
        j
    };
    let mut acc: T = T::zero();
    let mut l: usize = if lo < hi { lo } else { hi };
    while l < hi
        invariant
            l <= hi <= order,
            hi <= lo ==> l >= hi,
            lo < hi ==> lo <= l,
            i < m,
            j < n,
            left == side.left(),
            lower == op_lower(uplo, trans),
            order == trmm_order(side, m as int, n as int),
            lo == trsm_lo(side, uplo, trans, i as int, j as int),
            hi == trsm_hi(side, uplo, trans, m as int, n as int, i as int, j as int),
            matrix_check(a@.len() as int, order as int, order as int, lda as int) is Ok,
            matrix_check(b@.len() as int, m as int, n as int, ldb as int) is Ok,
            b@.len() <= usize::MAX,
            term == trsm_term(
                side,
                trans,
                uplo,
                m as int,
                n as int,
                a@,
                lda as int,
                b@,
                ldb as int,
                i as int,
                j as int,
            ),
            acc == sum_range(term, lo as int, l as int),
        decreases hi - l,
    {
        if left {
            let e: T = tri_op_get(trans, Store::Full, uplo, m, a, lda, i, l);
            let pb: usize = full_index(m, n, ldb, l, j);
            acc = acc.plus(e.times(b[pb]));
        } else {
            let e: T = tri_op_get(trans, Store::Full, uplo, n, a, lda, l, j);
            let pb: usize = full_index(m, n, ldb, i, l);
            acc = acc.plus(b[pb].times(e));
        }
        l += 1;
    }
    let p0: usize = full_index(m, n, ldb, i, j);
    let rest: T = alpha.times(b[p0]).minus(acc);
    if diag.is_unit() {
        rest
    } else if left {
        rest.over(tri_op_get(trans, Store::Full, uplo, m, a, lda, i, i))
    } else {
        rest.over(tri_op_get(trans, Store::Full, uplo, n, a, lda, j, j))
    }
}

/// Triangular solve with a matrix of right-hand sides, in place: `b` becomes
/// the solution `z` of `op(a) * z = alpha * b` where `a` stands on the left,
/// of `z * op(a) = alpha * b` where it stands on the right, by substitution.
/// A zero on the diagonal is no error: the division is the scalar's own.
pub fn trsm<T: Field>(
    side: Side,
    uplo: Uplo,
    transa: Trans,
    diag: Diag,
    m: usize,
    n: usize,
    alpha: T,
    a: &[T],
    lda: usize,
    b: &mut [T],
    ldb: usize,
) -> (r: Result<(), ArgError>)
    ensures
        r == trmm_check(
            side,
            m as int,
            n as int,
            a@.len() as int,
            lda as int,
            old(b)@.len() as int,
            ldb as int,
        ),
        r is Err ==> final(b)@ == old(b)@,
        r is Ok ==> final(b)@ == trsm_result(
            side,
            diag,
            transa,
            uplo,
            m as int,
            n as int,
            alpha,
            a@,
            lda as int,
            old(b)@,
            ldb as int,
        ),
{
    if m == 0 || n == 0 {
        return Ok(());
    }
    let left: bool = side.is_left();
    let order: usize = if left { m } else { n };
    match check_trmm(side, m, n, a.len(), lda, b.len(), ldb) {
        Err(e) => {
            return Err(e);
        },
        Ok(()) => {},
    }
    let lower: bool = is_op_lower(uplo, transa);
    let mut s: usize = 0;
    while s < n
        invariant
            0 <= s <= n,
            m > 0,
            left == side.left(),
            lower == op_lower(uplo, transa),
            b@.len() == old(b)@.len(),
            b@.len() <= usize::MAX,
            matrix_check(
                a@.len() as int,
                trmm_order(side, m as int, n as int),
                trmm_order(side, m as int, n as int),
                lda as int,
            ) is Ok,
            matrix_check(b@.len() as int, m as int, n as int, ldb as int) is Ok,
            b@ == trsm_steps(
                side,
                diag,
                transa,
                uplo,
                m as int,
                n as int,
                alpha,
                a@,
                lda as int,
                old(b)@,
                ldb as int,
                s as int,
            ),
        decreases n - s,
    {
        let j: usize = if left || !lower { s } else { n - 1 - s };
        let ghost start = b@;
        let mut t: usize = 0;
        while t < m
            invariant
                0 <= t <= m,
                s < n,
                j < n,
                j == trsm_col(side, uplo, transa, n as int, s as int),
                left == side.left(),
                lower == op_lower(uplo, transa),
                b@.len() == old(b)@.len(),
                b@.len() <= usize::MAX,
                matrix_check(
                    a@.len() as int,
                    trmm_order(side, m as int, n as int),
                    trmm_order(side, m as int, n as int),
                    lda as int,
                ) is Ok,
                matrix_check(b@.len() as int, m as int, n as int, ldb as int) is Ok,
                b@ == trsm_column(
                    side,
                    diag,
                    transa,
                    uplo,
                    m as int,
                    n as int,
                    alpha,
                    a@,
                    lda as int,
                    start,
                    ldb as int,
                    s as int,
                    t as int,
                ),
            decreases m - t,
        {
            let i: usize = if !left || lower { t } else { m - 1 - t };
            let v: T = trsm_solve(side, uplo, transa, diag, m, n, alpha, a, lda, b, ldb, i, j);
            let p0: usize = full_index(m, n, ldb, i, j);
            b[p0] = v;
            t += 1;
        }
        s += 1;
    }
    Ok(())
}

} // verus!
