use vstd::prelude::*;
use crate::error::ArgError;
use crate::layout::{
    and_then_check, blend_spec, blend_sum, check_matrix, full_at, full_index, full_region,
    full_written, lemma_full_region_column, lemma_full_region_end, lemma_full_region_read,
    lemma_full_region_start, lemma_full_region_write, lemma_full_written_empty, matrix_check,
};
use crate::scalar::Scalar;
use crate::selector::{Side, Uplo};
use crate::sum::sum_range;
use crate::triangle::{sym_at, sym_get, Store};

verus! {

/// The order of the symmetric operand: the number of rows of the product
/// where it stands on the left, of columns where it stands on the right.
pub open spec fn symm_order(side: Side, m: int, n: int) -> int {
    if side.left() {
        m
    } else {
        n
    }
}

/// What the validation of a symmetric matrix product returns. A product with
/// no row or no column is accepted as it is. Otherwise `a`, `b` and `c` are
/// validated in this order.
pub open spec fn symm_check(
    side: Side,
    m: int,
    n: int,
    a_len: int,
    lda: int,
    b_len: int,
    ldb: int,
    c_len: int,
    ldc: int,
) -> Result<(), ArgError> {
    if m == 0 || n == 0 {
        Ok(())
    } else {
        and_then_check(
            matrix_check(a_len, symm_order(side, m, n), symm_order(side, m, n), lda),
            and_then_check(matrix_check(b_len, m, n, ldb), matrix_check(c_len, m, n, ldc)),
        )
    }
}

/// The products that are summed for row `i`, column `j` of `a * b`, or of
/// `b * a` where the symmetric matrix `a` stands on the right.
pub open spec fn symm_term<T: Scalar>(
    herm: bool,
    side: Side,
    uplo: Uplo,
    m: int,
    n: int,
    a: Seq<T>,
    lda: int,
    b: Seq<T>,
    ldb: int,
    i: int,
    j: int,
) -> spec_fn(int) -> T {
    if side.left() {
        |l: int|
            sym_at(herm, Store::Full, uplo, m, a, lda, i, l).times_spec(b[full_at(ldb, l, j)])
    } else {
        |l: int|
            b[full_at(ldb, i, l)].times_spec(sym_at(herm, Store::Full, uplo, n, a, lda, l, j))
    }
}

/// Row `i`, column `j` of `alpha * a * b + beta * c`, or of
/// `alpha * b * a + beta * c`, as a function of `i` and `j`.
pub open spec fn symm_elem<T: Scalar>(
    herm: bool,
    side: Side,
    uplo: Uplo,
    m: int,
    n: int,
    alpha: T,
    a: Seq<T>,
    lda: int,
    b: Seq<T>,
    ldb: int,
    beta: T,
    c: Seq<T>,
    ldc: int,
) -> spec_fn(int, int) -> T {
    |i: int, j: int|
        blend_spec(
            alpha,
            sum_range(
                symm_term(herm, side, uplo, m, n, a, lda, b, ldb, i, j),
                0,
                symm_order(side, m, n),
            ),
            beta,
            c[full_at(ldc, i, j)],
        )
}

/// The buffer of `c` after the product.
pub open spec fn symm_result<T: Scalar>(
    herm: bool,
    side: Side,
    uplo: Uplo,
    m: int,
    n: int,
    alpha: T,
    a: Seq<T>,
    lda: int,
    b: Seq<T>,
    ldb: int,
    beta: T,
    c: Seq<T>,
    ldc: int,
) -> Seq<T> {
    full_written(
        c,
        m,
        n,
        ldc,
        symm_elem(herm, side, uplo, m, n, alpha, a, lda, b, ldb, beta, c, ldc),
    )
}

/// Validates the arguments of a symmetric matrix product.
pub fn check_symm(
    side: Side,
    m: usize,
    n: usize,
    a_len: usize,
    lda: usize,
    b_len: usize,
    ldb: usize,
    c_len: usize,
    ldc: usize,
) -> (r: Result<(), ArgError>)
    ensures
        r == symm_check(
            side,
            m as int,
            n as int,
            a_len as int,
            lda as int,
            b_len as int,
            ldb as int,
            c_len as int,
            ldc as int,
        ),
{
    if m == 0 || n == 0 {
        return Ok(());
    }
    let order: usize = if side.is_left() { m } else { n };
    match check_matrix(a_len, order, order, lda) {
        Err(e) => Err(e),
        Ok(()) => match check_matrix(b_len, m, n, ldb) {
            Err(e) => Err(e),
            Ok(()) => check_matrix(c_len, m, n, ldc),
        },
    }
}

/// Matrix product with a symmetric or Hermitian operand `a`, of which the
/// `uplo` triangle is stored: `c` becomes `alpha * a * b + beta * c` where
/// `a` stands on the left, `alpha * b * a + beta * c` where it stands on
/// the right. `b` and `c` are `m` by `n`.
#[verifier::loop_isolation(false)]
pub fn symmetric_mm<T: Scalar>(
    herm: bool,
    side: Side,
    uplo: Uplo,
    m: usize,
    n: usize,
    alpha: T,
    a: &[T],
    lda: usize,
    b: &[T],
    ldb: usize,
    beta: T,
    c: &mut [T],
    ldc: usize,
) -> (r: Result<(), ArgError>)
    ensures
        r == symm_check(
            side,
            m as int,
            n as int,
            a@.len() as int,
            lda as int,
            b@.len() as int,
            ldb as int,
            old(c)@.len() as int,
            ldc as int,
        ),
        r is Err ==> final(c)@ == old(c)@,
        r is Ok ==> final(c)@ == symm_result(
            herm,
            side,
            uplo,
            m as int,
            n as int,
            alpha,
            a@,
            lda as int,
            b@,
            ldb as int,
            beta,
            old(c)@,
            ldc as int,
        ),
{
    let ghost val = symm_elem(
        herm,
        side,
        uplo,
        m as int,
        n as int,
        alpha,
        a@,
        lda as int,
        b@,
        ldb as int,
        beta,
        c@,
        ldc as int,
    );
    if m == 0 || n == 0 {
        proof {
            lemma_full_written_empty(c@, m as int, n as int, ldc as int, val);
        }
        return Ok(());
    }
    let left: bool = side.is_left();
    let order: usize = if left { m } else { n };
    match check_symm(side, m, n, a.len(), lda, b.len(), ldb, c.len(), ldc) {
        Err(e) => {
            return Err(e);
        },
        Ok(()) => {},
    }
    let b_len: usize = b.len();
    proof {
        lemma_full_region_start(c@, m as int, n as int, ldc as int, val, 0, 0, 0);
    }
    let mut j: usize = 0;
    while j < n
        invariant
            0 <= j <= n,
            c@.len() == old(c)@.len(),
            c@ == full_region(old(c)@, m as int, n as int, ldc as int, val, 0, j as int, j as int, 0, 0),
        decreases n - j,
    {
        let mut i: usize = 0;
        while i < m
            invariant
                0 <= i <= m,
                c@.len() == old(c)@.len(),
                c@ == full_region(
                    old(c)@,
                    m as int,
                    n as int,
                    ldc as int,
                    val,
                    0,
                    j as int,
                    j as int,
                    0,
                    i as int,
                ),
            decreases m - i,
        {
            let ghost term = symm_term(
                herm,
                side,
                uplo,
                m as int,
                n as int,
                a@,
                lda as int,
                b@,
                ldb as int,
                i as int,
                j as int,
            );
            let mut acc: T = T::zero();
            let mut l: usize = 0;
            while l < order
                invariant
                    0 <= l <= order,
                    acc == sum_range(term, 0, l as int),
                decreases order - l,
            {
                if left {
                    let e: T = sym_get(herm, Store::Full, uplo, m, a, lda, i, l);
                    let pb: usize = full_index(m, n, ldb, l, j);
                    acc = acc.plus(e.times(b[pb]));
                } else {
                    let e: T = sym_get(herm, Store::Full, uplo, n, a, lda, l, j);
                    let pb: usize = full_index(m, n, ldb, i, l);
                    acc = acc.plus(b[pb].times(e));
                }
                l += 1;
            }
            let p0: usize = full_index(m, n, ldc, i, j);
            proof {
                lemma_full_region_read(
                    old(c)@,
                    m as int,
                    n as int,
                    ldc as int,
                    val,
                    0,
                    j as int,
                    j as int,
                    0,
                    i as int,
                    i as int,
                    j as int,
                );
                lemma_full_region_write(
                    old(c)@,
                    m as int,
                    n as int,
                    ldc as int,
                    val,
                    0,
                    j as int,
                    j as int,
                    0,
                    i as int,
                    i as int,
                );
            }
            let v: T = blend_sum(alpha.times(acc), beta, c[p0]);
            c[p0] = v;
            i += 1;
        }
        proof {
            lemma_full_region_column(
                old(c)@,
                m as int,
                n as int,
                ldc as int,
                val,
                0,
                j as int,
                j as int,
                j + 1,
                0,
            );
        }
        j += 1;
    }
    proof {
        lemma_full_region_end(old(c)@, m as int, n as int, ldc as int, val, n as int, 0);
    }
    Ok(())
}

/// Matrix product with a symmetric operand: `c` becomes
/// `alpha * a * b + beta * c` or `alpha * b * a + beta * c`.
pub fn symm<T: Scalar>(
    side: Side,
    uplo: Uplo,
    m: usize,
    n: usize,
    alpha: T,
    a: &[T],
    lda: usize,
    b: &[T],
    ldb: usize,
    beta: T,
    c: &mut [T],
    ldc: usize,
) -> (r: Result<(), ArgError>)
    ensures
        r == symm_check(
            side,
            m as int,
            n as int,
            a@.len() as int,
            lda as int,
            b@.len() as int,
            ldb as int,
            old(c)@.len() as int,
            ldc as int,
        ),
        r is Err ==> final(c)@ == old(c)@,
        r is Ok ==> final(c)@ == symm_result(
            false,
            side,
            uplo,
            m as int,
            n as int,
            alpha,
            a@,
            lda as int,
            b@,
            ldb as int,
            beta,
            old(c)@,
            ldc as int,
        ),
{
    symmetric_mm(false, side, uplo, m, n, alpha, a, lda, b, ldb, beta, c, ldc)
}

/// Matrix product with a Hermitian operand: `c` becomes
/// `alpha * a * b + beta * c` or `alpha * b * a + beta * c`.
pub fn hemm<T: Scalar>(
    side: Side,
    uplo: Uplo,
    m: usize,
    n: usize,
    alpha: T,
    a: &[T],
    lda: usize,
    b: &[T],
    ldb: usize,
    beta: T,
    c: &mut [T],
    ldc: usize,
) -> (r: Result<(), ArgError>)
    ensures
        r == symm_check(
            side,
            m as int,
            n as int,
            a@.len() as int,
            lda as int,
            b@.len() as int,
            ldb as int,
            old(c)@.len() as int,
            ldc as int,
        ),
        r is Err ==> final(c)@ == old(c)@,
        r is Ok ==> final(c)@ == symm_result(
            true,
            side,
            uplo,
            m as int,
            n as int,
            alpha,
            a@,
            lda as int,
            b@,
            ldb as int,
            beta,
            old(c)@,
            ldc as int,
        ),
{
    symmetric_mm(true, side, uplo, m, n, alpha, a, lda, b, ldb, beta, c, ldc)
}

} // verus!
