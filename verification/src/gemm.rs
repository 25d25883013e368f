use vstd::prelude::*;
use crate::error::ArgError;
use crate::layout::{
    and_then_check, blend_spec, blend_sum, check_matrix, full_at, full_index, full_region,
    full_written, lemma_full_region_column, lemma_full_region_end, lemma_full_region_read,
    lemma_full_region_start, lemma_full_region_write, lemma_full_written_empty, matrix_check,
    product_sum, product_term, stored_cols, stored_rows,
};
use crate::scalar::Scalar;
use crate::selector::Trans;
use crate::sum::sum_range;

verus! {

/// What the validation of a general product returns. A product with no row
/// or no column is accepted as it is. Otherwise `a`, `b` and `c` are
/// validated in this order, each as stored.
pub open spec fn gemm_check(
    transa: Trans,
    transb: Trans,
    m: int,
    n: int,
    k: int,
    a_len: int,
    lda: int,
    b_len: int,
    ldb: int,
    c_len: int,
    ldc: int,
) -> Result<(), ArgError> {
    if m == 0 || n == 0 {
        Ok(())
    } else {
        and_then_check(
            matrix_check(a_len, stored_rows(transa, m, k), stored_cols(transa, m, k), lda),
            and_then_check(
                matrix_check(b_len, stored_rows(transb, k, n), stored_cols(transb, k, n), ldb),
                matrix_check(c_len, m, n, ldc),
            ),
        )
    }
}

/// Row `i`, column `j` of `alpha * op(a) * op(b) + beta * c`, as a function
/// of `i` and `j`.
pub open spec fn gemm_elem<T: Scalar>(
    transa: Trans,
    transb: Trans,
    k: int,
    alpha: T,
    a: Seq<T>,
    lda: int,
    b: Seq<T>,
    ldb: int,
    beta: T,
    c: Seq<T>,
    ldc: int,
) -> spec_fn(int, int) -> T {
    |i: int, j: int|
        blend_spec(
            alpha,
            sum_range(product_term(transa, transb, a, lda, b, ldb, i, j), 0, k),
            beta,
            c[full_at(ldc, i, j)],
        )
}

/// Validates the arguments of a general product.
pub fn check_gemm(
    transa: Trans,
    transb: Trans,
    m: usize,
    n: usize,
    k: usize,
    a_len: usize,
    lda: usize,
    b_len: usize,
    ldb: usize,
    c_len: usize,
    ldc: usize,
) -> (r: Result<(), ArgError>)
    ensures
        r == gemm_check(
            transa,
            transb,
            m as int,
            n as int,
            k as int,
            a_len as int,
            lda as int,
            b_len as int,
            ldb as int,
            c_len as int,
            ldc as int,
        ),
{
    if m == 0 || n == 0 {
        return Ok(());
    }
    let flip_a: bool = transa.is_flipped();
    let flip_b: bool = transb.is_flipped();
    match check_matrix(a_len, if flip_a { k } else { m }, if flip_a { m } else { k }, lda) {
        Err(e) => Err(e),
        Ok(()) => match check_matrix(
            b_len,
            if flip_b { n } else { k },
            if flip_b { k } else { n },
            ldb,
        ) {
            Err(e) => Err(e),
            Ok(()) => check_matrix(c_len, m, n, ldc),
        },
    }
}

/// General matrix product: `c` becomes `alpha * op(a) * op(b) + beta * c`,
/// where `op(a)` is `m` by `k`, `op(b)` is `k` by `n` and `c` is `m` by `n`.
/// Where `beta` is zero the old contents of `c` are not read.
#[verifier::loop_isolation(false)]
pub fn gemm<T: Scalar>(
    transa: Trans,
    transb: Trans,
    m: usize,
    n: usize,
    k: usize,
    alpha: T,
    a: &[T],
    lda: usize,
    b: &[T],
    ldb: usize,
    beta: T,
    c: &mut [T],
    ldc: usize,
) -> (r: Result<(), ArgError>)
    ensures
        r == gemm_check(
            transa,
            transb,
            m as int,
            n as int,
            k as int,
            a@.len() as int,
            lda as int,
            b@.len() as int,
            ldb as int,
            old(c)@.len() as int,
            ldc as int,
        ),
        r is Err ==> final(c)@ == old(c)@,
        r is Ok ==> final(c)@ == full_written(
            old(c)@,
            m as int,
            n as int,
            ldc as int,
            gemm_elem(transa, transb, k as int, alpha, a@, lda as int, b@, ldb as int, beta, old(c)@, ldc as int),
        ),
{
    let ghost val = gemm_elem(
        transa,
        transb,
        k as int,
        alpha,
        a@,
        lda as int,
        b@,
        ldb as int,
        beta,
        c@,
        ldc as int,
    );
    if m == 0 || n == 0 {
        proof {
            lemma_full_written_empty(c@, m as int, n as int, ldc as int, val);
        }
        return Ok(());
    }
    match check_gemm(transa, transb, m, n, k, a.len(), lda, b.len(), ldb, c.len(), ldc) {
        Err(e) => {
            return Err(e);
        },
        Ok(()) => {},
    }
    proof {
        lemma_full_region_start(c@, m as int, n as int, ldc as int, val, 0, 0, 0);
    }
    let mut j: usize = 0;
    while j < n
        invariant
            0 <= j <= n,
            c@.len() == old(c)@.len(),
            c@ == full_region(old(c)@, m as int, n as int, ldc as int, val, 0, j as int, j as int, 0, 0),
        decreases n - j,
    {
        let mut i: usize = 0;
        while i < m
            invariant
                0 <= i <= m,
                c@.len() == old(c)@.len(),
                c@ == full_region(
                    old(c)@,
                    m as int,
                    n as int,
                    ldc as int,
                    val,
                    0,
                    j as int,
                    j as int,
                    0,
                    i as int,
                ),
            decreases m - i,
        {
            let acc: T = product_sum(transa, transb, m, n, k, a, lda, b, ldb, i, j);
            let p0: usize = full_index(m, n, ldc, i, j);
            proof {
                lemma_full_region_read(
                    old(c)@,
                    m as int,
                    n as int,
                    ldc as int,
                    val,
                    0,
                    j as int,
                    j as int,
                    0,
                    i as int,
                    i as int,
                    j as int,
                );
                lemma_full_region_write(
                    old(c)@,
                    m as int,
                    n as int,
                    ldc as int,
                    val,
                    0,
                    j as int,
                    j as int,
                    0,
                    i as int,
                    i as int,
                );
            }
            let v: T = blend_sum(alpha.times(acc), beta, c[p0]);
            c[p0] = v;
            i += 1;
        }
        proof {
            lemma_full_region_column(
                old(c)@,
                m as int,
                n as int,
                ldc as int,
                val,
                0,
                j as int,
                j as int,
                j + 1,
                0,
            );
        }
        j += 1;
    }
    proof {
        lemma_full_region_end(old(c)@, m as int, n as int, ldc as int, val, n as int, 0);
    }
    Ok(())
}

} // verus!
