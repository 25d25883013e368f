use vstd::prelude::*;
use crate::error::ArgError;
use crate::scalar::Scalar;
use crate::selector::Trans;
use crate::sum::sum_range;

verus! {

/// The slot of row `i`, column `j` of a full matrix stored column by column
/// with leading dimension `ld`.
pub open spec fn full_at(ld: int, i: int, j: int) -> int {
    i + j * ld
}

/// How many slots a full matrix of `rows` by `cols` covers, from its first
/// slot to its last.
pub open spec fn full_len(rows: int, cols: int, ld: int) -> int {
    if rows <= 0 || cols <= 0 {
        0
    } else {
        (cols - 1) * ld + rows
    }
}

/// Whether slot `p` holds an element of the `rows` by `cols` matrix; the
/// element is then row `p % ld`, column `p / ld`.
pub open spec fn full_holds(rows: int, cols: int, ld: int, p: int) -> bool {
    ld > 0 && 0 <= p && p % ld < rows && p / ld < cols
}

/// What the validation of one full matrix argument returns: the leading
/// dimension is at least one and at least the number of rows, and the matrix
/// fits the buffer.
pub open spec fn matrix_check(len: int, rows: int, cols: int, ld: int) -> Result<(), ArgError> {
    if ld < 1 || ld < rows {
        Err(ArgError::LeadingDimension)
    } else if full_len(rows, cols, ld) > len {
        Err(ArgError::BufferTooShort)
    } else {
        Ok(())
    }
}

/// The first refusal of two validations.
pub open spec fn and_then_check(first: Result<(), ArgError>, second: Result<(), ArgError>) -> Result<
    (),
    ArgError,
> {
    if first is Err {
        first
    } else {
        second
    }
}

/// An element's slot lies inside the matrix's span and leads back to the
/// element.
pub proof fn lemma_full_at(rows: int, cols: int, ld: int, i: int, j: int)
    requires
        0 <= i < rows <= ld,
        0 <= j < cols,
    ensures
        0 <= full_at(ld, i, j) < full_len(rows, cols, ld),
        full_at(ld, i, j) % ld == i,
        full_at(ld, i, j) / ld == j,
        full_holds(rows, cols, ld, full_at(ld, i, j)),
{
    assert(0 <= j * ld <= (cols - 1) * ld) by (nonlinear_arith)
        requires
            0 <= j <= cols - 1,
            ld > 0,
    ;
    assert(i + j * ld == ld * j + i) by (nonlinear_arith);
    vstd::arithmetic::div_mod::lemma_fundamental_div_mod_converse(i + j * ld, ld, j, i);
}

/// A slot that holds an element is the slot of its row and column.
pub proof fn lemma_full_holds(rows: int, cols: int, ld: int, p: int)
    requires
        full_holds(rows, cols, ld, p),
    ensures
        0 <= p % ld < rows,
        0 <= p / ld < cols,
        full_at(ld, p % ld, p / ld) == p,
{
    vstd::arithmetic::div_mod::lemma_fundamental_div_mod(p, ld);
    vstd::arithmetic::div_mod::lemma_div_pos_is_pos(p, ld);
    vstd::arithmetic::div_mod::lemma_mod_bound(p, ld);
    assert(ld * (p / ld) == (p / ld) * ld) by (nonlinear_arith);
}

/// Element `i`, `j` of the operand that `trans` makes of the stored matrix.
pub open spec fn op_at<T: Scalar>(trans: Trans, a: Seq<T>, ld: int, i: int, j: int) -> T {
    match trans {
        Trans::N => a[full_at(ld, i, j)],
        Trans::T => a[full_at(ld, j, i)],
        Trans::C => a[full_at(ld, j, i)].conj_spec(),
    }
}

/// How many rows the stored matrix has when the operand has `rows` by `cols`.
pub open spec fn stored_rows(trans: Trans, rows: int, cols: int) -> int {
    if trans.flips() {
        cols
    } else {
        rows
    }
}

/// How many columns the stored matrix has when the operand has `rows` by
/// `cols`.
pub open spec fn stored_cols(trans: Trans, rows: int, cols: int) -> int {
    if trans.flips() {
        rows
    } else {
        cols
    }
}

/// Validates one full matrix argument.
pub fn check_matrix(len: usize, rows: usize, cols: usize, ld: usize) -> (r: Result<(), ArgError>)
    ensures
        r == matrix_check(len as int, rows as int, cols as int, ld as int),
{
    if ld < 1 || ld < rows {
        return Err(ArgError::LeadingDimension);
    }
    if rows == 0 || cols == 0 {
        return Ok(());
    }
    match (cols - 1).checked_mul(ld) {
        None => {
            assert((cols - 1) * ld + rows > len);
            Err(ArgError::BufferTooShort)
        },
        Some(before) => match before.checked_add(rows) {
            None => Err(ArgError::BufferTooShort),
            Some(need) => {
                if need > len {
                    Err(ArgError::BufferTooShort)
                } else {
                    Ok(())
                }
            },
        },
    }
}

/// The index of row `i`, column `j` in the buffer of a full matrix.
pub fn full_index(rows: usize, cols: usize, ld: usize, i: usize, j: usize) -> (p: usize)
    requires
        i < rows <= ld,
        j < cols,
        full_len(rows as int, cols as int, ld as int) <= usize::MAX,
    ensures
        p == full_at(ld as int, i as int, j as int),
        p < full_len(rows as int, cols as int, ld as int),
{
    proof {
        lemma_full_at(rows as int, cols as int, ld as int, i as int, j as int);
    }
    assert(0 <= j * ld <= (cols - 1) * ld) by (nonlinear_arith)
        requires
            0 <= j <= cols - 1,
            ld > 0,
    ;
    i + j * ld
}

/// Reads element `i`, `j` of the `rows` by `cols` operand that `trans` makes
/// of the stored matrix.
pub fn op_get<T: Scalar>(
    trans: Trans,
    a: &[T],
    rows: usize,
    cols: usize,
    ld: usize,
    i: usize,
    j: usize,
) -> (v: T)
    requires
        i < rows,
        j < cols,
        matrix_check(
            a@.len() as int,
            stored_rows(trans, rows as int, cols as int),
            stored_cols(trans, rows as int, cols as int),
            ld as int,
        ) is Ok,
    ensures
        v == op_at(trans, a@, ld as int, i as int, j as int),
{
    let len: usize = a.len();
    match trans {
        Trans::N => {
            let p: usize = full_index(rows, cols, ld, i, j);
            a[p]
        },
        Trans::T => {
            let p: usize = full_index(cols, rows, ld, j, i);
            a[p]
        },
        Trans::C => {
            let p: usize = full_index(cols, rows, ld, j, i);
            a[p].conj()
        },
    }
}

/// How a general matrix is stored: every element, or only the diagonals
/// within `kl` below and `ku` above the main diagonal.
#[derive(Clone, Copy, Debug, PartialEq, Eq, Structural)]
pub enum Banding {
    Full,
    Band { kl: usize, ku: usize },
}

/// The slot of row `i`, column `j` of a band matrix with `ku` diagonals above
/// the main one: column `j` of the matrix is column `j` of the store, and the
/// main diagonal is its row `ku`.
pub open spec fn band_at(ku: int, ld: int, i: int, j: int) -> int {
    full_at(ld, ku + i - j, j)
}

/// Whether row `i`, column `j` lies on a stored diagonal.
pub open spec fn in_band(kl: int, ku: int, i: int, j: int) -> bool {
    j - ku <= i <= j + kl
}

/// The slot of row `i`, column `j` of a general matrix.
pub open spec fn general_at(band: Banding, ld: int, i: int, j: int) -> int {
    match band {
        Banding::Full => full_at(ld, i, j),
        Banding::Band { kl, ku } => band_at(ku as int, ld, i, j),
    }
}

/// How many rows the store of a general matrix with `m` rows has.
pub open spec fn general_rows(band: Banding, m: int) -> int {
    match band {
        Banding::Full => m,
        Banding::Band { kl, ku } => kl + ku + 1,
    }
}

/// Whether row `i`, column `j` of a general matrix is stored.
pub open spec fn general_stored(band: Banding, i: int, j: int) -> bool {
    match band {
        Banding::Full => true,
        Banding::Band { kl, ku } => in_band(kl as int, ku as int, i, j),
    }
}

/// The first column of row `r` that is stored, or with `flip` the first row
/// of column `r`.
pub open spec fn general_lo(band: Banding, flip: bool, r: int) -> int {
    match band {
        Banding::Full => 0,
        Banding::Band { kl, ku } => {
            let before = if flip { ku as int } else { kl as int };
            if r - before > 0 {
                r - before
            } else {
                0
            }
        },
    }
}

/// One past the last column of row `r` that is stored, or with `flip` one
/// past the last row of column `r`, in a matrix with `count` of them.
pub open spec fn general_hi(band: Banding, flip: bool, count: int, r: int) -> int {
    match band {
        Banding::Full => count,
        Banding::Band { kl, ku } => {
            let after = if flip { kl as int } else { ku as int };
            if r + after + 1 < count {
                r + after + 1
            } else {
                count
            }
        },
    }
}

/// What the validation of one general matrix argument returns.
pub open spec fn general_check(len: int, band: Banding, m: int, n: int, ld: int) -> Result<
    (),
    ArgError,
> {
    matrix_check(len, general_rows(band, m), n, ld)
}

/// Validates one general matrix argument.
pub fn check_general(len: usize, band: Banding, m: usize, n: usize, ld: usize) -> (r: Result<
    (),
    ArgError,
>)
    ensures
        r == general_check(len as int, band, m as int, n as int, ld as int),
{
    match band {
        Banding::Full => check_matrix(len, m, n, ld),
        Banding::Band { kl, ku } => {
            match kl.checked_add(ku) {
                None => Err(ArgError::LeadingDimension),
                Some(both) => match both.checked_add(1) {
                    None => Err(ArgError::LeadingDimension),
                    Some(rows) => check_matrix(len, rows, n, ld),
                },
            }
        },
    }
}

/// The index of row `i`, column `j` of a general matrix in its buffer.
pub fn general_index(band: Banding, m: usize, n: usize, ld: usize, i: usize, j: usize) -> (p: usize)
    requires
        i < m,
        j < n,
        general_stored(band, i as int, j as int),
        general_rows(band, m as int) <= ld,
        full_len(general_rows(band, m as int), n as int, ld as int) <= usize::MAX,
    ensures
        p == general_at(band, ld as int, i as int, j as int),
        p < full_len(general_rows(band, m as int), n as int, ld as int),
{
    match band {
        Banding::Full => full_index(m, n, ld, i, j),
        Banding::Band { kl, ku } => {
            let row: usize = if i >= j {
                ku + (i - j)
            } else {
                ku - (j - i)
            };
            full_index(kl + ku + 1, n, ld, row, j)
        },
    }
}

/// The first index of the stored range of row or column `r`.
pub fn general_first(band: Banding, flip: bool, r: usize) -> (lo: usize)
    ensures
        lo == general_lo(band, flip, r as int),
{
    match band {
        Banding::Full => 0,
        Banding::Band { kl, ku } => {
            let before: usize = if flip { ku } else { kl };
            if r > before {
                r - before
            } else {
                0
            }
        },
    }
}

/// One past the last index of the stored range of row or column `r`.
pub fn general_end(band: Banding, flip: bool, count: usize, r: usize) -> (hi: usize)
    ensures
        hi == general_hi(band, flip, count as int, r as int),
{
    match band {
        Banding::Full => count,
        Banding::Band { kl, ku } => {
            let after: usize = if flip { kl } else { ku };
            if r < count && count - 1 - r > after {
                r + after + 1
            } else {
                count
            }
        },
    }
}

/// The buffer of a full matrix after a kernel wrote `val(i, j)` to row `i`,
/// column `j` for each element of the `rows` by `cols` matrix. Every other
/// slot keeps its value.
pub open spec fn full_written<T>(
    old_buf: Seq<T>,
    rows: int,
    cols: int,
    ld: int,
    val: spec_fn(int, int) -> T,
) -> Seq<T> {
    Seq::new(
        old_buf.len(),
        |p: int|
            if full_holds(rows, cols, ld, p) {
                val(p % ld, p / ld)
            } else {
                old_buf[p]
            },
    )
}

/// The buffer on the way to `full_written`: the columns from `jlo` up to,
/// not including, `jhi` are written, and of column `jcur` the rows from `ilo`
/// up to, not including, `ihi`.
pub open spec fn full_region<T>(
    old_buf: Seq<T>,
    rows: int,
    cols: int,
    ld: int,
    val: spec_fn(int, int) -> T,
    jlo: int,
    jhi: int,
    jcur: int,
    ilo: int,
    ihi: int,
) -> Seq<T> {
    Seq::new(
        old_buf.len(),
        |p: int|
            if full_holds(rows, cols, ld, p) && (jlo <= p / ld < jhi || (p / ld == jcur && ilo <= p
                % ld < ihi)) {
                val(p % ld, p / ld)
            } else {
                old_buf[p]
            },
    )
}

/// With no column and no row written the buffer is as it was.
pub proof fn lemma_full_region_start<T>(
    old_buf: Seq<T>,
    rows: int,
    cols: int,
    ld: int,
    val: spec_fn(int, int) -> T,
    jat: int,
    jcur: int,
    iat: int,
)
    ensures
        full_region(old_buf, rows, cols, ld, val, jat, jat, jcur, iat, iat) == old_buf,
{
    assert(full_region(old_buf, rows, cols, ld, val, jat, jat, jcur, iat, iat) =~= old_buf);
}

/// An element that is not written yet still has its old value.
pub proof fn lemma_full_region_read<T>(
    old_buf: Seq<T>,
    rows: int,
    cols: int,
    ld: int,
    val: spec_fn(int, int) -> T,
    jlo: int,
    jhi: int,
    jcur: int,
    ilo: int,
    ihi: int,
    i: int,
    j: int,
)
    requires
        0 <= i < rows <= ld,
        0 <= j < cols,
        full_len(rows, cols, ld) <= old_buf.len(),
        !(jlo <= j < jhi),
        !(j == jcur && ilo <= i < ihi),
    ensures
        0 <= full_at(ld, i, j) < old_buf.len(),
        full_region(old_buf, rows, cols, ld, val, jlo, jhi, jcur, ilo, ihi)[full_at(ld, i, j)]
            == old_buf[full_at(ld, i, j)],
{
    lemma_full_at(rows, cols, ld, i, j);
}

/// Writing the element of the current column just above the written rows,
/// or just below them, extends the written rows by it.
pub proof fn lemma_full_region_write<T>(
    old_buf: Seq<T>,
    rows: int,
    cols: int,
    ld: int,
    val: spec_fn(int, int) -> T,
    jlo: int,
    jhi: int,
    jcur: int,
    ilo: int,
    ihi: int,
    i: int,
)
    requires
        0 <= i < rows <= ld,
        0 <= jcur < cols,
        full_len(rows, cols, ld) <= old_buf.len(),
        !(jlo <= jcur < jhi),
        ilo <= ihi,
        i == ihi || i == ilo - 1,
    ensures
        full_region(old_buf, rows, cols, ld, val, jlo, jhi, jcur, ilo, ihi).update(
            full_at(ld, i, jcur),
            val(i, jcur),
        ) == full_region(
            old_buf,
            rows,
            cols,
            ld,
            val,
            jlo,
            jhi,
            jcur,
            if i == ihi {
                ilo
            } else {
                i
            },
            if i == ihi {
                i + 1
            } else {
                ihi
            },
        ),
{
    let cur = full_region(old_buf, rows, cols, ld, val, jlo, jhi, jcur, ilo, ihi);
    let next = full_region(
        old_buf,
        rows,
        cols,
        ld,
        val,
        jlo,
        jhi,
        jcur,
        if i == ihi {
            ilo
        } else {
            i
        },
        if i == ihi {
            i + 1
        } else {
            ihi
        },
    );
    let p0 = full_at(ld, i, jcur);
    lemma_full_at(rows, cols, ld, i, jcur);
    assert forall|p: int| 0 <= p < old_buf.len() implies cur.update(p0, val(i, jcur))[p]
        == next[p] by {
        if p != p0 && full_holds(rows, cols, ld, p) {
            lemma_full_holds(rows, cols, ld, p);
        }
    }
    assert(cur.update(p0, val(i, jcur)) =~= next);
}

/// A finished column just above the written columns, or just below them,
/// extends the written columns by it.
pub proof fn lemma_full_region_column<T>(
    old_buf: Seq<T>,
    rows: int,
    cols: int,
    ld: int,
    val: spec_fn(int, int) -> T,
    jlo: int,
    jhi: int,
    jcur: int,
    jnext: int,
    iat: int,
)
    requires
        jlo <= jhi,
        jcur == jhi || jcur == jlo - 1,
        ld > 0 ==> rows <= ld,
    ensures
        full_region(old_buf, rows, cols, ld, val, jlo, jhi, jcur, 0, rows) == full_region(
            old_buf,
            rows,
            cols,
            ld,
            val,
            if jcur == jhi {
                jlo
            } else {
                jcur
            },
            if jcur == jhi {
                jcur + 1
            } else {
                jhi
            },
            jnext,
            iat,
            iat,
        ),
{
    let cur = full_region(old_buf, rows, cols, ld, val, jlo, jhi, jcur, 0, rows);
    let next = full_region(
        old_buf,
        rows,
        cols,
        ld,
        val,
        if jcur == jhi {
            jlo
        } else {
            jcur
        },
        if jcur == jhi {
            jcur + 1
        } else {
            jhi
        },
        jnext,
        iat,
        iat,
    );
    assert forall|p: int| 0 <= p < old_buf.len() implies cur[p] == next[p] by {
        if full_holds(rows, cols, ld, p) {
            lemma_full_holds(rows, cols, ld, p);
        }
    }
    assert(cur =~= next);
}

/// With every column written the buffer is the result.
pub proof fn lemma_full_region_end<T>(
    old_buf: Seq<T>,
    rows: int,
    cols: int,
    ld: int,
    val: spec_fn(int, int) -> T,
    jcur: int,
    iat: int,
)
    ensures
        full_region(old_buf, rows, cols, ld, val, 0, cols, jcur, iat, iat) == full_written(
            old_buf,
            rows,
            cols,
            ld,
            val,
        ),
{
    let cur = full_region(old_buf, rows, cols, ld, val, 0, cols, jcur, iat, iat);
    let next = full_written(old_buf, rows, cols, ld, val);
    assert forall|p: int| 0 <= p < old_buf.len() implies cur[p] == next[p] by {
        if full_holds(rows, cols, ld, p) {
            lemma_full_holds(rows, cols, ld, p);
        }
    }
    assert(cur =~= next);
}

/// A matrix without rows or columns leaves the buffer as it is.
pub proof fn lemma_full_written_empty<T>(
    old_buf: Seq<T>,
    rows: int,
    cols: int,
    ld: int,
    val: spec_fn(int, int) -> T,
)
    requires
        rows <= 0 || cols <= 0,
    ensures
        full_written(old_buf, rows, cols, ld, val) == old_buf,
{
    assert forall|p: int| 0 <= p < old_buf.len() implies !full_holds(rows, cols, ld, p) by {
        if full_holds(rows, cols, ld, p) {
            lemma_full_holds(rows, cols, ld, p);
        }
    }
    assert(full_written(old_buf, rows, cols, ld, val) =~= old_buf);
}

/// What is left in an output slot after `t` is added: `t` alone where `beta`
/// is zero, so that what the slot held is never read, and `t + beta * y`
/// otherwise.
pub open spec fn blend_sum_spec<T: Scalar>(t: T, beta: T, y: T) -> T {
    if beta.is_zero_spec() {
        t
    } else {
        t.plus_spec(beta.times_spec(y))
    }
}

/// The value that a kernel leaves in an output slot: `alpha * s` where `beta`
/// is zero, so that what the slot held is never read, and
/// `alpha * s + beta * y` otherwise.
pub open spec fn blend_spec<T: Scalar>(alpha: T, s: T, beta: T, y: T) -> T {
    blend_sum_spec(alpha.times_spec(s), beta, y)
}

/// The products that are summed for row `i`, column `j` of `op(a) * op(b)`,
/// as a function of the index that the sum runs over.
pub open spec fn product_term<T: Scalar>(
    transa: Trans,
    transb: Trans,
    a: Seq<T>,
    lda: int,
    b: Seq<T>,
    ldb: int,
    i: int,
    j: int,
) -> spec_fn(int) -> T {
    |l: int| op_at(transa, a, lda, i, l).times_spec(op_at(transb, b, ldb, l, j))
}

/// Computes row `i`, column `j` of `op(a) * op(b)`.
pub fn product_sum<T: Scalar>(
    transa: Trans,
    transb: Trans,
    m: usize,
    n: usize,
    k: usize,
    a: &[T],
    lda: usize,
    b: &[T],
    ldb: usize,
    i: usize,
    j: usize,
) -> (acc: T)
    requires
        i < m,
        j < n,
        matrix_check(
            a@.len() as int,
            stored_rows(transa, m as int, k as int),
            stored_cols(transa, m as int, k as int),
            lda as int,
        ) is Ok,
        matrix_check(
            b@.len() as int,
            stored_rows(transb, k as int, n as int),
            stored_cols(transb, k as int, n as int),
            ldb as int,
        ) is Ok,
    ensures
        acc == sum_range(
            product_term(transa, transb, a@, lda as int, b@, ldb as int, i as int, j as int),
            0,
            k as int,
        ),
{
    let ghost term = product_term(transa, transb, a@, lda as int, b@, ldb as int, i as int, j as int);
    let mut acc: T = T::zero();
    let mut l: usize = 0;
    while l < k
        invariant
            0 <= l <= k,
            i < m,
            j < n,
            matrix_check(
                a@.len() as int,
                stored_rows(transa, m as int, k as int),
                stored_cols(transa, m as int, k as int),
                lda as int,
            ) is Ok,
            matrix_check(
                b@.len() as int,
                stored_rows(transb, k as int, n as int),
                stored_cols(transb, k as int, n as int),
                ldb as int,
            ) is Ok,
            term == product_term(transa, transb, a@, lda as int, b@, ldb as int, i as int, j as int),
            acc == sum_range(term, 0, l as int),
        decreases k - l,
    {
        let x: T = op_get(transa, a, m, k, lda, i, l);
        let y: T = op_get(transb, b, k, n, ldb, l, j);
        acc = acc.plus(x.times(y));
        l += 1;
    }
    acc
}

/// Computes what is left in an output slot that held `y` after `t` is added.
/// Where `beta` is zero, `y` is not looked at.
pub fn blend_sum<T: Scalar>(t: T, beta: T, y: T) -> (v: T)
    ensures
        v == blend_sum_spec(t, beta, y),
{
    if beta.is_zero() {
        t
    } else {
        t.plus(beta.times(y))
    }
}

} // verus!
