use vstd::prelude::*;
use crate::error::ArgError;
use crate::layout::{
    band_at, check_matrix, full_at, full_holds, full_index, full_len, lemma_full_at,
    lemma_full_holds, matrix_check,
};
use crate::scalar::Scalar;
use crate::selector::{Trans, Uplo};

verus! {

/// How one triangle of a square matrix is stored: in a full matrix, of which
/// the other triangle is never touched; as a band of `k` diagonals beside the
/// main one; or packed, column after column with nothing between them.
#[derive(Clone, Copy, Debug, PartialEq, Eq, Structural)]
pub enum Store {
    Full,
    Band { k: usize },
    Packed,
}

/// The number of elements in a triangle of order `j`.
pub open spec fn triangular(j: int) -> int {
    j * (j + 1) / 2
}

/// The slot of row `i`, column `j` of a packed triangle of order `n`.
pub open spec fn packed_at(uplo: Uplo, n: int, i: int, j: int) -> int {
    match uplo {
        Uplo::U => triangular(j) + i,
        Uplo::L => j * n - triangular(j - 1) + (i - j),
    }
}

/// Whether row `i`, column `j` is physically stored: it lies in the triangle
/// and, in a band, on one of its diagonals.
pub open spec fn tri_stored(store: Store, uplo: Uplo, i: int, j: int) -> bool {
    uplo.holds(i, j) && match store {
        Store::Band { k } => i - j <= k && j - i <= k,
        _ => true,
    }
}

/// The slot of row `i`, column `j` of the stored triangle.
pub open spec fn tri_at(store: Store, uplo: Uplo, n: int, ld: int, i: int, j: int) -> int {
    match store {
        Store::Full => full_at(ld, i, j),
        Store::Band { k } => match uplo {
            Uplo::U => band_at(k as int, ld, i, j),
            Uplo::L => band_at(0, ld, i, j),
        },
        Store::Packed => packed_at(uplo, n, i, j),
    }
}

/// How many slots the store of a triangle of order `n` covers.
pub open spec fn tri_len(store: Store, n: int, ld: int) -> int {
    match store {
        Store::Full => full_len(n, n, ld),
        Store::Band { k } => full_len(k + 1, n, ld),
        Store::Packed => if n <= 0 {
            0
        } else {
            triangular(n)
        },
    }
}

/// What the validation of one stored triangle returns. A packed triangle has
/// no leading dimension: `ld` is not looked at.
pub open spec fn tri_check(len: int, store: Store, n: int, ld: int) -> Result<(), ArgError> {
    match store {
        Store::Full => matrix_check(len, n, n, ld),
        Store::Band { k } => matrix_check(len, k + 1, n, ld),
        Store::Packed => if tri_len(store, n, ld) > len {
            Err(ArgError::BufferTooShort)
        } else {
            Ok(())
        },
    }
}

/// The first column of row `i` that may hold a nonzero element.
pub open spec fn row_lo(store: Store, i: int) -> int {
    match store {
        Store::Band { k } => if i - k > 0 {
            i - k
        } else {
            0
        },
        _ => 0,
    }
}

/// One past the last column of row `i` that may hold a nonzero element.
pub open spec fn row_hi(store: Store, n: int, i: int) -> int {
    match store {
        Store::Band { k } => if i + k + 1 < n {
            i + k + 1
        } else {
            n
        },
        _ => n,
    }
}

/// A triangle of the next order has one more column.
pub proof fn lemma_triangular_step(j: int)
    ensures
        triangular(j + 1) == triangular(j) + j + 1,
{
    assert((j + 1) * (j + 2) == j * (j + 1) + 2 * (j + 1)) by (nonlinear_arith);
}

/// A triangle grows with its order.
pub proof fn lemma_triangular_grows(a: int, b: int)
    requires
        0 <= a <= b,
    ensures
        0 <= triangular(a) <= triangular(b),
    decreases b - a,
{
    if a < b {
        lemma_triangular_grows(a, b - 1);
        lemma_triangular_step(b - 1);
    } else {
        assert(a * (a + 1) >= 0) by (nonlinear_arith)
            requires
                a >= 0,
        ;
    }
}

/// Where column `j` of a packed triangle of order `n` begins.
pub open spec fn packed_column(uplo: Uplo, n: int, j: int) -> int {
    match uplo {
        Uplo::U => triangular(j),
        Uplo::L => j * n - triangular(j - 1),
    }
}

/// How many elements column `j` of a packed triangle of order `n` holds.
pub open spec fn packed_height(uplo: Uplo, n: int, j: int) -> int {
    match uplo {
        Uplo::U => j + 1,
        Uplo::L => n - j,
    }
}

/// The columns of a packed triangle follow each other without a gap.
pub proof fn lemma_packed_column_step(uplo: Uplo, n: int, j: int)
    ensures
        packed_column(uplo, n, j + 1) == packed_column(uplo, n, j) + packed_height(uplo, n, j),
{
    lemma_triangular_step(j);
    lemma_triangular_step(j - 1);
    assert((j + 1) * n == j * n + n) by (nonlinear_arith);
}

/// Twice a triangle of order `j` is `j * (j + 1)`.
pub proof fn lemma_triangular_double(j: int)
    requires
        j >= 0,
    ensures
        2 * triangular(j) == j * (j + 1),
    decreases j,
{
    if j > 0 {
        lemma_triangular_double(j - 1);
        lemma_triangular_step(j - 1);
        assert((j - 1) * (j - 1 + 1) + 2 * j == j * (j + 1)) by (nonlinear_arith);
    } else {
        assert(0 * (0 + 1) == 0);
    }
}

/// No column of a packed triangle begins before the buffer.
pub proof fn lemma_packed_column_first(uplo: Uplo, n: int, j: int)
    requires
        0 <= j <= n,
    ensures
        0 <= packed_column(uplo, n, j),
    decreases j,
{
    if j > 0 {
        lemma_packed_column_first(uplo, n, j - 1);
        lemma_packed_column_step(uplo, n, j - 1);
    } else {
        assert(0 * n == 0);
        assert((0 - 1) * (0 - 1 + 1) == 0) by (nonlinear_arith);
        assert(0 * (0 + 1) == 0);
    }
}

/// A later column of a packed triangle begins where the earlier ones have
/// ended.
pub proof fn lemma_packed_columns(uplo: Uplo, n: int, a: int, b: int)
    requires
        0 <= a < b <= n,
    ensures
        packed_column(uplo, n, a) + packed_height(uplo, n, a) <= packed_column(uplo, n, b),
    decreases b - a,
{
    lemma_packed_column_step(uplo, n, a);
    if a + 1 < b {
        lemma_packed_columns(uplo, n, a + 1, b);
    }
}

/// The columns of a packed triangle fill its length.
pub proof fn lemma_packed_total(uplo: Uplo, n: int)
    requires
        n >= 0,
    ensures
        packed_column(uplo, n, n) == triangular(n),
{
    if n > 0 {
        lemma_triangular_double(n - 1);
        lemma_triangular_double(n);
        assert(2 * (n * n) == (n - 1) * (n - 1 + 1) + n * (n + 1)) by (nonlinear_arith);
    } else {
        assert(0 * n == 0);
        assert((0 - 1) * (0 - 1 + 1) == 0) by (nonlinear_arith);
        assert(0 * (0 + 1) == 0);
    }
}

/// A stored element's slot lies inside the store.
pub proof fn lemma_tri_at(store: Store, uplo: Uplo, n: int, ld: int, i: int, j: int)
    requires
        0 <= i < n,
        0 <= j < n,
        tri_stored(store, uplo, i, j),
        store != Store::Packed ==> tri_check(tri_len(store, n, ld), store, n, ld) is Ok,
    ensures
        0 <= tri_at(store, uplo, n, ld, i, j) < tri_len(store, n, ld),
{
    match store {
        Store::Full => {
            lemma_full_at(n, n, ld, i, j);
        },
        Store::Band { k } => {
            match uplo {
                Uplo::U => {
                    lemma_full_at(k + 1, n, ld, k + i - j, j);
                },
                Uplo::L => {
                    lemma_full_at(k + 1, n, ld, i - j, j);
                },
            }
        },
        Store::Packed => {
            lemma_packed_column_first(uplo, n, j);
            lemma_packed_column_step(uplo, n, j);
            if j + 1 < n {
                lemma_packed_columns(uplo, n, j, n);
            }
            lemma_packed_total(uplo, n);
        },
    }
}

/// The column of a packed triangle that holds slot `p`, looked for from
/// column `j` on.
pub open spec fn packed_col_from(uplo: Uplo, n: int, p: int, j: int) -> int
    decreases n - j,
{
    if j + 1 >= n || p < packed_column(uplo, n, j + 1) {
        j
    } else {
        packed_col_from(uplo, n, p, j + 1)
    }
}

/// The column of the stored element in slot `p`.
pub open spec fn tri_col(store: Store, uplo: Uplo, n: int, ld: int, p: int) -> int {
    match store {
        Store::Packed => packed_col_from(uplo, n, p, 0),
        _ => p / ld,
    }
}

/// The row of the stored element in slot `p`.
pub open spec fn tri_row(store: Store, uplo: Uplo, n: int, ld: int, p: int) -> int {
    let j = tri_col(store, uplo, n, ld, p);
    match store {
        Store::Full => p % ld,
        Store::Band { k } => match uplo {
            Uplo::U => p % ld - k + j,
            Uplo::L => p % ld + j,
        },
        Store::Packed => match uplo {
            Uplo::U => p - packed_column(uplo, n, j),
            Uplo::L => p - packed_column(uplo, n, j) + j,
        },
    }
}

/// Whether slot `p` holds a stored element of the triangle of order `n`.
pub open spec fn tri_holds(store: Store, uplo: Uplo, n: int, ld: int, p: int) -> bool {
    let i = tri_row(store, uplo, n, ld, p);
    let j = tri_col(store, uplo, n, ld, p);
    match store {
        Store::Full => full_holds(n, n, ld, p) && uplo.holds(i, j),
        Store::Band { k } => full_holds(k + 1, n, ld, p) && 0 <= i < n,
        Store::Packed => n > 0 && 0 <= p < triangular(n),
    }
}

/// The column search finds the column whose range holds the slot.
pub proof fn lemma_packed_col_from(uplo: Uplo, n: int, p: int, j: int)
    requires
        0 <= j < n,
        packed_column(uplo, n, j) <= p < triangular(n),
    ensures
        j <= packed_col_from(uplo, n, p, j) < n,
        packed_column(uplo, n, packed_col_from(uplo, n, p, j)) <= p < packed_column(
            uplo,
            n,
            packed_col_from(uplo, n, p, j),
        ) + packed_height(uplo, n, packed_col_from(uplo, n, p, j)),
    decreases n - j,
{
    lemma_packed_column_step(uplo, n, j);
    if j + 1 >= n {
        lemma_packed_total(uplo, n);
    } else if p < packed_column(uplo, n, j + 1) {
    } else {
        lemma_packed_col_from(uplo, n, p, j + 1);
    }
}

/// The column search, begun at or before the column of a slot, ends there.
pub proof fn lemma_packed_col_found(uplo: Uplo, n: int, p: int, j0: int, j: int)
    requires
        0 <= j0 <= j < n,
        packed_column(uplo, n, j) <= p < packed_column(uplo, n, j) + packed_height(uplo, n, j),
    ensures
        packed_col_from(uplo, n, p, j0) == j,
    decreases j - j0,
{
    lemma_packed_column_step(uplo, n, j);
    if j0 < j {
        lemma_packed_columns(uplo, n, j0, j);
        lemma_packed_column_step(uplo, n, j0);
        if j0 + 1 < j {
            lemma_packed_columns(uplo, n, j0 + 1, j);
        }
        lemma_packed_col_found(uplo, n, p, j0 + 1, j);
    }
}

/// A stored element's slot holds it: the slot leads back to its row and
/// column.
pub proof fn lemma_tri_decode(store: Store, uplo: Uplo, n: int, ld: int, i: int, j: int)
    requires
        0 <= i < n,
        0 <= j < n,
        tri_stored(store, uplo, i, j),
        store != Store::Packed ==> tri_check(tri_len(store, n, ld), store, n, ld) is Ok,
    ensures
        0 <= tri_at(store, uplo, n, ld, i, j) < tri_len(store, n, ld),
        tri_holds(store, uplo, n, ld, tri_at(store, uplo, n, ld, i, j)),
        tri_row(store, uplo, n, ld, tri_at(store, uplo, n, ld, i, j)) == i,
        tri_col(store, uplo, n, ld, tri_at(store, uplo, n, ld, i, j)) == j,
{
    lemma_tri_at(store, uplo, n, ld, i, j);
    match store {
        Store::Full => {
            lemma_full_at(n, n, ld, i, j);
        },
        Store::Band { k } => {
            match uplo {
                Uplo::U => {
                    lemma_full_at(k + 1, n, ld, k + i - j, j);
                },
                Uplo::L => {
                    lemma_full_at(k + 1, n, ld, i - j, j);
                },
            }
        },
        Store::Packed => {
            lemma_packed_col_found(uplo, n, tri_at(store, uplo, n, ld, i, j), 0, j);
        },
    }
}

/// A slot that holds a stored element is the slot of its row and column.
pub proof fn lemma_tri_encode(store: Store, uplo: Uplo, n: int, ld: int, p: int)
    requires
        tri_holds(store, uplo, n, ld, p),
        store != Store::Packed ==> tri_check(tri_len(store, n, ld), store, n, ld) is Ok,
    ensures
        0 <= tri_row(store, uplo, n, ld, p) < n,
        0 <= tri_col(store, uplo, n, ld, p) < n,
        tri_stored(store, uplo, tri_row(store, uplo, n, ld, p), tri_col(store, uplo, n, ld, p)),
        tri_at(
            store,
            uplo,
            n,
            ld,
            tri_row(store, uplo, n, ld, p),
            tri_col(store, uplo, n, ld, p),
        ) == p,
{
    match store {
        Store::Full => {
            lemma_full_holds(n, n, ld, p);
        },
        Store::Band { k } => {
            lemma_full_holds(k + 1, n, ld, p);
        },
        Store::Packed => {
            lemma_packed_column_first(uplo, n, 0);
            assert(packed_column(uplo, n, 0) == 0) by {
                assert(0 * n == 0);
                assert((0 - 1) * (0 - 1 + 1) == 0) by (nonlinear_arith);
                assert(0 * (0 + 1) == 0);
            }
            lemma_packed_col_from(uplo, n, p, 0);
        },
    }
}

/// The buffer of a stored triangle after a kernel wrote `val(i, j)` to row
/// `i`, column `j` for each stored element. Every other slot keeps its
/// value: in a full matrix those of the other triangle among them.
pub open spec fn tri_written<T>(
    old_buf: Seq<T>,
    store: Store,
    uplo: Uplo,
    n: int,
    ld: int,
    val: spec_fn(int, int) -> T,
) -> Seq<T> {
    Seq::new(
        old_buf.len(),
        |p: int|
            if tri_holds(store, uplo, n, ld, p) {
                val(tri_row(store, uplo, n, ld, p), tri_col(store, uplo, n, ld, p))
            } else {
                old_buf[p]
            },
    )
}

/// The buffer on the way to `tri_written`, column by column: the columns
/// before `j` are written, and of column `j` the rows before `i`.
pub open spec fn tri_progress<T>(
    old_buf: Seq<T>,
    store: Store,
    uplo: Uplo,
    n: int,
    ld: int,
    val: spec_fn(int, int) -> T,
    i: int,
    j: int,
) -> Seq<T> {
    Seq::new(
        old_buf.len(),
        |p: int|
            if tri_holds(store, uplo, n, ld, p) && (tri_col(store, uplo, n, ld, p) < j || (tri_col(
                store,
                uplo,
                n,
                ld,
                p,
            ) == j && tri_row(store, uplo, n, ld, p) < i)) {
                val(tri_row(store, uplo, n, ld, p), tri_col(store, uplo, n, ld, p))
            } else {
                old_buf[p]
            },
    )
}

/// Nothing is written before the first element.
pub proof fn lemma_tri_progress_start<T>(
    old_buf: Seq<T>,
    store: Store,
    uplo: Uplo,
    n: int,
    ld: int,
    val: spec_fn(int, int) -> T,
)
    requires
        store != Store::Packed ==> tri_check(tri_len(store, n, ld), store, n, ld) is Ok,
    ensures
        tri_progress(old_buf, store, uplo, n, ld, val, 0, 0) == old_buf,
{
    assert forall|p: int| 0 <= p < old_buf.len() implies tri_progress(
        old_buf,
        store,
        uplo,
        n,
        ld,
        val,
        0,
        0,
    )[p] == old_buf[p] by {
        if tri_holds(store, uplo, n, ld, p) {
            lemma_tri_encode(store, uplo, n, ld, p);
        }
    }
    assert(tri_progress(old_buf, store, uplo, n, ld, val, 0, 0) =~= old_buf);
}

/// Writing the stored element at row `i`, column `j`, or passing over a
/// place that is not stored, moves the progress on by one row. The slot of a
/// stored element still holds its old value before.
pub proof fn lemma_tri_progress_step<T>(
    old_buf: Seq<T>,
    store: Store,
    uplo: Uplo,
    n: int,
    ld: int,
    val: spec_fn(int, int) -> T,
    i: int,
    j: int,
)
    requires
        0 <= i < n,
        0 <= j < n,
        store != Store::Packed ==> tri_check(tri_len(store, n, ld), store, n, ld) is Ok,
        tri_len(store, n, ld) <= old_buf.len(),
    ensures
        tri_stored(store, uplo, i, j) ==> tri_progress(old_buf, store, uplo, n, ld, val, i, j)[tri_at(
            store,
            uplo,
            n,
            ld,
            i,
            j,
        )] == old_buf[tri_at(store, uplo, n, ld, i, j)],
        tri_stored(store, uplo, i, j) ==> tri_progress(
            old_buf,
            store,
            uplo,
            n,
            ld,
            val,
            i,
            j,
        ).update(tri_at(store, uplo, n, ld, i, j), val(i, j)) == tri_progress(
            old_buf,
            store,
            uplo,
            n,
            ld,
            val,
            i + 1,
            j,
        ),
        !tri_stored(store, uplo, i, j) ==> tri_progress(old_buf, store, uplo, n, ld, val, i, j)
            == tri_progress(old_buf, store, uplo, n, ld, val, i + 1, j),
{
    let cur = tri_progress(old_buf, store, uplo, n, ld, val, i, j);
    let next = tri_progress(old_buf, store, uplo, n, ld, val, i + 1, j);
    if tri_stored(store, uplo, i, j) {
        let p0 = tri_at(store, uplo, n, ld, i, j);
        lemma_tri_decode(store, uplo, n, ld, i, j);
        assert forall|p: int| 0 <= p < old_buf.len() implies cur.update(p0, val(i, j))[p]
            == next[p] by {
            if p != p0 && tri_holds(store, uplo, n, ld, p) {
                lemma_tri_encode(store, uplo, n, ld, p);
            }
        }
        assert(cur.update(p0, val(i, j)) =~= next);
    } else {
        assert forall|p: int| 0 <= p < old_buf.len() implies cur[p] == next[p] by {
            if tri_holds(store, uplo, n, ld, p) {
                lemma_tri_encode(store, uplo, n, ld, p);
            }
        }
        assert(cur =~= next);
    }
}

/// A finished column is the start of the next one.
pub proof fn lemma_tri_progress_column<T>(
    old_buf: Seq<T>,
    store: Store,
    uplo: Uplo,
    n: int,
    ld: int,
    val: spec_fn(int, int) -> T,
    j: int,
)
    requires
        store != Store::Packed ==> tri_check(tri_len(store, n, ld), store, n, ld) is Ok,
    ensures
        tri_progress(old_buf, store, uplo, n, ld, val, n, j) == tri_progress(
            old_buf,
            store,
            uplo,
            n,
            ld,
            val,
            0,
            j + 1,
        ),
{
    let cur = tri_progress(old_buf, store, uplo, n, ld, val, n, j);
    let next = tri_progress(old_buf, store, uplo, n, ld, val, 0, j + 1);
    assert forall|p: int| 0 <= p < old_buf.len() implies cur[p] == next[p] by {
        if tri_holds(store, uplo, n, ld, p) {
            lemma_tri_encode(store, uplo, n, ld, p);
        }
    }
    assert(cur =~= next);
}

/// After the last column everything is written.
pub proof fn lemma_tri_progress_end<T>(
    old_buf: Seq<T>,
    store: Store,
    uplo: Uplo,
    n: int,
    ld: int,
    val: spec_fn(int, int) -> T,
)
    requires
        store != Store::Packed ==> tri_check(tri_len(store, n, ld), store, n, ld) is Ok,
    ensures
        tri_progress(old_buf, store, uplo, n, ld, val, 0, n) == tri_written(
            old_buf,
            store,
            uplo,
            n,
            ld,
            val,
        ),
{
    let cur = tri_progress(old_buf, store, uplo, n, ld, val, 0, n);
    let next = tri_written(old_buf, store, uplo, n, ld, val);
    assert forall|p: int| 0 <= p < old_buf.len() implies cur[p] == next[p] by {
        if tri_holds(store, uplo, n, ld, p) {
            lemma_tri_encode(store, uplo, n, ld, p);
        }
    }
    assert(cur =~= next);
}

/// A triangle of order zero leaves the buffer as it is.
pub proof fn lemma_tri_written_empty<T>(
    old_buf: Seq<T>,
    store: Store,
    uplo: Uplo,
    n: int,
    ld: int,
    val: spec_fn(int, int) -> T,
)
    requires
        n <= 0,
    ensures
        tri_written(old_buf, store, uplo, n, ld, val) == old_buf,
{
    assert forall|p: int| 0 <= p < old_buf.len() implies !tri_holds(store, uplo, n, ld, p) by {
        if store == Store::Full && full_holds(n, n, ld, p) {
            lemma_full_holds(n, n, ld, p);
        }
    }
    assert(tri_written(old_buf, store, uplo, n, ld, val) =~= old_buf);
}

/// Validates one stored triangle.
pub fn check_tri(len: usize, store: Store, n: usize, ld: usize) -> (r: Result<(), ArgError>)
    ensures
        r == tri_check(len as int, store, n as int, ld as int),
{
    match store {
        Store::Full => check_matrix(len, n, n, ld),
        Store::Band { k } => match k.checked_add(1) {
            None => Err(ArgError::LeadingDimension),
            Some(rows) => check_matrix(len, rows, n, ld),
        },
        Store::Packed => {
            if n == 0 {
                return Ok(());
            }
            let wide: u128 = n as u128;
            assert(wide * (wide + 1) <= 0xffff_ffff_ffff_ffff * 0x1_0000_0000_0000_0000)
                by (nonlinear_arith)
                requires
                    0 <= wide <= 0xffff_ffff_ffff_ffff,
            ;
            let need: u128 = wide * (wide + 1) / 2;
            if need > len as u128 {
                Err(ArgError::BufferTooShort)
            } else {
                Ok(())
            }
        },
    }
}

/// The index of row `i`, column `j` of a packed triangle in its buffer.
pub fn packed_index(uplo: Uplo, n: usize, i: usize, j: usize) -> (p: usize)
    requires
        i < n,
        j < n,
        uplo.holds(i as int, j as int),
        triangular(n as int) <= usize::MAX,
    ensures
        p == packed_at(uplo, n as int, i as int, j as int),
        p < triangular(n as int),
{
    proof {
        lemma_tri_at(Store::Packed, uplo, n as int, 0, i as int, j as int);
        lemma_packed_column_first(uplo, n as int, j as int);
        lemma_triangular_grows(j as int, n as int);
        lemma_triangular_grows(0, j as int);
        if j > 0 {
            lemma_triangular_grows(j as int - 1, n as int);
            lemma_triangular_grows(0, j as int - 1);
            assert((j - 1) * (j - 1 + 1) == (j - 1) * j) by (nonlinear_arith);
        }
    }
    let wide: u128 = j as u128;
    match uplo {
        Uplo::U => {
            assert(wide * (wide + 1) <= 0xffff_ffff_ffff_ffff * 0x1_0000_0000_0000_0000)
                by (nonlinear_arith)
                requires
                    0 <= wide <= 0xffff_ffff_ffff_ffff,
            ;
            let start: u128 = wide * (wide + 1) / 2;
            (start as usize) + i
        },
        Uplo::L => {
            if j == 0 {
                assert(0 * (n as int) == 0);
                assert((0 - 1) * (0 - 1 + 1) == 0) by (nonlinear_arith);
                return i;
            }
            assert((wide - 1) * wide <= 0xffff_ffff_ffff_ffff * 0x1_0000_0000_0000_0000)
                by (nonlinear_arith)
                requires
                    1 <= wide <= 0xffff_ffff_ffff_ffff,
            ;
            assert(wide * (n as u128) <= 0xffff_ffff_ffff_ffff * 0xffff_ffff_ffff_ffff)
                by (nonlinear_arith)
                requires
                    0 <= wide <= 0xffff_ffff_ffff_ffff,
                    0 <= (n as u128) <= 0xffff_ffff_ffff_ffff,
            ;
            let skipped: u128 = (wide - 1) * wide / 2;
            let start: u128 = wide * (n as u128) - skipped;
            (start as usize) + (i - j)
        },
    }
}

/// The index of row `i`, column `j` of the stored triangle in its buffer.
pub fn tri_index(store: Store, uplo: Uplo, n: usize, ld: usize, i: usize, j: usize) -> (p: usize)
    requires
        i < n,
        j < n,
        tri_stored(store, uplo, i as int, j as int),
        tri_len(store, n as int, ld as int) <= usize::MAX,
        store != Store::Packed ==> tri_check(
            tri_len(store, n as int, ld as int),
            store,
            n as int,
            ld as int,
        ) is Ok,
    ensures
        p == tri_at(store, uplo, n as int, ld as int, i as int, j as int),
        p < tri_len(store, n as int, ld as int),
{
    match store {
        Store::Full => full_index(n, n, ld, i, j),
        Store::Band { k } => match uplo {
            Uplo::U => full_index(k + 1, n, ld, k - (j - i), j),
            Uplo::L => full_index(k + 1, n, ld, i - j, j),
        },
        Store::Packed => packed_index(uplo, n, i, j),
    }
}

/// Whether row `i`, column `j` is physically stored.
pub fn is_stored(store: Store, uplo: Uplo, i: usize, j: usize) -> (b: bool)
    ensures
        b == tri_stored(store, uplo, i as int, j as int),
{
    if !uplo.contains(i, j) {
        return false;
    }
    match store {
        Store::Band { k } => if i >= j {
            i - j <= k
        } else {
            j - i <= k
        },
        _ => true,
    }
}

/// The first column of row `i` that may hold a nonzero element.
pub fn row_first(store: Store, i: usize) -> (lo: usize)
    ensures
        lo == row_lo(store, i as int),
{
    match store {
        Store::Band { k } => if i > k {
            i - k
        } else {
            0
        },
        _ => 0,
    }
}

/// One past the last column of row `i` that may hold a nonzero element.
pub fn row_end(store: Store, n: usize, i: usize) -> (hi: usize)
    ensures
        hi == row_hi(store, n as int, i as int),
{
    match store {
        Store::Band { k } => if i < n && n - 1 - i > k {
            i + k + 1
        } else {
            n
        },
        _ => n,
    }
}

/// Element `i`, `j` of the symmetric matrix, or with `herm` of the Hermitian
/// matrix, whose `uplo` triangle is stored. An element of the other triangle
/// is read from its mirror image, conjugated for a Hermitian matrix, and the
/// diagonal of a Hermitian matrix is taken as real.
pub open spec fn sym_at<T: Scalar>(
    herm: bool,
    store: Store,
    uplo: Uplo,
    n: int,
    a: Seq<T>,
    ld: int,
    i: int,
    j: int,
) -> T {
    if i == j {
        if herm {
            a[tri_at(store, uplo, n, ld, i, i)].real_spec()
        } else {
            a[tri_at(store, uplo, n, ld, i, i)]
        }
    } else if uplo.holds(i, j) {
        a[tri_at(store, uplo, n, ld, i, j)]
    } else if herm {
        a[tri_at(store, uplo, n, ld, j, i)].conj_spec()
    } else {
        a[tri_at(store, uplo, n, ld, j, i)]
    }
}

/// Reads element `i`, `j` of a symmetric or Hermitian matrix from its stored
/// triangle.
pub fn sym_get<T: Scalar>(
    herm: bool,
    store: Store,
    uplo: Uplo,
    n: usize,
    a: &[T],
    ld: usize,
    i: usize,
    j: usize,
) -> (v: T)
    requires
        i < n,
        j < n,
        row_lo(store, i as int) <= j < row_hi(store, n as int, i as int),
        tri_check(a@.len() as int, store, n as int, ld as int) is Ok,
    ensures
        v == sym_at(herm, store, uplo, n as int, a@, ld as int, i as int, j as int),
{
    let len: usize = a.len();
    if i == j {
        let p: usize = tri_index(store, uplo, n, ld, i, i);
        if herm {
            a[p].real_part()
        } else {
            a[p]
        }
    } else if uplo.contains(i, j) {
        let p: usize = tri_index(store, uplo, n, ld, i, j);
        a[p]
    } else {
        let p: usize = tri_index(store, uplo, n, ld, j, i);
        if herm {
            a[p].conj()
        } else {
            a[p]
        }
    }
}

/// Whether `op(a)` is lower triangular: the stored triangle is the lower
/// one and stays, or the upper one and is flipped.
pub open spec fn op_lower(uplo: Uplo, trans: Trans) -> bool {
    (uplo == Uplo::L) != trans.flips()
}

/// The first column of row `i` of the triangular `op(a)` that is stored.
pub open spec fn op_lo(store: Store, uplo: Uplo, trans: Trans, i: int) -> int {
    if op_lower(uplo, trans) {
        row_lo(store, i)
    } else {
        i
    }
}

/// One past the last column of row `i` of the triangular `op(a)` that is
/// stored.
pub open spec fn op_hi(store: Store, uplo: Uplo, trans: Trans, n: int, i: int) -> int {
    if op_lower(uplo, trans) {
        i + 1
    } else {
        row_hi(store, n, i)
    }
}

/// Element `i`, `l` of the triangular `op(a)`, read from the stored
/// triangle.
pub open spec fn tri_op_at<T: Scalar>(
    trans: Trans,
    store: Store,
    uplo: Uplo,
    n: int,
    a: Seq<T>,
    ld: int,
    i: int,
    l: int,
) -> T {
    match trans {
        Trans::N => a[tri_at(store, uplo, n, ld, i, l)],
        Trans::T => a[tri_at(store, uplo, n, ld, l, i)],
        Trans::C => a[tri_at(store, uplo, n, ld, l, i)].conj_spec(),
    }
}

/// Whether `op(a)` is lower triangular.
pub fn is_op_lower(uplo: Uplo, trans: Trans) -> (b: bool)
    ensures
        b == op_lower(uplo, trans),
{
    let flip: bool = trans.is_flipped();
    match uplo {
        Uplo::L => !flip,
        Uplo::U => flip,
    }
}

/// The first column of row `i` of the triangular `op(a)` that is stored.
pub fn op_first(store: Store, uplo: Uplo, trans: Trans, i: usize) -> (lo: usize)
    ensures
        lo == op_lo(store, uplo, trans, i as int),
{
    if is_op_lower(uplo, trans) {
        row_first(store, i)
    } else {
        i
    }
}

/// One past the last column of row `i` of the triangular `op(a)` that is
/// stored.
pub fn op_end(store: Store, uplo: Uplo, trans: Trans, n: usize, i: usize) -> (hi: usize)
    requires
        i < n,
    ensures
        hi == op_hi(store, uplo, trans, n as int, i as int),
{
    if is_op_lower(uplo, trans) {
        i + 1
    } else {
        row_end(store, n, i)
    }
}

/// Reads element `i`, `l` of the triangular `op(a)` from the stored
/// triangle.
pub fn tri_op_get<T: Scalar>(
    trans: Trans,
    store: Store,
    uplo: Uplo,
    n: usize,
    a: &[T],
    ld: usize,
    i: usize,
    l: usize,
) -> (v: T)
    requires
        i < n,
        l < n,
        op_lo(store, uplo, trans, i as int) <= l < op_hi(store, uplo, trans, n as int, i as int),
        tri_check(a@.len() as int, store, n as int, ld as int) is Ok,
    ensures
        v == tri_op_at(trans, store, uplo, n as int, a@, ld as int, i as int, l as int),
{
    let len: usize = a.len();
    match trans {
        Trans::N => {
            let p: usize = tri_index(store, uplo, n, ld, i, l);
            a[p]
        },
        Trans::T => {
            let p: usize = tri_index(store, uplo, n, ld, l, i);
            a[p]
        },
        Trans::C => {
            let p: usize = tri_index(store, uplo, n, ld, l, i);
            a[p].conj()
        },
    }
}

} // verus!
