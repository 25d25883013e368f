use vstd::prelude::*;
use crate::gemm::gemm_elem;
use crate::givens::rotg_spec;
use crate::gemv::{gemv_elem, gemv_len_x, gemv_len_y, gemv_result, gemv_term};
use crate::layout::{
    full_at, general_hi, general_lo, general_stored, lemma_full_at, matrix_check, op_at,
    product_term, Banding,
};
use crate::level1::{axpy_result, dot_term, element, first_greatest, pair_check};
use crate::ring::{lemma_crop_in_range, lemma_crop_shift, range64, CommutativeRing};
use crate::scalar::{
    herm_conj, magnitude_spec, ExactRing, Field, Magnitude, Real, Scalar, WeakOrder,
};
use crate::selector::{Diag, Trans, Uplo};
use crate::stride::{
    element_of, gather, is_slot, lemma_element_of, lemma_slot, lemma_vec_progress_end,
    lemma_vec_progress_start, lemma_vec_progress_step, lemma_vec_progress_undo, slot, vec_progress,
    vec_written, vector_check,
};
use crate::sum::{lemma_sum_range_agree, sum_range};
use crate::syrk::syrk_result;
use crate::triangle::{
    lemma_packed_columns, op_hi, op_lower, tri_at, tri_check, tri_len, tri_op_at, tri_stored,
    Store,
};
use crate::trmv::{trmv_elem, trmv_result, trmv_term};
use crate::trsv::{beside_hi, beside_lo, trsv_solved, trsv_steps, trsv_target, trsv_term};

verus! {

/// What a kernel wrote to the elements of a view is what the view holds
/// afterwards.
pub proof fn lemma_written_is_read<T>(old_buf: Seq<T>, n: int, inc: int, val: spec_fn(int) -> T)
    requires
        n >= 0,
        vector_check(old_buf.len() as int, n, inc) is Ok,
    ensures
        gather(vec_written(old_buf, n, inc, val), n, inc) == Seq::new(n as nat, val),
{
    let after = vec_written(old_buf, n, inc, val);
    assert forall|i: int| 0 <= i < n implies gather(after, n, inc)[i] == val(i) by {
        lemma_slot(n, inc, i);
    }
    assert(gather(after, n, inc) =~= Seq::new(n as nat, val));
}

/// Exchanging two vectors twice restores both buffers.
pub proof fn lemma_swap_twice<T>(n: int, x: Seq<T>, incx: int, y: Seq<T>, incy: int)
    requires
        n >= 0,
        pair_check(n, x.len() as int, incx, y.len() as int, incy) is Ok,
    ensures
        ({
            let x1 = vec_written(x, n, incx, element(n, y, incy));
            let y1 = vec_written(y, n, incy, element(n, x, incx));
            &&& vec_written(x1, n, incx, element(n, y1, incy)) == x
            &&& vec_written(y1, n, incy, element(n, x1, incx)) == y
        }),
{
    let x1 = vec_written(x, n, incx, element(n, y, incy));
    let y1 = vec_written(y, n, incy, element(n, x, incx));
    let x2 = vec_written(x1, n, incx, element(n, y1, incy));
    let y2 = vec_written(y1, n, incy, element(n, x1, incx));
    assert forall|p: int| 0 <= p < x.len() implies x2[p] == x[p] by {
        if is_slot(n, incx, p) {
            lemma_element_of(n, incx, p);
            lemma_slot(n, incy, element_of(n, incx, p));
        }
    }
    assert(x2 =~= x);
    assert forall|p: int| 0 <= p < y.len() implies y2[p] == y[p] by {
        if is_slot(n, incy, p) {
            lemma_element_of(n, incy, p);
            lemma_slot(n, incx, element_of(n, incy, p));
        }
    }
    assert(y2 =~= y);
}

/// After `x` is copied to `z` and then exchanged with `y`, the view of `y`
/// holds what the view of `z` holds, element for element, and the view of `x`
/// holds what that of `y` held.
pub proof fn lemma_copy_then_swap<T>(
    n: int,
    x: Seq<T>,
    incx: int,
    y: Seq<T>,
    incy: int,
    z: Seq<T>,
    incz: int,
)
    requires
        n >= 0,
        pair_check(n, x.len() as int, incx, y.len() as int, incy) is Ok,
        pair_check(n, x.len() as int, incx, z.len() as int, incz) is Ok,
    ensures
        ({
            let z1 = vec_written(z, n, incz, element(n, x, incx));
            let x1 = vec_written(x, n, incx, element(n, y, incy));
            let y1 = vec_written(y, n, incy, element(n, x, incx));
            &&& gather(y1, n, incy) == gather(z1, n, incz)
            &&& gather(y1, n, incy) == gather(x, n, incx)
            &&& gather(x1, n, incx) == gather(y, n, incy)
        }),
{
    if n > 0 {
        lemma_written_is_read(z, n, incz, element(n, x, incx));
        lemma_written_is_read(y, n, incy, element(n, x, incx));
        lemma_written_is_read(x, n, incx, element(n, y, incy));
    }
    let z1 = vec_written(z, n, incz, element(n, x, incx));
    let x1 = vec_written(x, n, incx, element(n, y, incy));
    let y1 = vec_written(y, n, incy, element(n, x, incx));
    assert(gather(y1, n, incy) =~= gather(z1, n, incz));
    assert(gather(y1, n, incy) =~= gather(x, n, incx));
    assert(gather(x1, n, incx) =~= gather(y, n, incy));
}

/// A linear combination with a zero factor leaves `y` as it is, whatever `x`
/// holds.
pub proof fn lemma_axpy_zero<T: Scalar>(n: int, alpha: T, x: Seq<T>, incx: int, y: Seq<T>, incy: int)
    requires
        alpha.is_zero_spec(),
    ensures
        axpy_result(n, alpha, x, incx, y, incy) == y,
{
}

/// A sum of products with a column of the identity matrix is the one factor
/// that meets the one.
proof fn lemma_sum_with_unit<T: ExactRing>(f: spec_fn(int) -> T, v: T, j: int, hi: int)
    requires
        0 <= j,
        forall|l: int|
            0 <= l < hi ==> #[trigger] f(l) == if l == j {
                v
            } else {
                T::zero_spec()
            },
    ensures
        sum_range(f, 0, hi) == if j < hi {
            v
        } else {
            T::zero_spec()
        },
    decreases hi,
{
    if hi > 0 {
        lemma_sum_with_unit(f, v, j, hi - 1);
        T::lemma_plus_zero(v);
        T::lemma_plus_zero(T::zero_spec());
    }
}

/// The product of a matrix with the identity matrix, scaled by one and with
/// `beta` zero, is the matrix: every element of the result is the element of
/// `op(a)`, whatever `c` held.
pub proof fn lemma_gemm_identity<T: ExactRing>(
    transa: Trans,
    transb: Trans,
    m: int,
    n: int,
    a: Seq<T>,
    lda: int,
    b: Seq<T>,
    ldb: int,
    beta: T,
    c: Seq<T>,
    ldc: int,
    i: int,
    j: int,
)
    requires
        0 <= i < m,
        0 <= j < n,
        beta.is_zero_spec(),
        forall|l: int, q: int|
            0 <= l < n && 0 <= q < n ==> #[trigger] op_at(transb, b, ldb, l, q) == if l == q {
                T::one_spec()
            } else {
                T::zero_spec()
            },
    ensures
        gemm_elem(transa, transb, n, T::one_spec(), a, lda, b, ldb, beta, c, ldc)(i, j) == op_at(
            transa,
            a,
            lda,
            i,
            j,
        ),
{
    let term = product_term(transa, transb, a, lda, b, ldb, i, j);
    let v = op_at(transa, a, lda, i, j);
    assert forall|l: int| 0 <= l < n implies #[trigger] term(l) == if l == j {
        v
    } else {
        T::zero_spec()
    } by {
        assert(op_at(transb, b, ldb, l, j) == if l == j {
            T::one_spec()
        } else {
            T::zero_spec()
        });
        T::lemma_times_one(op_at(transa, a, lda, i, l));
        T::lemma_times_zero(op_at(transa, a, lda, i, l));
    }
    lemma_sum_with_unit(term, v, j, n);
    T::lemma_times_one(v);
}

/// A rank-k update writes the designated triangle only: the slot of every
/// element of the other triangle holds afterwards what it held before.
pub proof fn lemma_syrk_keeps_other_triangle<T: Scalar>(
    herm: bool,
    uplo: Uplo,
    trans: Trans,
    n: int,
    k: int,
    alpha: T,
    a: Seq<T>,
    lda: int,
    beta: T,
    c: Seq<T>,
    ldc: int,
    i: int,
    j: int,
)
    requires
        0 <= i < n,
        0 <= j < n,
        !uplo.holds(i, j),
        matrix_check(c.len() as int, n, n, ldc) is Ok,
    ensures
        syrk_result(herm, uplo, trans, n, k, alpha, a, lda, beta, c, ldc)[full_at(ldc, i, j)]
            == c[full_at(ldc, i, j)],
{
    lemma_full_at(n, n, ldc, i, j);
}

/// A band matrix-vector product reads the stored diagonals only: two buffers
/// that agree on the slot of every element inside the band give the same
/// result, whatever else they hold.
pub proof fn lemma_gbmv_reads_band_only<T: Scalar>(
    trans: Trans,
    m: int,
    n: int,
    kl: usize,
    ku: usize,
    alpha: T,
    a1: Seq<T>,
    a2: Seq<T>,
    lda: int,
    x: Seq<T>,
    incx: int,
    beta: T,
    y: Seq<T>,
    incy: int,
)
    requires
        m >= 0,
        n >= 0,
        forall|i: int, j: int|
            0 <= i < m && 0 <= j < n && general_stored(Banding::Band { kl, ku }, i, j)
                ==> #[trigger] a1[crate::layout::general_at(Banding::Band { kl, ku }, lda, i, j)]
                == a2[crate::layout::general_at(Banding::Band { kl, ku }, lda, i, j)],
    ensures
        gemv_result(Banding::Band { kl, ku }, trans, m, n, alpha, a1, lda, x, incx, beta, y, incy)
            == gemv_result(
            Banding::Band { kl, ku },
            trans,
            m,
            n,
            alpha,
            a2,
            lda,
            x,
            incx,
            beta,
            y,
            incy,
        ),
{
    let band = Banding::Band { kl, ku };
    if m != 0 && n != 0 {
        let len_y = gemv_len_y(trans, m, n);
        let len_x = gemv_len_x(trans, m, n);
        let v1 = gemv_elem(band, trans, m, n, alpha, a1, lda, x, incx, beta, y, incy);
        let v2 = gemv_elem(band, trans, m, n, alpha, a2, lda, x, incx, beta, y, incy);
        assert forall|r: int| 0 <= r < len_y implies #[trigger] v1(r) == v2(r) by {
            let t1 = gemv_term(band, trans, m, n, a1, lda, x, incx, r);
            let t2 = gemv_term(band, trans, m, n, a2, lda, x, incx, r);
            let lo = general_lo(band, trans.flips(), r);
            let hi = general_hi(band, trans.flips(), len_x, r);
            assert forall|l: int| lo <= l < hi implies #[trigger] t1(l) == t2(l) by {
                if trans.flips() {
                    assert(general_stored(band, l, r));
                    assert(a1[crate::layout::general_at(band, lda, l, r)]
                        == a2[crate::layout::general_at(band, lda, l, r)]);
                } else {
                    assert(general_stored(band, r, l));
                    assert(a1[crate::layout::general_at(band, lda, r, l)]
                        == a2[crate::layout::general_at(band, lda, r, l)]);
                }
            }
            lemma_sum_range_agree(t1, t2, lo, hi);
        }
        let r1 = vec_written(y, len_y, incy, v1);
        let r2 = vec_written(y, len_y, incy, v2);
        assert forall|p: int| 0 <= p < y.len() implies r1[p] == r2[p] by {
            if is_slot(len_y, incy, p) {
                lemma_element_of(len_y, incy, p);
            }
        }
        assert(r1 =~= r2);
    }
}

/// In a commutative ring two sums of two terms can exchange their inner
/// terms.
proof fn lemma_interchange<T: CommutativeRing>(p: T, q: T, r: T, s: T)
    ensures
        p.plus_spec(q).plus_spec(r.plus_spec(s)) == p.plus_spec(r).plus_spec(q.plus_spec(s)),
{
    // (p + q) + (r + s) = p + (q + (r + s)) = p + ((q + r) + s)
    T::lemma_plus_associates(p, q, r.plus_spec(s));
    T::lemma_plus_associates(q, r, s);
    // = p + ((r + q) + s) = p + (r + (q + s)) = (p + r) + (q + s)
    T::lemma_plus_commutes(q, r);
    T::lemma_plus_associates(r, q, s);
    T::lemma_plus_associates(p, r, q.plus_spec(s));
}

/// In a commutative ring a sum whose terms are `f * u(i) + v(i)` is `f`
/// times the sum of the `u(i)` plus the sum of the `v(i)`.
proof fn lemma_sum_linear<T: CommutativeRing>(
    t: spec_fn(int) -> T,
    u: spec_fn(int) -> T,
    v: spec_fn(int) -> T,
    f: T,
    hi: int,
)
    requires
        forall|i: int| 0 <= i < hi ==> #[trigger] t(i) == f.times_spec(u(i)).plus_spec(v(i)),
    ensures
        sum_range(t, 0, hi) == f.times_spec(sum_range(u, 0, hi)).plus_spec(sum_range(v, 0, hi)),
    decreases hi,
{
    if hi > 0 {
        lemma_sum_linear(t, u, v, f, hi - 1);
        let su = sum_range(u, 0, hi - 1);
        let sv = sum_range(v, 0, hi - 1);
        assert(t(hi - 1) == f.times_spec(u(hi - 1)).plus_spec(v(hi - 1)));
        lemma_interchange(f.times_spec(su), sv, f.times_spec(u(hi - 1)), v(hi - 1));
        T::lemma_distributes(f, su, u(hi - 1));
    } else {
        T::lemma_times_zero(f);
        T::lemma_plus_zero(T::zero_spec());
    }
}

/// In a commutative ring an inner product is linear in its second argument,
/// whether or not the first is conjugated: where every element of `y` is
/// `a * y1 + y2` of the elements of `y1` and `y2`, the inner product of `x`
/// with `y` is `a` times that with `y1` plus that with `y2`.
pub proof fn lemma_dot_linear_in_second<T: CommutativeRing>(
    conj: bool,
    n: int,
    a: T,
    x: Seq<T>,
    incx: int,
    y: Seq<T>,
    incy: int,
    y1: Seq<T>,
    incy1: int,
    y2: Seq<T>,
    incy2: int,
)
    requires
        forall|i: int|
            0 <= i < n ==> #[trigger] y[slot(n, incy, i)] == a.times_spec(
                y1[slot(n, incy1, i)],
            ).plus_spec(y2[slot(n, incy2, i)]),
    ensures
        sum_range(dot_term(conj, n, x, incx, y, incy), 0, n) == a.times_spec(
            sum_range(dot_term(conj, n, x, incx, y1, incy1), 0, n),
        ).plus_spec(sum_range(dot_term(conj, n, x, incx, y2, incy2), 0, n)),
{
    let t = dot_term(conj, n, x, incx, y, incy);
    let u = dot_term(conj, n, x, incx, y1, incy1);
    let v = dot_term(conj, n, x, incx, y2, incy2);
    assert forall|i: int| 0 <= i < n implies #[trigger] t(i) == a.times_spec(u(i)).plus_spec(
        v(i),
    ) by {
        let cx = herm_conj(conj, x[slot(n, incx, i)]);
        let p = y1[slot(n, incy1, i)];
        let q = y2[slot(n, incy2, i)];
        assert(y[slot(n, incy, i)] == a.times_spec(p).plus_spec(q));
        // cx * (a * p + q) = cx * (a * p) + cx * q
        T::lemma_distributes(cx, a.times_spec(p), q);
        // cx * (a * p) = (cx * a) * p = (a * cx) * p = a * (cx * p)
        T::lemma_times_associates(cx, a, p);
        T::lemma_times_commutes(cx, a);
        T::lemma_times_associates(a, cx, p);
    }
    lemma_sum_linear(t, u, v, a, n);
}

/// In a commutative ring an inner product is linear in its first argument
/// and, where the first argument is conjugated, conjugate-linear in it:
/// where every element of `x` is `a * x1 + x2` of the elements of `x1` and
/// `x2`, the inner product of `x` with `y` is `a`, conjugated with `x`,
/// times that of `x1` plus that of `x2`.
pub proof fn lemma_dot_linear_in_first<T: CommutativeRing>(
    conj: bool,
    n: int,
    a: T,
    x: Seq<T>,
    incx: int,
    x1: Seq<T>,
    incx1: int,
    x2: Seq<T>,
    incx2: int,
    y: Seq<T>,
    incy: int,
)
    requires
        forall|i: int|
            0 <= i < n ==> #[trigger] x[slot(n, incx, i)] == a.times_spec(
                x1[slot(n, incx1, i)],
            ).plus_spec(x2[slot(n, incx2, i)]),
    ensures
        sum_range(dot_term(conj, n, x, incx, y, incy), 0, n) == herm_conj(conj, a).times_spec(
            sum_range(dot_term(conj, n, x1, incx1, y, incy), 0, n),
        ).plus_spec(sum_range(dot_term(conj, n, x2, incx2, y, incy), 0, n)),
{
    let t = dot_term(conj, n, x, incx, y, incy);
    let u = dot_term(conj, n, x1, incx1, y, incy);
    let v = dot_term(conj, n, x2, incx2, y, incy);
    let f = herm_conj(conj, a);
    assert forall|i: int| 0 <= i < n implies #[trigger] t(i) == f.times_spec(u(i)).plus_spec(
        v(i),
    ) by {
        let p = x1[slot(n, incx1, i)];
        let q = x2[slot(n, incx2, i)];
        let cp = herm_conj(conj, p);
        let cq = herm_conj(conj, q);
        let w = y[slot(n, incy, i)];
        assert(x[slot(n, incx, i)] == a.times_spec(p).plus_spec(q));
        // conj(a * p + q) = conj(a) * conj(p) + conj(q)
        if conj {
            T::lemma_conj_of_sum(a.times_spec(p), q);
            T::lemma_conj_of_product(a, p);
        }
        // (f * cp + cq) * w = w * (f * cp + cq) = w * (f * cp) + w * cq
        T::lemma_times_commutes(f.times_spec(cp).plus_spec(cq), w);
        T::lemma_distributes(w, f.times_spec(cp), cq);
        // w * (f * cp) = (f * cp) * w = f * (cp * w), and w * cq = cq * w
        T::lemma_times_commutes(w, f.times_spec(cp));
        T::lemma_times_associates(f, cp, w);
        T::lemma_times_commutes(w, cq);
    }
    lemma_sum_linear(t, u, v, f, n);
}

/// In a commutative ring the first term of a sum can be taken out of it.
proof fn lemma_sum_first<T: CommutativeRing>(f: spec_fn(int) -> T, lo: int, hi: int)
    requires
        lo < hi,
    ensures
        sum_range(f, lo, hi) == f(lo).plus_spec(sum_range(f, lo + 1, hi)),
    decreases hi - lo,
{
    if hi == lo + 1 {
        assert(sum_range(f, lo, lo) == T::zero_spec());
        assert(sum_range(f, lo + 1, hi) == T::zero_spec());
        T::lemma_plus_zero(f(lo));
    } else {
        lemma_sum_first(f, lo, hi - 1);
        T::lemma_plus_associates(f(lo), sum_range(f, lo + 1, hi - 1), f(hi - 1));
    }
}

/// Whether dividing by each diagonal element of `op(a)` undoes multiplying
/// by it, whatever the value multiplied: what it means, in exact terms, that
/// the stored diagonal is not singular.
pub open spec fn diagonal_cancels<T: Field>(
    trans: Trans,
    store: Store,
    uplo: Uplo,
    n: int,
    a: Seq<T>,
    lda: int,
) -> bool {
    forall|i: int, v: T|
        0 <= i < n ==> (#[trigger] tri_op_at(trans, store, uplo, n, a, lda, i, i).times_spec(
            v,
        )).over_spec(tri_op_at(trans, store, uplo, n, a, lda, i, i)) == v
}

/// The buffer after `t` steps of the substitution on a product with a
/// triangular matrix: the elements solved so far hold their old values
/// again, the others still hold the product.
proof fn lemma_solve_undoes_steps<T: Field + CommutativeRing>(
    diag: Diag,
    trans: Trans,
    store: Store,
    uplo: Uplo,
    n: int,
    a: Seq<T>,
    lda: int,
    x: Seq<T>,
    incx: int,
    t: int,
)
    requires
        0 <= t <= n,
        incx != 0,
        vector_check(x.len() as int, n, incx) is Ok,
        diag.unit() || diagonal_cancels(trans, store, uplo, n, a, lda),
    ensures
        trsv_steps(
            diag,
            trans,
            store,
            uplo,
            n,
            a,
            lda,
            trmv_result(diag, trans, store, uplo, n, a, lda, x, incx),
            incx,
            t,
        ) == vec_progress(
            x,
            n,
            incx,
            trmv_elem(diag, trans, store, uplo, n, a, lda, x, incx),
            if op_lower(uplo, trans) {
                t
            } else {
                0
            },
            if op_lower(uplo, trans) {
                n
            } else {
                n - t
            },
        ),
    decreases t,
{
    let val = trmv_elem(diag, trans, store, uplo, n, a, lda, x, incx);
    let lower = op_lower(uplo, trans);
    if t == 0 {
        lemma_vec_progress_end(x, n, incx, val);
    } else {
        lemma_solve_undoes_steps(diag, trans, store, uplo, n, a, lda, x, incx, t - 1);
        let lo = if lower {
            t - 1
        } else {
            0
        };
        let hi = if lower {
            n
        } else {
            n - t + 1
        };
        let before = vec_progress(x, n, incx, val, lo, hi);
        let i = trsv_target(uplo, trans, n, t - 1);
        lemma_vec_progress_undo(x, n, incx, val, lo, hi, i);
        let blo = beside_lo(store, uplo, trans, i);
        let bhi = beside_hi(store, uplo, trans, n, i);
        let solve_term = trsv_term(trans, store, uplo, n, a, lda, before, incx, i);
        let product_term = trmv_term(diag, trans, store, uplo, n, a, lda, x, incx, i);
        assert forall|l: int| blo <= l < bhi implies #[trigger] solve_term(l) == product_term(
            l,
        ) by {
            lemma_vec_progress_step(x, n, incx, val, lo, hi, l);
        }
        lemma_sum_range_agree(solve_term, product_term, blo, bhi);
        let rest = sum_range(product_term, blo, bhi);
        let xi = x[slot(n, incx, i)];
        let pivot = tri_op_at(trans, store, uplo, n, a, lda, i, i);
        // What the product added for the diagonal.
        let own = if diag.unit() {
            xi
        } else {
            pivot.times_spec(xi)
        };
        assert(product_term(i) == own);
        if lower {
            assert(val(i) == rest.plus_spec(own));
            T::lemma_sum_minus(rest, own);
        } else {
            lemma_sum_first(product_term, i, op_hi(store, uplo, trans, n, i));
            assert(val(i) == own.plus_spec(rest));
            T::lemma_plus_commutes(own, rest);
            T::lemma_sum_minus(rest, own);
        }
        if !diag.unit() {
            assert(pivot.times_spec(xi).over_spec(pivot) == xi);
        }
        assert(trsv_solved(diag, trans, store, uplo, n, a, lda, before, incx, i) == xi);
    }
}

/// In a commutative ring the triangular solve undoes the triangular product
/// exactly: solving `op(a) * z = op(a) * x` gives back the buffer of `x`, for
/// either triangle, every operator and every store. With a unit diagonal
/// nothing more is asked; with a stored diagonal it is asked not to be
/// singular, in that dividing by each of its elements undoes multiplying by
/// it.
pub proof fn lemma_solve_inverts_product<T: Field + CommutativeRing>(
    diag: Diag,
    trans: Trans,
    store: Store,
    uplo: Uplo,
    n: int,
    a: Seq<T>,
    lda: int,
    x: Seq<T>,
    incx: int,
)
    requires
        n >= 0,
        vector_check(x.len() as int, n, incx) is Ok,
        diag.unit() || diagonal_cancels(trans, store, uplo, n, a, lda),
    ensures
        trsv_steps(
            diag,
            trans,
            store,
            uplo,
            n,
            a,
            lda,
            trmv_result(diag, trans, store, uplo, n, a, lda, x, incx),
            incx,
            n,
        ) == x,
{
    let val = trmv_elem(diag, trans, store, uplo, n, a, lda, x, incx);
    if n == 0 {
        lemma_vec_progress_start(x, n, incx, val, 0);
        lemma_vec_progress_end(x, n, incx, val);
    } else {
        lemma_solve_undoes_steps(diag, trans, store, uplo, n, a, lda, x, incx, n);
        lemma_vec_progress_start(x, n, incx, val, n);
        lemma_vec_progress_start(x, n, incx, val, 0);
    }
}

/// Dividing an integer by one or by minus one undoes multiplying by it,
/// also where the product wraps: a diagonal of such elements is not
/// singular.
pub proof fn lemma_unit_pivot_cancels(t: i64, v: i64)
    requires
        t == 1 || t == -1,
    ensures
        t.times_spec(v).over_spec(t) == v,
{
    let p = t.times_spec(v);
    if t == 1 {
        assert(1 * v == v) by (nonlinear_arith);
        lemma_crop_in_range(v as int);
        assert(p == v);
    } else {
        assert((-1) * v == -v) by (nonlinear_arith);
        if v == i64::MIN {
            lemma_crop_shift(v as int, 1);
            lemma_crop_in_range(v as int);
            assert(-(v as int) == v + 1 * range64());
            assert(p == v);
        } else {
            lemma_crop_in_range(-(v as int));
            assert(p == -v);
        }
    }
    assert(magnitude_spec(t) == 1);
    let q = magnitude_spec(p) / magnitude_spec(t);
    assert(q == magnitude_spec(p));
}

/// Different elements have different slots.
pub proof fn lemma_slot_injective(n: int, inc: int, i: int, j: int)
    requires
        0 <= i < n,
        0 <= j < n,
        inc != 0,
        slot(n, inc, i) == slot(n, inc, j),
    ensures
        i == j,
{
    lemma_slot(n, inc, i);
    lemma_slot(n, inc, j);
}

/// Two stored elements with the same slot are the same element.
pub proof fn lemma_tri_injective(
    store: Store,
    uplo: Uplo,
    n: int,
    ld: int,
    i: int,
    j: int,
    i2: int,
    j2: int,
)
    requires
        0 <= i < n,
        0 <= j < n,
        0 <= i2 < n,
        0 <= j2 < n,
        tri_stored(store, uplo, i, j),
        tri_stored(store, uplo, i2, j2),
        store != Store::Packed ==> tri_check(tri_len(store, n, ld), store, n, ld) is Ok,
        tri_at(store, uplo, n, ld, i, j) == tri_at(store, uplo, n, ld, i2, j2),
    ensures
        i == i2,
        j == j2,
{
    match store {
        Store::Full => {
            lemma_full_at(n, n, ld, i, j);
            lemma_full_at(n, n, ld, i2, j2);
        },
        Store::Band { k } => {
            match uplo {
                Uplo::U => {
                    lemma_full_at(k + 1, n, ld, k + i - j, j);
                    lemma_full_at(k + 1, n, ld, k + i2 - j2, j2);
                },
                Uplo::L => {
                    lemma_full_at(k + 1, n, ld, i - j, j);
                    lemma_full_at(k + 1, n, ld, i2 - j2, j2);
                },
            }
        },
        Store::Packed => {
            if j < j2 {
                lemma_packed_columns(uplo, n, j, j2);
            } else if j2 < j {
                lemma_packed_columns(uplo, n, j2, j);
            }
        },
    }
}

/// The rotation made for a pair of which an element is zero is the
/// identity, whatever the other element is.
pub proof fn lemma_rotg_degenerate<T: Real + Field>(a: T, b: T)
    requires
        a.is_zero_spec() || b.is_zero_spec(),
    ensures
        rotg_spec(a, b).c == T::one_spec(),
        rotg_spec(a, b).s == T::zero_spec(),
        rotg_spec(a, b).r == a,
{
}

/// The rotation made for a pair whose second element is zero, also where
/// both are zero, takes the pair to `(a, 0)` in exact arithmetic and is
/// orthogonal: `c * c + s * s` is one.
pub proof fn lemma_rotg_of_zero<T: Real + Field + ExactRing>(a: T)
    ensures
        ({
            let g = rotg_spec(a, T::zero_spec());
            &&& g.r == a
            &&& g.c == T::one_spec()
            &&& g.s == T::zero_spec()
            &&& g.c.times_spec(a).plus_spec(g.s.times_spec(T::zero_spec())) == a
            &&& g.c.times_spec(T::zero_spec()).minus_spec(g.s.times_spec(a)) == T::zero_spec()
            &&& g.c.times_spec(g.c).plus_spec(g.s.times_spec(g.s)) == T::one_spec()
        }),
{
    T::lemma_zero_is_zero();
    T::lemma_times_one(a);
    T::lemma_times_one(T::one_spec());
    T::lemma_times_zero(a);
    T::lemma_times_zero(T::one_spec());
    T::lemma_times_zero(T::zero_spec());
    T::lemma_plus_zero(a);
    T::lemma_plus_zero(T::one_spec());
    T::lemma_minus_zero(T::zero_spec());
}

/// Where the magnitudes are weakly ordered, the element whose position
/// `iamax` returns, which is `first_greatest` plus one, is the first of
/// greatest magnitude: no element of the view has a greater magnitude, and
/// every element before it has a smaller one.
pub proof fn lemma_first_greatest<T: Magnitude>(n: int, x: Seq<T>, incx: int, k: int)
    where
        T::Norm: WeakOrder,
    requires
        1 <= k <= n,
    ensures
        0 <= first_greatest(n, x, incx, k) < k,
        forall|j: int|
            0 <= j < k ==> !(#[trigger] x[slot(n, incx, first_greatest(n, x, incx, k))].abs1_spec().less_spec(
                x[slot(n, incx, j)].abs1_spec(),
            )),
        forall|j: int|
            0 <= j < first_greatest(n, x, incx, k) ==> #[trigger] x[slot(n, incx, j)].abs1_spec().less_spec(
                x[slot(n, incx, first_greatest(n, x, incx, k))].abs1_spec(),
            ),
    decreases k,
{
    let mag = |j: int| x[slot(n, incx, j)].abs1_spec();
    if k <= 1 {
        T::Norm::lemma_less_irreflexive(mag(0));
    } else {
        lemma_first_greatest(n, x, incx, k - 1);
        let before = first_greatest(n, x, incx, k - 1);
        let best = first_greatest(n, x, incx, k);
        if mag(before).less_spec(mag(k - 1)) {
            assert(best == k - 1);
            T::Norm::lemma_less_irreflexive(mag(k - 1));
            assert forall|j: int| 0 <= j < k implies !(#[trigger] x[slot(
                n,
                incx,
                best,
            )].abs1_spec().less_spec(x[slot(n, incx, j)].abs1_spec())) by {
                if j < k - 1 && mag(k - 1).less_spec(mag(j)) {
                    T::Norm::lemma_less_transitive(mag(before), mag(k - 1), mag(j));
                }
            }
            assert forall|j: int| 0 <= j < best implies #[trigger] x[slot(
                n,
                incx,
                j,
            )].abs1_spec().less_spec(x[slot(n, incx, best)].abs1_spec()) by {
                T::Norm::lemma_less_splits(mag(before), mag(j), mag(k - 1));
            }
        } else {
            assert(best == before);
        }
    }
}

} // verus!
