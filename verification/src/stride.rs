use vstd::prelude::*;
use crate::error::ArgError;

verus! {

/// The physical spacing of a stride: its absolute value.
pub open spec fn spacing(inc: int) -> int {
    if inc < 0 {
        -inc
    } else {
        inc
    }
}

/// How many slots a view of `n` elements with stride `inc` covers, from its
/// first slot to its last.
pub open spec fn span(n: int, inc: int) -> int {
    if n <= 0 {
        0
    } else {
        1 + (n - 1) * spacing(inc)
    }
}

/// The slot of element `i` in a view of `n` elements with stride `inc`. A
/// negative stride walks the same slots backwards: element 0 is the last of
/// them.
pub open spec fn slot(n: int, inc: int, i: int) -> int {
    if inc >= 0 {
        i * inc
    } else {
        (n - 1 - i) * (-inc)
    }
}

/// Whether slot `p` holds an element of the view.
pub open spec fn is_slot(n: int, inc: int, p: int) -> bool {
    inc != 0 && 0 <= p && p % spacing(inc) == 0 && p / spacing(inc) < n
}

/// The element that slot `p` holds.
pub open spec fn element_of(n: int, inc: int, p: int) -> int {
    if inc >= 0 {
        p / spacing(inc)
    } else {
        n - 1 - p / spacing(inc)
    }
}

/// The elements of the view, read out of the buffer.
pub open spec fn gather<T>(buf: Seq<T>, n: int, inc: int) -> Seq<T> {
    Seq::new(if n >= 0 { n as nat } else { 0 }, |i: int| buf[slot(n, inc, i)])
}

/// The buffer after a kernel wrote `val(i)` to element `i` of the view, for
/// each of its `n` elements. Every other slot keeps its value.
pub open spec fn vec_written<T>(old_buf: Seq<T>, n: int, inc: int, val: spec_fn(int) -> T) -> Seq<T> {
    Seq::new(
        old_buf.len(),
        |p: int|
            if is_slot(n, inc, p) {
                val(element_of(n, inc, p))
            } else {
                old_buf[p]
            },
    )
}

/// The buffer on the way to `vec_written`: the elements from `lo` up to, not
/// including, `hi` are written.
pub open spec fn vec_progress<T>(
    old_buf: Seq<T>,
    n: int,
    inc: int,
    val: spec_fn(int) -> T,
    lo: int,
    hi: int,
) -> Seq<T> {
    Seq::new(
        old_buf.len(),
        |p: int|
            if is_slot(n, inc, p) && lo <= element_of(n, inc, p) < hi {
                val(element_of(n, inc, p))
            } else {
                old_buf[p]
            },
    )
}

/// What the validation of one vector argument returns: nothing is asked of an
/// empty view; otherwise the stride is not zero and the view fits the buffer.
pub open spec fn vector_check(len: int, n: int, inc: int) -> Result<(), ArgError> {
    if n == 0 {
        Ok(())
    } else if inc == 0 {
        Err(ArgError::ZeroStride)
    } else if span(n, inc) > len {
        Err(ArgError::BufferTooShort)
    } else {
        Ok(())
    }
}

/// Each element has a slot inside the span, and the slot leads back to it.
pub proof fn lemma_slot(n: int, inc: int, i: int)
    requires
        0 <= i < n,
        inc != 0,
    ensures
        0 <= slot(n, inc, i) < span(n, inc),
        is_slot(n, inc, slot(n, inc, i)),
        element_of(n, inc, slot(n, inc, i)) == i,
{
    let s = spacing(inc);
    let k = if inc >= 0 { i } else { n - 1 - i };
    assert(slot(n, inc, i) == k * s);
    assert(0 <= k * s <= (n - 1) * s) by (nonlinear_arith)
        requires
            0 <= k <= n - 1,
            s > 0,
    ;
    vstd::arithmetic::div_mod::lemma_fundamental_div_mod_converse(k * s, s, k, 0);
}

/// Each slot of the view is the slot of its element.
pub proof fn lemma_element_of(n: int, inc: int, p: int)
    requires
        is_slot(n, inc, p),
    ensures
        0 <= element_of(n, inc, p) < n,
        slot(n, inc, element_of(n, inc, p)) == p,
{
    let s = spacing(inc);
    vstd::arithmetic::div_mod::lemma_fundamental_div_mod(p, s);
    vstd::arithmetic::div_mod::lemma_div_pos_is_pos(p, s);
    let q = p / s;
    assert(p == s * q);
    assert(q * s == s * q) by (nonlinear_arith);
    if inc < 0 {
        assert(n - 1 - (n - 1 - q) == q);
    }
}

/// With no element written the buffer is as it was.
pub proof fn lemma_vec_progress_start<T>(
    old_buf: Seq<T>,
    n: int,
    inc: int,
    val: spec_fn(int) -> T,
    at: int,
)
    ensures
        vec_progress(old_buf, n, inc, val, at, at) == old_buf,
{
    assert(vec_progress(old_buf, n, inc, val, at, at) =~= old_buf);
}

/// An element outside the written range still has its old value; writing the
/// element just above the range, or just below it, extends the range by it.
pub proof fn lemma_vec_progress_step<T>(
    old_buf: Seq<T>,
    n: int,
    inc: int,
    val: spec_fn(int) -> T,
    lo: int,
    hi: int,
    i: int,
)
    requires
        0 <= i < n,
        inc != 0,
        span(n, inc) <= old_buf.len(),
        !(lo <= i < hi),
    ensures
        0 <= slot(n, inc, i) < old_buf.len(),
        vec_progress(old_buf, n, inc, val, lo, hi)[slot(n, inc, i)] == old_buf[slot(n, inc, i)],
        i == hi && lo <= hi ==> vec_progress(old_buf, n, inc, val, lo, hi).update(
            slot(n, inc, i),
            val(i),
        )
            == vec_progress(old_buf, n, inc, val, lo, hi + 1),
        i == lo - 1 && lo <= hi ==> vec_progress(old_buf, n, inc, val, lo, hi).update(
            slot(n, inc, i),
            val(i),
        )
            == vec_progress(old_buf, n, inc, val, lo - 1, hi),
{
    let cur = vec_progress(old_buf, n, inc, val, lo, hi);
    let p0 = slot(n, inc, i);
    lemma_slot(n, inc, i);
    if i == hi && lo <= hi {
        let next = vec_progress(old_buf, n, inc, val, lo, hi + 1);
        assert forall|p: int| 0 <= p < old_buf.len() implies cur.update(p0, val(i))[p] == next[p] by {
            if p != p0 && is_slot(n, inc, p) {
                lemma_element_of(n, inc, p);
            }
        }
        assert(cur.update(p0, val(i)) =~= next);
    }
    if i == lo - 1 && lo <= hi {
        let next = vec_progress(old_buf, n, inc, val, lo - 1, hi);
        assert forall|p: int| 0 <= p < old_buf.len() implies cur.update(p0, val(i))[p] == next[p] by {
            if p != p0 && is_slot(n, inc, p) {
                lemma_element_of(n, inc, p);
            }
        }
        assert(cur.update(p0, val(i)) =~= next);
    }
}

/// Putting the old value back into the written element at either end of the
/// range takes the element out of the range.
pub proof fn lemma_vec_progress_undo<T>(
    old_buf: Seq<T>,
    n: int,
    inc: int,
    val: spec_fn(int) -> T,
    lo: int,
    hi: int,
    i: int,
)
    requires
        0 <= i < n,
        inc != 0,
        span(n, inc) <= old_buf.len(),
        lo < hi,
        i == lo || i == hi - 1,
    ensures
        vec_progress(old_buf, n, inc, val, lo, hi)[slot(n, inc, i)] == val(i),
        vec_progress(old_buf, n, inc, val, lo, hi).update(slot(n, inc, i), old_buf[slot(n, inc, i)])
            == vec_progress(
            old_buf,
            n,
            inc,
            val,
            if i == lo {
                lo + 1
            } else {
                lo
            },
            if i == lo {
                hi
            } else {
                hi - 1
            },
        ),
{
    let cur = vec_progress(old_buf, n, inc, val, lo, hi);
    let p0 = slot(n, inc, i);
    let next = vec_progress(
        old_buf,
        n,
        inc,
        val,
        if i == lo {
            lo + 1
        } else {
            lo
        },
        if i == lo {
            hi
        } else {
            hi - 1
        },
    );
    lemma_slot(n, inc, i);
    assert forall|p: int| 0 <= p < old_buf.len() implies cur.update(p0, old_buf[p0])[p]
        == next[p] by {
        if p != p0 && is_slot(n, inc, p) {
            lemma_element_of(n, inc, p);
        }
    }
    assert(cur.update(p0, old_buf[p0]) =~= next);
}

/// With every element written the buffer is the result.
pub proof fn lemma_vec_progress_end<T>(old_buf: Seq<T>, n: int, inc: int, val: spec_fn(int) -> T)
    ensures
        vec_progress(old_buf, n, inc, val, 0, n) == vec_written(old_buf, n, inc, val),
{
    assert forall|p: int| 0 <= p < old_buf.len() && is_slot(n, inc, p) implies 0 <= element_of(
        n,
        inc,
        p,
    ) < n by {
        lemma_element_of(n, inc, p);
    }
    assert(vec_progress(old_buf, n, inc, val, 0, n) =~= vec_written(old_buf, n, inc, val));
}

/// An empty view leaves the buffer as it is.
pub proof fn lemma_vec_written_empty<T>(old_buf: Seq<T>, n: int, inc: int, val: spec_fn(int) -> T)
    requires
        n <= 0,
    ensures
        vec_written(old_buf, n, inc, val) == old_buf,
{
    assert forall|p: int| 0 <= p < old_buf.len() implies !is_slot(n, inc, p) by {
        if is_slot(n, inc, p) {
            lemma_element_of(n, inc, p);
        }
    }
    assert(vec_written(old_buf, n, inc, val) =~= old_buf);
}

/// The spacing of a stride.
pub fn stride_spacing(inc: isize) -> (s: usize)
    ensures
        s == spacing(inc as int),
{
    if inc >= 0 {
        inc as usize
    } else {
        let m: isize = -(inc + 1);
        (m as usize) + 1
    }
}

/// Validates one vector argument: a buffer of `len` slots under a view of `n`
/// elements with stride `inc`.
pub fn check_vector(len: usize, n: usize, inc: isize) -> (r: Result<(), ArgError>)
    ensures
        r == vector_check(len as int, n as int, inc as int),
{
    if n == 0 {
        return Ok(());
    }
    if inc == 0 {
        return Err(ArgError::ZeroStride);
    }
    let s: usize = stride_spacing(inc);
    match (n - 1).checked_mul(s) {
        None => Err(ArgError::BufferTooShort),
        Some(reach) => {
            if reach >= len {
                Err(ArgError::BufferTooShort)
            } else {
                Ok(())
            }
        },
    }
}

/// The slot of element `i`, as an index into the buffer.
pub fn slot_index(n: usize, inc: isize, i: usize) -> (p: usize)
    requires
        i < n,
        inc != 0,
        span(n as int, inc as int) <= usize::MAX,
    ensures
        p == slot(n as int, inc as int, i as int),
        p < span(n as int, inc as int),
{
    proof {
        lemma_slot(n as int, inc as int, i as int);
    }
    let s: usize = stride_spacing(inc);
    let k: usize = if inc >= 0 { i } else { n - 1 - i };
    assert(0 <= k * s <= (n - 1) * s) by (nonlinear_arith)
        requires
            0 <= k <= n - 1,
            s > 0,
    ;
    k * s
}

} // verus!
