use vstd::prelude::*;
use crate::error::ArgError;
use crate::layout::and_then_check;
use crate::scalar::{conj_for, herm_conj, Magnitude, Real, Scalar, Widen};
use crate::stride::{
    check_vector, lemma_vec_progress_end, lemma_vec_progress_start, lemma_vec_progress_step,
    lemma_vec_written_empty, slot, slot_index, vec_progress, vec_written, vector_check,
};
use crate::sum::sum_range;

verus! {

/// What the validation of a kernel on two vectors returns. Vectors without
/// elements are accepted as they are. Otherwise `x` and `y` are validated in
/// this order.
pub open spec fn pair_check(n: int, x_len: int, incx: int, y_len: int, incy: int) -> Result<
    (),
    ArgError,
> {
    if n == 0 {
        Ok(())
    } else {
        and_then_check(vector_check(x_len, n, incx), vector_check(y_len, n, incy))
    }
}

/// Validates the two vectors of a kernel.
pub fn check_pair(n: usize, x_len: usize, incx: isize, y_len: usize, incy: isize) -> (r: Result<
    (),
    ArgError,
>)
    ensures
        r == pair_check(n as int, x_len as int, incx as int, y_len as int, incy as int),
{
    if n == 0 {
        return Ok(());
    }
    match check_vector(x_len, n, incx) {
        Err(e) => Err(e),
        Ok(()) => check_vector(y_len, n, incy),
    }
}

/// Element `i` of the view of `x`, as a function of `i`.
pub open spec fn element<T>(n: int, x: Seq<T>, incx: int) -> spec_fn(int) -> T {
    |i: int| x[slot(n, incx, i)]
}

/// Copies the elements of `x` to those of `y`.
#[verifier::loop_isolation(false)]
pub fn copy<T: Copy>(n: usize, x: &[T], incx: isize, y: &mut [T], incy: isize) -> (r: Result<
    (),
    ArgError,
>)
    ensures
        r == pair_check(
            n as int,
            x@.len() as int,
            incx as int,
            old(y)@.len() as int,
            incy as int,
        ),
        r is Err ==> final(y)@ == old(y)@,
        r is Ok ==> final(y)@ == vec_written(
            old(y)@,
            n as int,
            incy as int,
            element(n as int, x@, incx as int),
        ),
{
    let ghost val = element(n as int, x@, incx as int);
    if n == 0 {
        proof {
            lemma_vec_written_empty(y@, n as int, incy as int, val);
        }
        return Ok(());
    }
    match check_pair(n, x.len(), incx, y.len(), incy) {
        Err(e) => {
            return Err(e);
        },
        Ok(()) => {},
    }
    proof {
        lemma_vec_progress_start(y@, n as int, incy as int, val, 0);
    }
    let mut i: usize = 0;
    while i < n
        invariant
            0 <= i <= n,
            y@.len() == old(y)@.len(),
            y@ == vec_progress(old(y)@, n as int, incy as int, val, 0, i as int),
        decreases n - i,
    {
        let px: usize = slot_index(n, incx, i);
        let py: usize = slot_index(n, incy, i);
        proof {
            lemma_vec_progress_step(old(y)@, n as int, incy as int, val, 0, i as int, i as int);
        }
        y[py] = x[px];
        i += 1;
    }
    proof {
        lemma_vec_progress_end(old(y)@, n as int, incy as int, val);
    }
    Ok(())
}

/// Exchanges the elements of `x` with those of `y`.
#[verifier::loop_isolation(false)]
pub fn swap<T: Copy>(n: usize, x: &mut [T], incx: isize, y: &mut [T], incy: isize) -> (r: Result<
    (),
    ArgError,
>)
    ensures
        r == pair_check(
            n as int,
            old(x)@.len() as int,
            incx as int,
            old(y)@.len() as int,
            incy as int,
        ),
        r is Err ==> final(x)@ == old(x)@ && final(y)@ == old(y)@,
        r is Ok ==> final(x)@ == vec_written(
            old(x)@,
            n as int,
            incx as int,
            element(n as int, old(y)@, incy as int),
        ),
        r is Ok ==> final(y)@ == vec_written(
            old(y)@,
            n as int,
            incy as int,
            element(n as int, old(x)@, incx as int),
        ),
{
    let ghost to_x = element(n as int, y@, incy as int);
    let ghost to_y = element(n as int, x@, incx as int);
    if n == 0 {
        proof {
            lemma_vec_written_empty(x@, n as int, incx as int, to_x);
            lemma_vec_written_empty(y@, n as int, incy as int, to_y);
        }
        return Ok(());
    }
    match check_pair(n, x.len(), incx, y.len(), incy) {
        Err(e) => {
            return Err(e);
        },
        Ok(()) => {},
    }
    proof {
        lemma_vec_progress_start(x@, n as int, incx as int, to_x, 0);
        lemma_vec_progress_start(y@, n as int, incy as int, to_y, 0);
    }
    let mut i: usize = 0;
    while i < n
        invariant
            0 <= i <= n,
            x@.len() == old(x)@.len(),
            y@.len() == old(y)@.len(),
            x@ == vec_progress(old(x)@, n as int, incx as int, to_x, 0, i as int),
            y@ == vec_progress(old(y)@, n as int, incy as int, to_y, 0, i as int),
        decreases n - i,
    {
        let px: usize = slot_index(n, incx, i);
        let py: usize = slot_index(n, incy, i);
        proof {
            lemma_vec_progress_step(old(x)@, n as int, incx as int, to_x, 0, i as int, i as int);
            lemma_vec_progress_step(old(y)@, n as int, incy as int, to_y, 0, i as int, i as int);
        }
        let w: T = x[px];
        let z: T = y[py];
        x[px] = z;
        y[py] = w;
        i += 1;
    }
    proof {
        lemma_vec_progress_end(old(x)@, n as int, incx as int, to_x);
        lemma_vec_progress_end(old(y)@, n as int, incy as int, to_y);
    }
    Ok(())
}

/// What the validation of a kernel on one vector returns.
pub open spec fn single_check(n: int, x_len: int, incx: int) -> Result<(), ArgError> {
    vector_check(x_len, n, incx)
}

/// Element `i` of `alpha * x`, as a function of `i`. Where `alpha` is zero
/// the element is zero whatever `x` holds.
pub open spec fn scal_elem<T: Scalar>(n: int, alpha: T, x: Seq<T>, incx: int) -> spec_fn(int) -> T {
    |i: int|
        if alpha.is_zero_spec() {
            T::zero_spec()
        } else {
            alpha.times_spec(x[slot(n, incx, i)])
        }
}

/// Scales a vector: `x` becomes `alpha * x`. Where `alpha` is zero every
/// element is set to zero and none is read.
#[verifier::loop_isolation(false)]
pub fn scal<T: Scalar>(n: usize, alpha: T, x: &mut [T], incx: isize) -> (r: Result<(), ArgError>)
    ensures
        r == single_check(n as int, old(x)@.len() as int, incx as int),
        r is Err ==> final(x)@ == old(x)@,
        r is Ok ==> final(x)@ == vec_written(
            old(x)@,
            n as int,
            incx as int,
            scal_elem(n as int, alpha, old(x)@, incx as int),
        ),
{
    let ghost val = scal_elem(n as int, alpha, x@, incx as int);
    if n == 0 {
        proof {
            lemma_vec_written_empty(x@, n as int, incx as int, val);
        }
        return Ok(());
    }
    match check_vector(x.len(), n, incx) {
        Err(e) => {
            return Err(e);
        },
        Ok(()) => {},
    }
    let clear: bool = alpha.is_zero();
    proof {
        lemma_vec_progress_start(x@, n as int, incx as int, val, 0);
    }
    let mut i: usize = 0;
    while i < n
        invariant
            0 <= i <= n,
            x@.len() == old(x)@.len(),
            x@ == vec_progress(old(x)@, n as int, incx as int, val, 0, i as int),
        decreases n - i,
    {
        let px: usize = slot_index(n, incx, i);
        proof {
            lemma_vec_progress_step(old(x)@, n as int, incx as int, val, 0, i as int, i as int);
        }
        let v: T = if clear {
            T::zero()
        } else {
            alpha.times(x[px])
        };
        x[px] = v;
        i += 1;
    }
    proof {
        lemma_vec_progress_end(old(x)@, n as int, incx as int, val);
    }
    Ok(())
}

/// Element `i` of `alpha * x + y`, as a function of `i`.
pub open spec fn axpy_elem<T: Scalar>(
    n: int,
    alpha: T,
    x: Seq<T>,
    incx: int,
    y: Seq<T>,
    incy: int,
) -> spec_fn(int) -> T {
    |i: int| alpha.times_spec(x[slot(n, incx, i)]).plus_spec(y[slot(n, incy, i)])
}

/// The buffer of `y` after the linear combination: as it was where `alpha`
/// is zero, whatever `x` holds.
pub open spec fn axpy_result<T: Scalar>(
    n: int,
    alpha: T,
    x: Seq<T>,
    incx: int,
    y: Seq<T>,
    incy: int,
) -> Seq<T> {
    if alpha.is_zero_spec() {
        y
    } else {
        vec_written(y, n, incy, axpy_elem(n, alpha, x, incx, y, incy))
    }
}

/// Linear combination: `y` becomes `alpha * x + y`. Where `alpha` is zero
/// nothing is read or written.
#[verifier::loop_isolation(false)]
pub fn axpy<T: Scalar>(
    n: usize,
    alpha: T,
    x: &[T],
    incx: isize,
    y: &mut [T],
    incy: isize,
) -> (r: Result<(), ArgError>)
    ensures
        r == pair_check(
            n as int,
            x@.len() as int,
            incx as int,
            old(y)@.len() as int,
            incy as int,
        ),
        r is Err ==> final(y)@ == old(y)@,
        r is Ok ==> final(y)@ == axpy_result(
            n as int,
            alpha,
            x@,
            incx as int,
            old(y)@,
            incy as int,
        ),
        alpha.is_zero_spec() ==> final(y)@ == old(y)@,
{
    let ghost val = axpy_elem(n as int, alpha, x@, incx as int, y@, incy as int);
    if n == 0 {
        proof {
            lemma_vec_written_empty(y@, n as int, incy as int, val);
        }
        return Ok(());
    }
    match check_pair(n, x.len(), incx, y.len(), incy) {
        Err(e) => {
            return Err(e);
        },
        Ok(()) => {},
    }
    if alpha.is_zero() {
        return Ok(());
    }
    proof {
        lemma_vec_progress_start(y@, n as int, incy as int, val, 0);
    }
    let mut i: usize = 0;
    while i < n
        invariant
            0 <= i <= n,
            y@.len() == old(y)@.len(),
            y@ == vec_progress(old(y)@, n as int, incy as int, val, 0, i as int),
        decreases n - i,
    {
        let px: usize = slot_index(n, incx, i);
        let py: usize = slot_index(n, incy, i);
        proof {
            lemma_vec_progress_step(old(y)@, n as int, incy as int, val, 0, i as int, i as int);
        }
        let v: T = alpha.times(x[px]).plus(y[py]);
        y[py] = v;
        i += 1;
    }
    proof {
        lemma_vec_progress_end(old(y)@, n as int, incy as int, val);
    }
    Ok(())
}

/// The products that an inner product sums; with `conj` the elements of `x`
/// enter conjugated.
pub open spec fn dot_term<T: Scalar>(
    conj: bool,
    n: int,
    x: Seq<T>,
    incx: int,
    y: Seq<T>,
    incy: int,
) -> spec_fn(int) -> T {
    |i: int| herm_conj(conj, x[slot(n, incx, i)]).times_spec(y[slot(n, incy, i)])
}

/// What an inner product returns: the refusal of its arguments, or the sum
/// of the products of the elements, added from the first to the last.
pub open spec fn dot_result<T: Scalar>(
    conj: bool,
    n: int,
    x: Seq<T>,
    incx: int,
    y: Seq<T>,
    incy: int,
) -> Result<T, ArgError> {
    match pair_check(n, x.len() as int, incx, y.len() as int, incy) {
        Err(e) => Err(e),
        Ok(_) => Ok(sum_range(dot_term(conj, n, x, incx, y, incy), 0, n)),
    }
}

/// Inner product of two vectors, with the elements of `x` conjugated where
/// `conj` is set.
#[verifier::loop_isolation(false)]
pub fn inner_product<T: Scalar>(
    conj: bool,
    n: usize,
    x: &[T],
    incx: isize,
    y: &[T],
    incy: isize,
) -> (r: Result<T, ArgError>)
    ensures
        r == dot_result(conj, n as int, x@, incx as int, y@, incy as int),
{
    match check_pair(n, x.len(), incx, y.len(), incy) {
        Err(e) => {
            return Err(e);
        },
        Ok(()) => {},
    }
    let ghost term = dot_term(conj, n as int, x@, incx as int, y@, incy as int);
    let mut acc: T = T::zero();
    let mut i: usize = 0;
    while i < n
        invariant
            0 <= i <= n,
            acc == sum_range(term, 0, i as int),
        decreases n - i,
    {
        let px: usize = slot_index(n, incx, i);
        let py: usize = slot_index(n, incy, i);
        acc = acc.plus(conj_for(conj, x[px]).times(y[py]));
        i += 1;
    }
    Ok(acc)
}

/// Inner product `x^T * y`.
pub fn dotu<T: Scalar>(n: usize, x: &[T], incx: isize, y: &[T], incy: isize) -> (r: Result<
    T,
    ArgError,
>)
    ensures
        r == dot_result(false, n as int, x@, incx as int, y@, incy as int),
{
    inner_product(false, n, x, incx, y, incy)
}

/// Inner product `x^H * y`: the elements of `x` enter conjugated.
pub fn dotc<T: Scalar>(n: usize, x: &[T], incx: isize, y: &[T], incy: isize) -> (r: Result<
    T,
    ArgError,
>)
    ensures
        r == dot_result(true, n as int, x@, incx as int, y@, incy as int),
{
    inner_product(true, n, x, incx, y, incy)
}

/// The first element of a rotated pair: `c * x[i] + s * y[i]`.
pub open spec fn rot_x<T: Scalar>(
    n: int,
    x: Seq<T>,
    incx: int,
    y: Seq<T>,
    incy: int,
    c: T,
    s: T,
) -> spec_fn(int) -> T {
    |i: int| c.times_spec(x[slot(n, incx, i)]).plus_spec(s.times_spec(y[slot(n, incy, i)]))
}

/// The second element of a rotated pair: `c * y[i] - s * x[i]`.
pub open spec fn rot_y<T: Scalar>(
    n: int,
    x: Seq<T>,
    incx: int,
    y: Seq<T>,
    incy: int,
    c: T,
    s: T,
) -> spec_fn(int) -> T {
    |i: int| c.times_spec(y[slot(n, incy, i)]).minus_spec(s.times_spec(x[slot(n, incx, i)]))
}

/// Applies a plane rotation with cosine `c` and sine `s` to each pair of
/// elements of `x` and `y`.
#[verifier::loop_isolation(false)]
pub fn rot<T: Scalar>(
    n: usize,
    x: &mut [T],
    incx: isize,
    y: &mut [T],
    incy: isize,
    c: T,
    s: T,
) -> (r: Result<(), ArgError>)
    ensures
        r == pair_check(
            n as int,
            old(x)@.len() as int,
            incx as int,
            old(y)@.len() as int,
            incy as int,
        ),
        r is Err ==> final(x)@ == old(x)@ && final(y)@ == old(y)@,
        r is Ok ==> final(x)@ == vec_written(
            old(x)@,
            n as int,
            incx as int,
            rot_x(n as int, old(x)@, incx as int, old(y)@, incy as int, c, s),
        ),
        r is Ok ==> final(y)@ == vec_written(
            old(y)@,
            n as int,
            incy as int,
            rot_y(n as int, old(x)@, incx as int, old(y)@, incy as int, c, s),
        ),
{
    let ghost to_x = rot_x(n as int, x@, incx as int, y@, incy as int, c, s);
    let ghost to_y = rot_y(n as int, x@, incx as int, y@, incy as int, c, s);
    if n == 0 {
        proof {
            lemma_vec_written_empty(x@, n as int, incx as int, to_x);
            lemma_vec_written_empty(y@, n as int, incy as int, to_y);
        }
        return Ok(());
    }
    match check_pair(n, x.len(), incx, y.len(), incy) {
        Err(e) => {
            return Err(e);
        },
        Ok(()) => {},
    }
    proof {
        lemma_vec_progress_start(x@, n as int, incx as int, to_x, 0);
        lemma_vec_progress_start(y@, n as int, incy as int, to_y, 0);
    }
    let mut i: usize = 0;
    while i < n
        invariant
            0 <= i <= n,
            x@.len() == old(x)@.len(),
            y@.len() == old(y)@.len(),
            x@ == vec_progress(old(x)@, n as int, incx as int, to_x, 0, i as int),
            y@ == vec_progress(old(y)@, n as int, incy as int, to_y, 0, i as int),
        decreases n - i,
    {
        let px: usize = slot_index(n, incx, i);
        let py: usize = slot_index(n, incy, i);
        proof {
            lemma_vec_progress_step(old(x)@, n as int, incx as int, to_x, 0, i as int, i as int);
            lemma_vec_progress_step(old(y)@, n as int, incy as int, to_y, 0, i as int, i as int);
        }
        let w: T = x[px];
        let z: T = y[py];
        x[px] = c.times(w).plus(s.times(z));
        y[py] = c.times(z).minus(s.times(w));
        i += 1;
    }
    proof {
        lemma_vec_progress_end(old(x)@, n as int, incx as int, to_x);
        lemma_vec_progress_end(old(y)@, n as int, incy as int, to_y);
    }
    Ok(())
}

/// A modified plane rotation: a two by two matrix `h` of which some
/// elements may be fixed, so that their products need not be computed.
#[derive(Clone, Copy, Debug)]
pub enum Rotation<T> {
    /// The identity: nothing is changed.
    Identity,
    /// All four elements are given.
    Full { h11: T, h21: T, h12: T, h22: T },
    /// The diagonal is one; the other two elements are given.
    UnitDiagonal { h21: T, h12: T },
    /// `h12` is one and `h21` is minus one; the diagonal is given.
    UnitAntidiagonal { h11: T, h22: T },
}

/// The first element of a pair after the modified rotation `h`.
pub open spec fn rotm_x<T: Scalar>(
    n: int,
    x: Seq<T>,
    incx: int,
    y: Seq<T>,
    incy: int,
    h: Rotation<T>,
) -> spec_fn(int) -> T {
    |i: int|
        {
            let w = x[slot(n, incx, i)];
            let z = y[slot(n, incy, i)];
            match h {
                Rotation::Identity => w,
                Rotation::Full { h11, h21, h12, h22 } => w.times_spec(h11).plus_spec(
                    z.times_spec(h12),
                ),
                Rotation::UnitDiagonal { h21, h12 } => w.plus_spec(z.times_spec(h12)),
                Rotation::UnitAntidiagonal { h11, h22 } => w.times_spec(h11).plus_spec(z),
            }
        }
}

/// The second element of a pair after the modified rotation `h`.
pub open spec fn rotm_y<T: Scalar>(
    n: int,
    x: Seq<T>,
    incx: int,
    y: Seq<T>,
    incy: int,
    h: Rotation<T>,
) -> spec_fn(int) -> T {
    |i: int|
        {
            let w = x[slot(n, incx, i)];
            let z = y[slot(n, incy, i)];
            match h {
                Rotation::Identity => z,
                Rotation::Full { h11, h21, h12, h22 } => w.times_spec(h21).plus_spec(
                    z.times_spec(h22),
                ),
                Rotation::UnitDiagonal { h21, h12 } => w.times_spec(h21).plus_spec(z),
                Rotation::UnitAntidiagonal { h11, h22 } => z.times_spec(h22).minus_spec(w),
            }
        }
}

/// Applies a modified plane rotation to each pair of elements of `x` and
/// `y`.
#[verifier::loop_isolation(false)]
pub fn rotm<T: Scalar>(
    n: usize,
    x: &mut [T],
    incx: isize,
    y: &mut [T],
    incy: isize,
    h: Rotation<T>,
) -> (r: Result<(), ArgError>)
    ensures
        r == pair_check(
            n as int,
            old(x)@.len() as int,
            incx as int,
            old(y)@.len() as int,
            incy as int,
        ),
        r is Err ==> final(x)@ == old(x)@ && final(y)@ == old(y)@,
        r is Ok ==> final(x)@ == vec_written(
            old(x)@,
            n as int,
            incx as int,
            rotm_x(n as int, old(x)@, incx as int, old(y)@, incy as int, h),
        ),
        r is Ok ==> final(y)@ == vec_written(
            old(y)@,
            n as int,
            incy as int,
            rotm_y(n as int, old(x)@, incx as int, old(y)@, incy as int, h),
        ),
{
    let ghost to_x = rotm_x(n as int, x@, incx as int, y@, incy as int, h);
    let ghost to_y = rotm_y(n as int, x@, incx as int, y@, incy as int, h);
    if n == 0 {
        proof {
            lemma_vec_written_empty(x@, n as int, incx as int, to_x);
            lemma_vec_written_empty(y@, n as int, incy as int, to_y);
        }
        return Ok(());
    }
    match check_pair(n, x.len(), incx, y.len(), incy) {
        Err(e) => {
            return Err(e);
        },
        Ok(()) => {},
    }
    proof {
        lemma_vec_progress_start(x@, n as int, incx as int, to_x, 0);
        lemma_vec_progress_start(y@, n as int, incy as int, to_y, 0);
    }
    let mut i: usize = 0;
    while i < n
        invariant
            0 <= i <= n,
            x@.len() == old(x)@.len(),
            y@.len() == old(y)@.len(),
            x@ == vec_progress(old(x)@, n as int, incx as int, to_x, 0, i as int),
            y@ == vec_progress(old(y)@, n as int, incy as int, to_y, 0, i as int),
        decreases n - i,
    {
        let px: usize = slot_index(n, incx, i);
        let py: usize = slot_index(n, incy, i);
        proof {
            lemma_vec_progress_step(old(x)@, n as int, incx as int, to_x, 0, i as int, i as int);
            lemma_vec_progress_step(old(y)@, n as int, incy as int, to_y, 0, i as int, i as int);
        }
        let w: T = x[px];
        let z: T = y[py];
        match h {
            Rotation::Identity => {
                x[px] = w;
                y[py] = z;
            },
            Rotation::Full { h11, h21, h12, h22 } => {
                x[px] = w.times(h11).plus(z.times(h12));
                y[py] = w.times(h21).plus(z.times(h22));
            },
            Rotation::UnitDiagonal { h21, h12 } => {
                x[px] = w.plus(z.times(h12));
                y[py] = w.times(h21).plus(z);
            },
            Rotation::UnitAntidiagonal { h11, h22 } => {
                x[px] = w.times(h11).plus(z);
                y[py] = z.times(h22).minus(w);
            },
        }
        i += 1;
    }
    proof {
        lemma_vec_progress_end(old(x)@, n as int, incx as int, to_x);
        lemma_vec_progress_end(old(y)@, n as int, incy as int, to_y);
    }
    Ok(())
}

/// The magnitudes that `asum` sums.
pub open spec fn asum_term<T: Magnitude>(n: int, x: Seq<T>, incx: int) -> spec_fn(int) -> T::Norm {
    |i: int| x[slot(n, incx, i)].abs1_spec()
}

/// What `asum` returns: the refusal of its arguments, or the sum of the
/// magnitudes of the elements, added from the first to the last.
pub open spec fn asum_result<T: Magnitude>(n: int, x: Seq<T>, incx: int) -> Result<
    T::Norm,
    ArgError,
> {
    match single_check(n, x.len() as int, incx) {
        Err(e) => Err(e),
        Ok(_) => Ok(sum_range(asum_term(n, x, incx), 0, n)),
    }
}

/// Sum of the magnitudes of the elements of `x`.
#[verifier::loop_isolation(false)]
pub fn asum<T: Magnitude>(n: usize, x: &[T], incx: isize) -> (r: Result<T::Norm, ArgError>)
    ensures
        r == asum_result(n as int, x@, incx as int),
{
    match check_vector(x.len(), n, incx) {
        Err(e) => {
            return Err(e);
        },
        Ok(()) => {},
    }
    let ghost term = asum_term(n as int, x@, incx as int);
    let mut acc: T::Norm = T::Norm::zero();
    let mut i: usize = 0;
    while i < n
        invariant
            0 <= i <= n,
            acc == sum_range(term, 0, i as int),
        decreases n - i,
    {
        let px: usize = slot_index(n, incx, i);
        acc = acc.plus(x[px].abs1());
        i += 1;
    }
    Ok(acc)
}

/// The element, counted from zero, of greatest magnitude among the first `k`
/// of the view, `k` being at least one: an element takes the place of an
/// earlier one only where its magnitude is greater, so that of equal ones
/// the first stays.
pub open spec fn first_greatest<T: Magnitude>(n: int, x: Seq<T>, incx: int, k: int) -> int
    decreases k,
{
    if k <= 1 {
        0
    } else {
        let best = first_greatest(n, x, incx, k - 1);
        if x[slot(n, incx, best)].abs1_spec().less_spec(x[slot(n, incx, k - 1)].abs1_spec()) {
            k - 1
        } else {
            best
        }
    }
}

/// The position, counted from one in the order of the view, of the first
/// element of greatest magnitude; zero for a view without elements.
pub open spec fn iamax_position<T: Magnitude>(n: int, x: Seq<T>, incx: int) -> int {
    if n <= 0 {
        0
    } else {
        first_greatest(n, x, incx, n) + 1
    }
}

/// What `iamax` returns: the refusal of its arguments, or the position of
/// the first element of greatest magnitude.
pub open spec fn iamax_result<T: Magnitude>(n: int, x: Seq<T>, incx: int) -> Result<
    usize,
    ArgError,
> {
    match single_check(n, x.len() as int, incx) {
        Err(e) => Err(e),
        Ok(_) => Ok(iamax_position(n, x, incx) as usize),
    }
}

/// Position of the element of greatest magnitude, counted from one in the
/// order of the view: the first element is at position one, whatever the
/// stride. Of several elements of greatest magnitude it is the first; for a
/// view without elements it is zero.
#[verifier::loop_isolation(false)]
pub fn iamax<T: Magnitude>(n: usize, x: &[T], incx: isize) -> (r: Result<usize, ArgError>)
    ensures
        r == iamax_result(n as int, x@, incx as int),
        r is Ok ==> r->Ok_0 == iamax_position(n as int, x@, incx as int),
        r is Ok ==> (r->Ok_0 == 0 <==> n == 0),
        r is Ok ==> r->Ok_0 <= n,
{
    match check_vector(x.len(), n, incx) {
        Err(e) => {
            return Err(e);
        },
        Ok(()) => {},
    }
    if n == 0 {
        return Ok(0);
    }
    let p0: usize = slot_index(n, incx, 0);
    let mut best: usize = 0;
    let mut top: T::Norm = x[p0].abs1();
    let mut i: usize = 1;
    while i < n
        invariant
            1 <= i <= n,
            0 <= best < i,
            best == first_greatest(n as int, x@, incx as int, i as int),
            top == x@[slot(n as int, incx as int, best as int)].abs1_spec(),
        decreases n - i,
    {
        let px: usize = slot_index(n, incx, i);
        let here: T::Norm = x[px].abs1();
        if top.less(here) {
            best = i;
            top = here;
        }
        i += 1;
    }
    Ok(best + 1)
}

/// The sum of `init` and the products of the widened elements of two
/// views, up to element `k`: each product is added to what came before it.
pub open spec fn wide_sum<T: Widen>(
    init: T::Wide,
    n: int,
    x: Seq<T>,
    incx: int,
    y: Seq<T>,
    incy: int,
    k: int,
) -> T::Wide
    decreases k,
{
    if k <= 0 {
        init
    } else {
        wide_sum(init, n, x, incx, y, incy, k - 1).plus_spec(
            x[slot(n, incx, k - 1)].widen_spec().times_spec(y[slot(n, incy, k - 1)].widen_spec()),
        )
    }
}

/// What the widened inner product returns: the refusal of its arguments, or
/// the sum of the products of the widened elements, starting from zero.
pub open spec fn wide_dot_result<T: Widen>(
    n: int,
    x: Seq<T>,
    incx: int,
    y: Seq<T>,
    incy: int,
) -> Result<T::Wide, ArgError> {
    match pair_check(n, x.len() as int, incx, y.len() as int, incy) {
        Err(e) => Err(e),
        Ok(_) => Ok(wide_sum(T::Wide::zero_spec(), n, x, incx, y, incy, n)),
    }
}

/// What the offset inner product returns: the refusal of its arguments, or
/// the narrowed sum of the widened offset and the products of the widened
/// elements.
pub open spec fn offset_dot_result<T: Widen>(
    n: int,
    offset: T,
    x: Seq<T>,
    incx: int,
    y: Seq<T>,
    incy: int,
) -> Result<T, ArgError> {
    match pair_check(n, x.len() as int, incx, y.len() as int, incy) {
        Err(e) => Err(e),
        Ok(_) => Ok(T::narrow_spec(wide_sum(offset.widen_spec(), n, x, incx, y, incy, n))),
    }
}

/// Adds the products of the widened elements of two views to `init`.
#[verifier::loop_isolation(false)]
fn wide_accumulate<T: Widen>(
    init: T::Wide,
    n: usize,
    x: &[T],
    incx: isize,
    y: &[T],
    incy: isize,
) -> (acc: T::Wide)
    requires
        pair_check(n as int, x@.len() as int, incx as int, y@.len() as int, incy as int) is Ok,
    ensures
        acc == wide_sum(init, n as int, x@, incx as int, y@, incy as int, n as int),
{
    let x_len: usize = x.len();
    let y_len: usize = y.len();
    let mut acc: T::Wide = init;
    let mut i: usize = 0;
    while i < n
        invariant
            0 <= i <= n,
            acc == wide_sum(init, n as int, x@, incx as int, y@, incy as int, i as int),
        decreases n - i,
    {
        let px: usize = slot_index(n, incx, i);
        let py: usize = slot_index(n, incy, i);
        acc = acc.plus(x[px].widen().times(y[py].widen()));
        i += 1;
    }
    acc
}

/// Inner product accumulated in the wider scalar, and returned in it.
pub fn wide_dot<T: Widen>(n: usize, x: &[T], incx: isize, y: &[T], incy: isize) -> (r: Result<
    T::Wide,
    ArgError,
>)
    ensures
        r == wide_dot_result(n as int, x@, incx as int, y@, incy as int),
{
    match check_pair(n, x.len(), incx, y.len(), incy) {
        Err(e) => Err(e),
        Ok(()) => Ok(wide_accumulate(T::Wide::zero(), n, x, incx, y, incy)),
    }
}

/// Inner product plus an offset, accumulated in the wider scalar and
/// narrowed on return.
pub fn offset_dot<T: Widen>(
    n: usize,
    offset: T,
    x: &[T],
    incx: isize,
    y: &[T],
    incy: isize,
) -> (r: Result<T, ArgError>)
    ensures
        r == offset_dot_result(n as int, offset, x@, incx as int, y@, incy as int),
{
    match check_pair(n, x.len(), incx, y.len(), incy) {
        Err(e) => Err(e),
        Ok(()) => Ok(T::narrow(wide_accumulate(offset.widen(), n, x, incx, y, incy))),
    }
}

} // verus!
