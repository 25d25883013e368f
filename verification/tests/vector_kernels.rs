use metal::complex::Complex;
use metal::error::ArgError;
use metal::givens::{rotg, Givens};
use metal::level1::{
    asum, axpy, check_pair, copy, dotc, dotu, iamax, inner_product, offset_dot, rot, rotm, scal,
    swap, wide_dot, Rotation,
};
use metal::norm::{nrm2, nrm2_complex, ssq_add};
use metal::scalar::{int_sqrt_of, magnitude, Field, Real, Scalar};

const HOLE: i64 = 1_000_003;

fn c(re: i64, im: i64) -> Complex<i64> {
    Complex::new(re, im)
}

#[test]
fn copy_with_unit_strides() {
    let x = [1i64, 2, 3];
    let mut y = [0i64; 3];
    assert_eq!(copy(3, &x, 1, &mut y, 1), Ok(()));
    assert_eq!(y, [1, 2, 3]);
}

#[test]
fn copy_leaves_slots_between_elements() {
    let x = [1i64, HOLE, 2, HOLE, 3];
    let mut y = [7i64; 7];
    assert_eq!(copy(3, &x, 2, &mut y, 3), Ok(()));
    assert_eq!(y, [1, 7, 7, 2, 7, 7, 3]);
}

#[test]
fn copy_with_negative_stride_reverses() {
    let x = [1i64, 2, 3];
    let mut y = [0i64; 3];
    assert_eq!(copy(3, &x, -1, &mut y, 1), Ok(()));
    assert_eq!(y, [3, 2, 1]);
    let mut z = [0i64; 5];
    assert_eq!(copy(3, &x, 1, &mut z, -2), Ok(()));
    assert_eq!(z, [3, 0, 2, 0, 1]);
    let mut w = [0i64; 3];
    assert_eq!(copy(3, &x, -1, &mut w, -1), Ok(()));
    assert_eq!(w, [1, 2, 3]);
}

#[test]
fn copy_of_nothing_touches_nothing() {
    let x: [i64; 0] = [];
    let mut y = [5i64, 6];
    assert_eq!(copy(0, &x, 0, &mut y, 0), Ok(()));
    assert_eq!(y, [5, 6]);
}

#[test]
fn copy_refuses_bad_arguments_and_writes_nothing() {
    let x = [1i64, 2, 3];
    let mut y = [9i64; 3];
    assert_eq!(copy(3, &x, 0, &mut y, 1), Err(ArgError::ZeroStride));
    assert_eq!(copy(3, &x, 1, &mut y, 0), Err(ArgError::ZeroStride));
    assert_eq!(copy(4, &x, 1, &mut y, 1), Err(ArgError::BufferTooShort));
    assert_eq!(copy(3, &x, 1, &mut y, 2), Err(ArgError::BufferTooShort));
    // The first argument at fault decides.
    assert_eq!(copy(4, &x, 1, &mut y, 0), Err(ArgError::BufferTooShort));
    assert_eq!(y, [9, 9, 9]);
}

#[test]
fn check_pair_reports_first_fault() {
    assert_eq!(check_pair(0, 0, 0, 0, 0), Ok(()));
    assert_eq!(check_pair(2, 2, 1, 2, 1), Ok(()));
    assert_eq!(check_pair(2, 1, 1, 2, 0), Err(ArgError::BufferTooShort));
    assert_eq!(check_pair(2, 2, 1, 2, 0), Err(ArgError::ZeroStride));
}

#[test]
fn swap_exchanges_elements() {
    let mut x = [1i64, HOLE, 2];
    let mut y = [10i64, 20];
    assert_eq!(swap(2, &mut x, 2, &mut y, -1), Ok(()));
    assert_eq!(x, [20, HOLE, 10]);
    assert_eq!(y, [2, 1]);
}

#[test]
fn swap_refuses_bad_arguments_and_writes_nothing() {
    let mut x = [1i64, 2];
    let mut y = [3i64];
    assert_eq!(swap(2, &mut x, 1, &mut y, 1), Err(ArgError::BufferTooShort));
    assert_eq!(swap(1, &mut x, 0, &mut y, 1), Err(ArgError::ZeroStride));
    assert_eq!(x, [1, 2]);
    assert_eq!(y, [3]);
}

#[test]
fn scal_multiplies_each_element() {
    let mut x = [1i64, HOLE, -2, HOLE, 3];
    assert_eq!(scal(3, 5, &mut x, 2), Ok(()));
    assert_eq!(x, [5, HOLE, -10, HOLE, 15]);
}

#[test]
fn scal_by_zero_clears_the_elements_only() {
    let mut x = [1i64, HOLE, -2, HOLE, 3];
    assert_eq!(scal(3, 0, &mut x, -2), Ok(()));
    assert_eq!(x, [0, HOLE, 0, HOLE, 0]);
}

#[test]
fn scal_with_complex_factor() {
    let mut x = [c(1, 2), c(0, -1)];
    assert_eq!(scal(2, c(3, 1), &mut x, 1), Ok(()));
    // (3 + i)(1 + 2i) = 1 + 7i, (3 + i)(-i) = 1 - 3i
    assert_eq!(x, [c(1, 7), c(1, -3)]);
}

#[test]
fn scal_refuses_bad_arguments() {
    let mut x = [1i64, 2];
    assert_eq!(scal(2, 3, &mut x, 0), Err(ArgError::ZeroStride));
    assert_eq!(scal(3, 3, &mut x, 1), Err(ArgError::BufferTooShort));
    assert_eq!(scal(0, 3, &mut x, 0), Ok(()));
    assert_eq!(x, [1, 2]);
}

#[test]
fn axpy_adds_scaled_vector() {
    let x = [1i64, 2, 3];
    let mut y = [10i64, 20, 30];
    assert_eq!(axpy(3, 2, &x, 1, &mut y, 1), Ok(()));
    assert_eq!(y, [12, 24, 36]);
}

#[test]
fn axpy_with_strides() {
    let x = [1i64, HOLE, 2, HOLE, 3];
    let mut y = [10i64, 20, 30];
    assert_eq!(axpy(3, -1, &x, 2, &mut y, -1), Ok(()));
    assert_eq!(y, [7, 18, 29]);
}

#[test]
fn axpy_with_zero_factor_changes_nothing() {
    let x = [i64::MAX, i64::MIN, 7];
    let mut y = [10i64, 20, 30];
    assert_eq!(axpy(3, 0, &x, 1, &mut y, 1), Ok(()));
    assert_eq!(y, [10, 20, 30]);
}

#[test]
fn axpy_refuses_bad_arguments_even_with_zero_factor() {
    let x = [1i64, 2];
    let mut y = [10i64, 20, 30];
    assert_eq!(axpy(3, 0, &x, 1, &mut y, 1), Err(ArgError::BufferTooShort));
    assert_eq!(axpy(2, 0, &x, 0, &mut y, 1), Err(ArgError::ZeroStride));
    assert_eq!(y, [10, 20, 30]);
}

#[test]
fn axpy_wraps_on_overflow() {
    let x = [i64::MAX];
    let mut y = [1i64];
    assert_eq!(axpy(1, 1, &x, 1, &mut y, 1), Ok(()));
    assert_eq!(y, [i64::MIN]);
}

#[test]
fn dot_of_real_vectors() {
    let x = [1i64, 2, 3];
    let y = [4i64, -5, 6];
    assert_eq!(dotu(3, &x, 1, &y, 1), Ok(4 - 10 + 18));
    assert_eq!(dotc(3, &x, 1, &y, 1), Ok(12));
    assert_eq!(dotu(3, &x, -1, &y, 1), Ok(12 - 10 + 6));
    assert_eq!(dotu(0, &x, 1, &y, 1), Ok(0));
}

#[test]
fn dot_of_complex_vectors() {
    let x = [c(1, 2), c(3, -1)];
    let y = [c(2, 1), c(0, 4)];
    // (1+2i)(2+i) = 5i; (3-i)(4i) = 4 + 12i
    assert_eq!(dotu(2, &x, 1, &y, 1), Ok(c(4, 17)));
    // (1-2i)(2+i) = 4 - 3i; (3+i)(4i) = -4 + 12i
    assert_eq!(dotc(2, &x, 1, &y, 1), Ok(c(0, 9)));
    assert_eq!(inner_product(true, 2, &x, 1, &y, 1), Ok(c(0, 9)));
}

#[test]
fn dot_refuses_bad_arguments() {
    let x = [1i64, 2];
    let y = [3i64, 4];
    assert_eq!(dotu(2, &x, 0, &y, 1), Err(ArgError::ZeroStride));
    assert_eq!(dotc(3, &x, 1, &y, 1), Err(ArgError::BufferTooShort));
}

#[test]
fn wide_dot_keeps_products_that_overflow_the_narrow_type() {
    let x = [100_000i32, 3];
    let y = [100_000i32, 5];
    assert_eq!(wide_dot(2, &x, 1, &y, 1), Ok(10_000_000_015i64));
    // The narrow inner product wraps.
    assert_eq!(dotu(2, &x, 1, &y, 1), Ok(10_000_000_015i64 as i32));
    assert_eq!(wide_dot(0, &x, 1, &y, 1), Ok(0i64));
    assert_eq!(wide_dot(2, &x, 0, &y, 1), Err(ArgError::ZeroStride));
}

#[test]
fn offset_dot_accumulates_wide_and_narrows_once() {
    let x = [100_000i32, -100_000];
    let y = [100_000i32, 100_000];
    // Every partial sum but the last overflows the narrow type.
    assert_eq!(offset_dot(2, 7, &x, 1, &y, 1), Ok(7));
    assert_eq!(offset_dot(0, 7, &x, 1, &y, 1), Ok(7));
    assert_eq!(offset_dot(1, 1, &x, 1, &y, 1), Ok(10_000_000_001i64 as i32));
    assert_eq!(offset_dot(3, 7, &x, 1, &y, 1), Err(ArgError::BufferTooShort));
}

#[test]
fn rot_applies_rotation_to_each_pair() {
    let mut x = [1i64, 2];
    let mut y = [10i64, 20];
    assert_eq!(rot(2, &mut x, 1, &mut y, 1, 3, 4), Ok(()));
    // x' = 3x + 4y, y' = 3y - 4x
    assert_eq!(x, [43, 86]);
    assert_eq!(y, [26, 52]);
}

#[test]
fn rot_by_identity_and_by_quarter_turn() {
    let mut x = [1i64, 2];
    let mut y = [10i64, 20];
    assert_eq!(rot(2, &mut x, 1, &mut y, 1, 1, 0), Ok(()));
    assert_eq!((x, y), ([1, 2], [10, 20]));
    assert_eq!(rot(2, &mut x, 1, &mut y, -1, 0, 1), Ok(()));
    assert_eq!((x, y), ([20, 10], [-2, -1]));
}

#[test]
fn rot_refuses_bad_arguments() {
    let mut x = [1i64, 2];
    let mut y = [10i64];
    assert_eq!(rot(2, &mut x, 1, &mut y, 1, 1, 0), Err(ArgError::BufferTooShort));
    assert_eq!(rot(1, &mut x, 0, &mut y, 1, 1, 0), Err(ArgError::ZeroStride));
    assert_eq!(rot(0, &mut x, 0, &mut y, 0, 1, 0), Ok(()));
    assert_eq!((x, y), ([1, 2], [10]));
}

#[test]
fn rotm_in_each_form() {
    let base_x = [1i64, 2];
    let base_y = [10i64, 20];
    let mut x = base_x;
    let mut y = base_y;
    assert_eq!(rotm(2, &mut x, 1, &mut y, 1, Rotation::Identity), Ok(()));
    assert_eq!((x, y), (base_x, base_y));
    let full = Rotation::Full { h11: 2, h21: 3, h12: 5, h22: 7 };
    assert_eq!(rotm(2, &mut x, 1, &mut y, 1, full), Ok(()));
    // x' = 2x + 5y, y' = 3x + 7y
    assert_eq!((x, y), ([52, 104], [73, 146]));
    let mut x = base_x;
    let mut y = base_y;
    assert_eq!(rotm(2, &mut x, 1, &mut y, 1, Rotation::UnitDiagonal { h21: 3, h12: 5 }), Ok(()));
    // x' = x + 5y, y' = 3x + y
    assert_eq!((x, y), ([51, 102], [13, 26]));
    let mut x = base_x;
    let mut y = base_y;
    assert_eq!(rotm(2, &mut x, 1, &mut y, 1, Rotation::UnitAntidiagonal { h11: 2, h22: 7 }), Ok(()));
    // x' = 2x + y, y' = -x + 7y
    assert_eq!((x, y), ([12, 24], [69, 138]));
}

#[test]
fn rotm_refuses_bad_arguments() {
    let mut x = [1i64, 2];
    let mut y = [10i64];
    assert_eq!(rotm(2, &mut x, 1, &mut y, 1, Rotation::Identity), Err(ArgError::BufferTooShort));
    assert_eq!(rotm(1, &mut x, 1, &mut y, 0, Rotation::Identity), Err(ArgError::ZeroStride));
    assert_eq!((x, y), ([1, 2], [10]));
}

#[test]
fn asum_adds_absolute_values() {
    let x = [1i64, HOLE, -2, HOLE, 3];
    assert_eq!(asum(3, &x, 2), Ok(6));
    assert_eq!(asum(0, &x, 2), Ok(0));
    assert_eq!(asum(3, &x, 0), Err(ArgError::ZeroStride));
    assert_eq!(asum(4, &x, 2), Err(ArgError::BufferTooShort));
}

#[test]
fn asum_of_complex_adds_both_parts() {
    let x = [c(3, -4), c(-1, 1)];
    assert_eq!(asum(2, &x, 1), Ok(9));
}

#[test]
fn iamax_counts_positions_from_one() {
    let x = [1i64, -7, 3, 5];
    assert_eq!(iamax(4, &x, 1), Ok(2));
    // Walked backwards the view is [5, 3, -7, 1].
    assert_eq!(iamax(4, &x, -1), Ok(3));
    // With stride two the view is [1, 3].
    assert_eq!(iamax(2, &x, 2), Ok(2));
    assert_eq!(iamax(1, &x, 1), Ok(1));
    assert_eq!(iamax(4, &[1i64, -3, 3, 2], 1), Ok(2));
}

#[test]
fn iamax_keeps_the_first_of_equal_elements() {
    let x = [2i64, -5, 5, 5, 1];
    assert_eq!(iamax(5, &x, 1), Ok(2));
    // Walked backwards the view is [1, 5, 5, -5, 2].
    assert_eq!(iamax(5, &x, -1), Ok(2));
    let flat = [4i64, 4, 4];
    assert_eq!(iamax(3, &flat, 1), Ok(1));
}

#[test]
fn iamax_of_complex_ranks_by_sum_of_parts() {
    // Moduli: 5 and about 5.66; sums of parts: 7 and 8.
    let x = [c(3, 4), c(4, 4), c(0, -7)];
    assert_eq!(iamax(3, &x, 1), Ok(2));
    // (5, 0) has the greater modulus than (3, 3), the smaller sum of parts.
    let y = [c(5, 0), c(3, 3)];
    assert_eq!(iamax(2, &y, 1), Ok(2));
    // 3 + 4i wins on the sum of its parts, 7, though its modulus, 5, is
    // smaller than 6.
    let z = [c(3, 4), c(6, 0)];
    assert_eq!(iamax(2, &z, 1), Ok(1));
}

#[test]
fn iamax_of_nothing_and_of_bad_arguments() {
    let x = [1i64, 2];
    assert_eq!(iamax(0, &x, 1), Ok(0));
    assert_eq!(iamax(0, &x, 0), Ok(0));
    assert_eq!(iamax(2, &x, 0), Err(ArgError::ZeroStride));
    assert_eq!(iamax(3, &x, 1), Err(ArgError::BufferTooShort));
}

#[test]
fn integer_square_root() {
    assert_eq!(int_sqrt_of(0), 0);
    assert_eq!(int_sqrt_of(1), 1);
    assert_eq!(int_sqrt_of(3), 1);
    assert_eq!(int_sqrt_of(4), 2);
    assert_eq!(int_sqrt_of(24), 4);
    assert_eq!(int_sqrt_of(25), 5);
    assert_eq!(int_sqrt_of(1_000_000_000_000), 1_000_000);
    assert_eq!(int_sqrt_of(i64::MAX), 3_037_000_499);
    assert_eq!(25i64.sqrt(), 5);
    assert_eq!((-25i64).sqrt(), 0);
}

#[test]
fn integer_scalar_operations() {
    assert_eq!(<i64 as Scalar>::zero(), 0);
    assert_eq!(<i64 as Scalar>::one(), 1);
    assert!(0i64.is_zero());
    assert!(!3i64.is_zero());
    assert_eq!(3i64.plus(4), 7);
    assert_eq!(3i64.minus(4), -1);
    assert_eq!(3i64.times(4), 12);
    assert_eq!(i64::MAX.plus(1), i64::MIN);
    assert_eq!(i64::MIN.minus(1), i64::MAX);
    assert_eq!(i64::MAX.times(2), -2);
    assert_eq!(5i64.conj(), 5);
    assert_eq!(5i64.real_part(), 5);
    assert_eq!((-5i64).absolute(), 5);
    assert_eq!(i64::MIN.absolute(), i64::MIN);
    assert!(3i64.less(4));
    assert!(!4i64.less(4));
    assert_eq!(magnitude(-5), 5);
    assert_eq!(magnitude(i64::MIN), 1u64 << 63);
}

#[test]
fn integer_division_is_total() {
    assert_eq!(7i64.over(2), 3);
    assert_eq!((-7i64).over(2), -3);
    assert_eq!(7i64.over(-2), -3);
    assert_eq!((-7i64).over(-2), 3);
    assert_eq!(7i64.over(0), 0);
    assert_eq!(i64::MIN.over(-1), i64::MIN);
    assert_eq!(i64::MIN.over(1), i64::MIN);
    assert_eq!(i64::MAX.over(-1), -i64::MAX);
}

#[test]
fn complex_scalar_operations() {
    let z = c(3, 4);
    let w = c(1, -2);
    assert_eq!(z.plus(w), c(4, 2));
    assert_eq!(z.minus(w), c(2, 6));
    assert_eq!(z.times(w), c(11, -2));
    assert_eq!(z.conj(), c(3, -4));
    assert_eq!(z.real_part(), c(3, 0));
    assert_eq!(Complex::<i64>::zero(), c(0, 0));
    assert_eq!(Complex::<i64>::one(), c(1, 0));
    assert_eq!(Complex::from_real(5i64), c(5, 0));
    assert!(c(0, 0).is_zero());
    assert!(!c(0, 1).is_zero());
    // (11 - 2i) / (1 - 2i) = 3 + 4i
    assert_eq!(c(11, -2).over(w), z);
}

#[test]
fn nrm2_of_integers_follows_the_scaled_sum() {
    // The scale becomes 3, then 4; each quotient truncates to zero.
    assert_eq!(nrm2(2, &[3i64, 4], 1), Ok(4));
    // Equal magnitudes: the sum of squares is 1 + 1 + 1 + 1, its root 2.
    assert_eq!(nrm2(4, &[5i64, -5, 5, -5], 1), Ok(10));
    assert_eq!(nrm2(3, &[0i64, 0, 0], 1), Ok(0));
    assert_eq!(nrm2(0, &[3i64], 1), Ok(0));
    assert_eq!(nrm2(1, &[-7i64], 1), Ok(7));
    assert_eq!(nrm2(2, &[3i64], 1), Err(ArgError::BufferTooShort));
    assert_eq!(nrm2(1, &[3i64], 0), Err(ArgError::ZeroStride));
}

#[test]
fn nrm2_of_complex_takes_both_parts() {
    assert_eq!(nrm2_complex(2, &[c(5, 5), c(-5, 5)], 1), Ok(10));
    assert_eq!(nrm2_complex(0, &[c(5, 5)], 1), Ok(0));
    assert_eq!(nrm2_complex(1, &[c(0, -6)], 1), Ok(6));
    assert_eq!(nrm2_complex(1, &[c(0, -6)], 0), Err(ArgError::ZeroStride));
}

#[test]
fn scaled_sum_steps() {
    assert_eq!(ssq_add((0i64, 1i64), 0), (0, 1));
    assert_eq!(ssq_add((0i64, 1i64), -3), (3, 1));
    assert_eq!(ssq_add((3i64, 1i64), 3), (3, 2));
    assert_eq!(ssq_add((3i64, 2i64), 6), (6, 1));
}

#[test]
fn rotg_of_degenerate_pairs() {
    assert_eq!(rotg(0i64, 0), Givens { r: 0, z: 0, c: 1, s: 0 });
    assert_eq!(rotg(5i64, 0), Givens { r: 5, z: 0, c: 1, s: 0 });
    assert_eq!(rotg(-5i64, 0), Givens { r: -5, z: 0, c: 1, s: 0 });
    assert_eq!(rotg(0i64, 5), Givens { r: 0, z: 0, c: 1, s: 0 });
}
