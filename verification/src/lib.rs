//! Dense linear-algebra kernels over strided vectors and full, packed and
//! banded matrices, generic in the scalar type.
//!
//! Every kernel validates its arguments before it touches a buffer, and its
//! contract states the exact contents of the output afterwards: which slots
//! are written, with which value, and that every other slot keeps its value.
//! The arithmetic is that of the scalar type, applied in the order that the
//! contracts spell out; no kernel assumes that it is associative.
//!
//! - `selector`, `error`: the operation selectors and the refusals.
//! - `scalar`, `complex`, `ring`: what a scalar is, the scalars that the
//!   library brings, and the algebraic laws that the exact ones obey.
//! - `stride`, `layout`, `triangle`, `sum`: where the elements of a vector
//!   and of a full, band or packed matrix stand in their buffers, and sums
//!   in a fixed order.
//! - `level1`, `norm`, `givens`: kernels on vectors.
//! - `gemv`, `symv`, `trmv`, `trsv`, `rank`: kernels on a matrix and vectors.
//! - `gemm`, `symm`, `syrk`, `trmm`, `trsm`: kernels on matrices.
//! - `laws`: what holds of the kernels together.

pub mod complex;
pub mod error;
pub mod gemm;
pub mod gemv;
pub mod givens;
pub mod laws;
pub mod layout;
pub mod level1;
pub mod norm;
pub mod rank;
pub mod ring;
pub mod scalar;
pub mod selector;
pub mod stride;
pub mod sum;
pub mod symm;
pub mod symv;
pub mod syrk;
pub mod triangle;
pub mod trmm;
pub mod trmv;
pub mod trsm;
pub mod trsv;

pub use error::ArgError;
pub use selector::{Diag, Side, Trans, Uplo};
