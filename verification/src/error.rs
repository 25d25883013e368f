use vstd::prelude::*;

verus! {

/// Why a kernel refused its arguments. A refused call leaves every buffer as
/// it was.
#[derive(Clone, Copy, Debug, PartialEq, Eq, Structural)]
pub enum ArgError {
    /// A vector stride is zero.
    ZeroStride,
    /// A leading dimension is smaller than the stored column is tall.
    LeadingDimension,
    /// A buffer is shorter than the view laid over it.
    BufferTooShort,
}

} // verus!
