use vstd::prelude::*;

verus! {

/// Why a vector or matrix operation failed.
#[derive(Clone, Copy, Debug, PartialEq, Eq, Structural)]
pub enum MatrixError {
    /// The left operand's column count differs from the right operand's row count.
    ShapeMismatch,
    /// The two operands of a dot product differ in length.
    LengthMismatch,
    /// A cell's reply could not be retrieved: it never came, or its index was
    /// out of range or already taken.
    ChannelClosed,
    /// A product or a running sum left the range of `i64`.
    Overflow,
}

} // verus!
