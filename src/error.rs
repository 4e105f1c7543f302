use vstd::prelude::*;

verus! {

/// What can go wrong when addressing or loading a canvas.
#[derive(Clone, Copy, Debug, PartialEq, Eq, Structural)]
pub enum CanvasError {
    /// A coordinate lies outside the grid.
    OutOfRange,
    /// A byte buffer is shorter than the grid's packed size.
    InsufficientData,
    /// A bit sequence is shorter than the plane it should fill.
    DimensionMismatch,
}

} // verus!
