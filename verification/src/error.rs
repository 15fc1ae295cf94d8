//! The failures that the board, its squares and the classifier report.

use vstd::prelude::*;

verus! {

/// Why an operation on a board, on one of its squares or on a classifier
/// was refused.
#[derive(Debug, Clone, Copy, PartialEq, Eq, Structural)]
pub enum BoardError {
    /// A coordinate lies outside `1..=cols`.
    OutOfBounds,
    /// A square cannot change as asked: a queen was to be put on an
    /// attacked square, an attack was to be recorded on a queen or beyond
    /// what the counter can hold, or an attack was to be taken back from a
    /// square that records none.
    IllegalToggle,
    /// A score was asked of a classifier whose weights sum up to zero.
    ZeroWeightClassifier,
}

impl BoardError {
    /// A short description of the failure.
    pub fn message(&self) -> (r: &'static str)
        ensures
            r@ == match *self {
                BoardError::OutOfBounds => "Coordinates out of bounds"@,
                BoardError::IllegalToggle => "Cell not available"@,
                BoardError::ZeroWeightClassifier => "Classifier without weight"@,
            },
    {
        match self {
            BoardError::OutOfBounds => "Coordinates out of bounds",
            BoardError::IllegalToggle => "Cell not available",
            BoardError::ZeroWeightClassifier => "Classifier without weight",
        }
    }
}

} // verus!
