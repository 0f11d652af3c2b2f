use vstd::prelude::*;

verus! {

/// Why an operation on matrices was refused.
#[derive(Clone, Copy, Debug, PartialEq, Eq, Structural)]
pub enum MatrixError {
    /// The shapes of the operands do not fit the operation.
    DimensionMismatch,
    /// A row or column index lies outside the matrix.
    IndexOutOfBounds,
    /// An iterative decomposition used up its sweeps before it converged.
    ConvergenceFailure,
}

impl MatrixError {
    /// A short description for diagnostics.
    pub fn describe(&self) -> (text: &'static str)
        ensures
            text@ == (match *self {
                MatrixError::DimensionMismatch => "dimension mismatch"@,
                MatrixError::IndexOutOfBounds => "index out of bounds"@,
                MatrixError::ConvergenceFailure => "convergence failure"@,
            }),
    {
        match self {
            MatrixError::DimensionMismatch => "dimension mismatch",
            MatrixError::IndexOutOfBounds => "index out of bounds",
            MatrixError::ConvergenceFailure => "convergence failure",
        }
    }
}

} // verus!
