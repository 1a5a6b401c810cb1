//! The one way in which an operation on matrices can fail.
use vstd::prelude::*;

verus! {

/// Why an operation on two matrices was refused.
#[derive(Debug, Clone, Copy, PartialEq, Eq, Structural)]
pub enum ErrorKind {
    /// The two operands do not have the same shape.
    ShapeMismatch,
}

impl ErrorKind {
    /// A description of the error for a human reader.
    pub fn message(&self) -> (text: &'static str)
        ensures
            text@ == match *self {
                ErrorKind::ShapeMismatch => "cannot add two matrices with different shapes"@,
            },
    {
        match self {
            ErrorKind::ShapeMismatch => "cannot add two matrices with different shapes",
        }
    }
}

} // verus!
