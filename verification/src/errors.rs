//! The error taxonomy of the library.
//!
//! Every recoverable failure is reported as a value of [`ArshinError`]:
//! catalog read failures, document syntax errors, duplicate registration,
//! unknown unit names, dimension mismatch on explicit conversion, and values
//! that the exact rational representation cannot hold.  Message formatting
//! and presentation are left to the application layer; the variants carry
//! the structured data a presenter needs.

use crate::fundamentals::Dimension;
use vstd::prelude::*;

verus! {

/// A recoverable failure of a library operation.
#[derive(Debug, Clone, PartialEq, Eq)]
pub enum ArshinError {
    /// Arithmetic was asked to combine two quantities of different
    /// dimensions.
    IncompatibleDimensions { a: Dimension, b: Dimension },
    /// A unit-definition document is malformed.
    ParseError { message: String },
    /// A catalog could not be read from storage.
    StorageError { message: String },
    /// An explicit conversion was asked for across different dimensions.
    UnitConversionError { expected: Dimension, got: Dimension },
    /// A unit of this name is already registered.
    DuplicateUnitName { name: String },
    /// No unit of this name is registered.
    UnknownUnitName { name: String },
    /// The exact result of a numeric operation is not representable: an
    /// intermediate leaves the `i128` range, or a logarithmic conversion
    /// falls outside the exact powers of ten.
    NotRepresentable,
}

} // verus!
