//! The ways in which an operation of this library can fail.

use vstd::prelude::*;

verus! {

/// Why a value could not be built or two values could not be combined.
#[derive(Clone, Copy, Debug, PartialEq, Eq, Structural)]
pub enum EccError {
    /// A number lies outside the range that the value under construction allows.
    OutOfRange,
    /// Two field elements with different moduli were combined.
    FieldMismatch,
    /// Two points of different curves were combined.
    CurveMismatch,
    /// The coordinates do not satisfy the curve equation.
    NotOnCurve,
    /// Signing produced a zero `r` or a zero `s`.
    DegenerateSignature,
}

} // verus!
