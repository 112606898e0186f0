//! The errors of polynomial and transfer-function construction.
use vstd::prelude::*;

verus! {

/// Why a polynomial, a transfer function or a division was refused.
#[derive(Clone, Copy, Debug, PartialEq, Eq, Structural)]
pub enum CoreError {
    /// A polynomial needs at least one coefficient.
    EmptyCoefficients,
    /// The denominator of a transfer function is the zero polynomial.
    ZeroDenominator,
    /// The numerator's degree exceeds the denominator's.
    Improper { num_deg: usize, den_deg: usize },
    /// Division by the zero polynomial.
    DivisionByZero,
}

} // verus!
