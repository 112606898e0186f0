//! Polynomials and single-input single-output transfer functions over a
//! coefficient type whose arithmetic the caller supplies.

pub mod algebra;
pub mod arith;
pub mod connection;
pub mod error;
pub mod laws;
pub mod polynomial;
pub mod tf;

pub use arith::{Arith, ArithSpec, Op};
pub use connection::{feedback, feedback_positive, parallel, series};
pub use error::CoreError;
pub use polynomial::{poly_div, Polynomial};
pub use tf::TransferFunction;
