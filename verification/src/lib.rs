//! Exact arithmetic on integer-coefficient polynomials represented as dense
//! coefficient vectors in ascending-degree order.
//!
//! The central algorithm is synthetic long division over truncating `i32`
//! arithmetic; addition, subtraction and scalar multiplication are the
//! termwise operations it builds on. Every operation returns a result in
//! normalized form: no trailing zero coefficient, the empty vector standing
//! for the zero polynomial.

pub mod laws;
pub mod model;
pub mod vector;

pub use crate::vector::DivError;
pub use crate::vector::Vector;
