//! Dense matrices over any copyable scalar: construction, element access,
//! transposition, products, and singular value decompositions by one-sided
//! rotations or brought in from a full decomposition.
//!
//! The scalar type is a parameter and the scalar arithmetic is supplied by the
//! caller, so every statement here is about shapes, positions, the order in
//! which the scalar operations are applied, and what they were applied to.

pub mod algebra;
pub mod error;
pub mod matrix;
pub mod order;
pub mod svd;
pub mod sweep;
