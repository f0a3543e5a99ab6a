//! Primitive operations of a symbolic executor for Sail specifications, over
//! concrete and symbolic values, with the SMT definitions they emit.

pub mod bits;
pub mod smt;
pub mod val;
pub mod primop;
pub mod laws;
pub mod model;
pub mod agreement;
