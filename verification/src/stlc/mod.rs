//! The simply typed lambda calculus with booleans, naturals and records.

pub mod term;
pub mod typing;
