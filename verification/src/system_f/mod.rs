//! The polymorphic calculus: terms, types and the checker.

pub mod span;
pub mod terms;
pub mod types;
