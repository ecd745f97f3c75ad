//! Type checking for a family of typed lambda calculi in De Bruijn form.
//!
//! [`stlc`] holds the simply typed calculus with records. [`system_f`] holds
//! the richer engine: parametric polymorphism, variants, products,
//! iso-recursive types and type aliases, together with the index-shifting and
//! substitution machinery it rests on.

pub mod stlc;
pub mod system_f;
