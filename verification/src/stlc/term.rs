//! Terms of the simply typed calculus.

use vstd::prelude::*;
use std::rc::Rc;
use super::typing::Type;

verus! {

/// A record: a row of fields, told apart by their position.
#[derive(Clone, Debug, PartialEq, PartialOrd)]
pub struct Record {
    pub fields: Vec<Rc<Term>>,
}

/// A term. Variables are De Bruijn indices into the enclosing binders (`Abs`
/// and `Let`).
#[derive(Clone, Debug, PartialEq, PartialOrd)]
pub enum Term {
    True,
    False,
    Zero,
    Succ(Rc<Term>),
    Pred(Rc<Term>),
    IsZero(Rc<Term>),
    /// A variable, by its index.
    Var(usize),
    /// An abstraction: the type of the bound variable, and the body.
    Abs(Type, Rc<Term>),
    /// An application of the first term to the second.
    App(Rc<Term>, Rc<Term>),
    If(Rc<Term>, Rc<Term>, Rc<Term>),
    Let(Rc<Term>, Rc<Term>),
    Record(Rc<Record>),
    /// The field of a record at the given position.
    Projection(Rc<Term>, usize),
}

impl Record {
    /// The record of the fields `fields`, as a term.
    pub fn new(fields: Vec<Rc<Term>>) -> (r: Rc<Term>)
        ensures
            *r == Term::Record(Rc::new(Record { fields })),
    {
        Rc::new(Term::Record(Rc::new(Record { fields })))
    }
}

} // verus!
