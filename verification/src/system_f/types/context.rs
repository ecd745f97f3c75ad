//! The typing context: the types of the term variables in scope, innermost
//! first, and the alias table.

use vstd::prelude::*;
use std::collections::VecDeque;
use crate::system_f::terms::Term;
use super::aliases::{acyclic, alias_free, resolved, resolved_term, AliasTable, Aliaser};
use super::shift::{raised, shift, shifted};
use super::{type_views, Type, TypeView};

verus! {

/// A typing context.
///
/// The stack holds one type for each term-level binder that is open, the
/// innermost at index 0. Type-level binders take no place in it: a type
/// variable is an index inside a type, never a slot of the stack.
///
/// The alias table holds each type as it was given.
#[derive(Debug)]
pub struct Context {
    stack: VecDeque<Type>,
    map: AliasTable,
}

impl Context {
    /// The types of the variables in scope, innermost first.
    pub closed spec fn stack(&self) -> Seq<TypeView> {
        type_views(self.stack@)
    }

    /// The alias table.
    pub closed spec fn aliases(&self) -> Map<Seq<char>, TypeView> {
        self.map@
    }

    /// The context with nothing in scope and no alias.
    pub fn new() -> (r: Context)
        ensures
            r.stack() == Seq::<TypeView>::empty(),
            r.aliases() == Map::<Seq<char>, TypeView>::empty(),
    {
        let r = Context { stack: VecDeque::new(), map: AliasTable::new() };
        assert(r.stack() =~= Seq::<TypeView>::empty());
        r
    }

    /// Opens a binder whose variable has the type `ty`.
    pub fn push(&mut self, ty: Type)
        ensures
            final(self).stack() == seq![ty@] + old(self).stack(),
            final(self).aliases() == old(self).aliases(),
    {
        self.stack.push_front(ty);
        assert(self.stack() =~= seq![ty@] + old(self).stack());
    }

    /// Closes the innermost binder. There must be one: a pop without its
    /// push is a fault in the caller.
    pub fn pop(&mut self)
        requires
            old(self).stack().len() > 0,
        ensures
            final(self).stack() == old(self).stack().drop_first(),
            final(self).aliases() == old(self).aliases(),
    {
        let _ = self.stack.pop_front().unwrap();
        assert(self.stack() =~= old(self).stack().drop_first());
    }

    /// The type of the variable `idx`, counted from the innermost binder
    /// outwards, or nothing where fewer binders are open.
    pub fn find(&self, idx: usize) -> (r: Option<&Type>)
        ensures
            idx < self.stack().len() ==> r.is_some() && r.unwrap()@ == self.stack()[idx as int],
            idx >= self.stack().len() ==> r.is_none(),
    {
        if idx < self.stack.len() {
            Some(&self.stack[idx])
        } else {
            None
        }
    }

    /// Goes under a type binder: every type in scope is raised by one, so
    /// that its free variables point past the new binder. Returns the types as
    /// they were, to be given back on the way out.
    pub fn enter_type_scope(&mut self) -> (outside: VecDeque<Type>)
        ensures
            final(self).stack() == raised(old(self).stack()),
            type_views(outside@) == old(self).stack(),
            final(self).aliases() == old(self).aliases(),
    {
        let mut inside: VecDeque<Type> = VecDeque::new();
        let mut i: usize = 0;
        while i < self.stack.len()
            invariant
                i <= self.stack.len(),
                inside.len() == i,
                forall|j: int|
                    0 <= j < i ==> (#[trigger] inside@[j])@ == shifted(1, 0, self.stack@[j]@),
            decreases self.stack.len() - i,
        {
            inside.push_back(shift(1, &self.stack[i]));
            i += 1;
        }
        core::mem::swap(&mut self.stack, &mut inside);
        assert(self.stack() =~= raised(old(self).stack()));
        inside
    }

    /// Comes back from under a type binder: the types in scope are again
    /// `outside`, as they were before.
    pub fn leave_type_scope(&mut self, outside: VecDeque<Type>)
        ensures
            final(self).stack() == type_views(outside@),
            final(self).aliases() == old(self).aliases(),
    {
        self.stack = outside;
    }

    /// Defines `alias` to stand for `ty`, in place of any earlier definition
    /// of that name. The type is kept as it is given.
    pub fn alias(&mut self, alias: String, ty: Type)
        ensures
            final(self).aliases() == old(self).aliases().insert(alias@, ty@),
            final(self).stack() == old(self).stack(),
    {
        self.map.insert(alias, ty);
    }

    /// `ty` resolved against the alias table: every alias that the table
    /// knows replaced by the type it stands for, and what was put in resolved
    /// again, up to as many passes as the table has names. Where the
    /// definitions do not go round in a circle, no alias of the table is left
    /// in the result.
    pub fn resolve(&self, ty: &Type) -> (r: Type)
        ensures
            r@ == resolved(self.aliases(), ty@),
            acyclic(self.aliases()) ==> alias_free(self.aliases(), r@),
    {
        self.aliaser().visit(ty)
    }

    /// The traversal that resolves aliases against this context's table.
    pub fn aliaser(&self) -> (r: Aliaser<'_>)
        ensures
            r.table() == self.aliases(),
    {
        self.map.aliaser()
    }

    /// Resolves the aliases in every type that `term` is annotated with,
    /// against this context's table. The context does not change.
    pub fn de_alias(&mut self, term: &mut Term)
        ensures
            final(term)@ == resolved_term(old(self).aliases(), old(term)@),
            final(self).stack() == old(self).stack(),
            final(self).aliases() == old(self).aliases(),
    {
        let resolved = self.aliaser().visit_term(term);
        *term = resolved;
    }
}

impl Default for Context {
    fn default() -> (r: Context)
        ensures
            r.stack() == Seq::<TypeView>::empty(),
            r.aliases() == Map::<Seq<char>, TypeView>::empty(),
    {
        Context::new()
    }
}

impl Clone for Context {
    fn clone(&self) -> (r: Context)
        ensures
            r.stack() == self.stack(),
            r.aliases() == self.aliases(),
    {
        let mut stack: VecDeque<Type> = VecDeque::new();
        let mut i: usize = 0;
        while i < self.stack.len()
            invariant
                i <= self.stack.len(),
                stack.len() == i,
                forall|j: int| 0 <= j < i ==> (#[trigger] stack@[j])@ == self.stack@[j]@,
            decreases self.stack.len() - i,
        {
            stack.push_back(self.stack[i].duplicate());
            i += 1;
        }
        proof {
            assert(type_views(stack@) =~= type_views(self.stack@));
        }
        Context { stack, map: self.map.clone() }
    }
}

} // verus!
