//! A bound on nesting. The walks over types and terms go as deep as the tree
//! they walk; a caller that takes terms from outside can refuse one that is
//! nested deeper than it is willing to go, before anything is done with it.

use vstd::prelude::*;
use crate::system_f::terms::{arm_views, term_views, Arm, ArmView, Kind, KindView, Term, TermView};
use super::check::type_of;
use super::context::Context;
use super::error::{result_view, TypeError};
use super::{type_views, variant_views, Type, TypeView, Variant, VariantView};

verus! {

/// Whether `t` is nested no deeper than `limit`: a leaf has depth one, and
/// every other type is one deeper than its deepest child.
pub open spec fn type_within(t: TypeView, limit: nat) -> bool
    decreases t,
{
    limit > 0 && match t {
        TypeView::Variant(vs) => forall|i: int|
            0 <= i < vs.len() ==> type_within((#[trigger] vs[i]).ty, (limit - 1) as nat),
        TypeView::Product(ts) => forall|i: int|
            0 <= i < ts.len() ==> type_within(#[trigger] ts[i], (limit - 1) as nat),
        TypeView::Arrow(a, b) => type_within(*a, (limit - 1) as nat) && type_within(
            *b,
            (limit - 1) as nat,
        ),
        TypeView::Universal(body) => type_within(*body, (limit - 1) as nat),
        TypeView::Existential(body) => type_within(*body, (limit - 1) as nat),
        TypeView::Abstraction(_, body) => type_within(*body, (limit - 1) as nat),
        TypeView::Application(a, b) => type_within(*a, (limit - 1) as nat) && type_within(
            *b,
            (limit - 1) as nat,
        ),
        TypeView::Rec(body) => type_within(*body, (limit - 1) as nat),
        _ => true,
    }
}

/// Whether `term`, with the types it is annotated with, is nested no deeper
/// than `limit`.
pub open spec fn term_within(term: TermView, limit: nat) -> bool
    decreases term,
{
    let below = (limit - 1) as nat;
    limit > 0 && match term.kind {
        KindView::Lit(_) => true,
        KindView::Var(_) => true,
        KindView::Fix(inner) => term_within(*inner, below),
        KindView::Primitive(_) => true,
        KindView::Injection(_, payload, ty) => term_within(*payload, below) && type_within(
            ty,
            below,
        ),
        KindView::Product(terms) => forall|i: int|
            0 <= i < terms.len() ==> term_within(#[trigger] terms[i], below),
        KindView::Projection(inner, _) => term_within(*inner, below),
        KindView::Case(scrutinee, arms) => term_within(*scrutinee, below) && forall|i: int|
            0 <= i < arms.len() ==> term_within((#[trigger] arms[i]).term, below),
        KindView::Let(bound, body) => term_within(*bound, below) && term_within(*body, below),
        KindView::Abs(ty, body) => type_within(ty, below) && term_within(*body, below),
        KindView::App(fun, arg) => term_within(*fun, below) && term_within(*arg, below),
        KindView::If(guard, csq, alt) => term_within(*guard, below) && term_within(*csq, below)
            && term_within(*alt, below),
        KindView::TyAbs(body) => term_within(*body, below),
        KindView::TyApp(inner, ty) => term_within(*inner, below) && type_within(ty, below),
        KindView::Fold(ty, inner) => type_within(ty, below) && term_within(*inner, below),
        KindView::Unfold(ty, inner) => type_within(ty, below) && term_within(*inner, below),
    }
}

/// A product is within a limit exactly when its components are within one
/// less.
proof fn lemma_product_within(ts: Seq<TypeView>, limit: nat)
    ensures
        type_within(TypeView::Product(ts), limit) == (limit > 0 && forall|i: int|
            0 <= i < ts.len() ==> type_within(#[trigger] ts[i], (limit - 1) as nat)),
{
    if type_within(TypeView::Product(ts), limit) {
        assert forall|i: int| 0 <= i < ts.len() implies type_within(
            #[trigger] ts[i],
            (limit - 1) as nat,
        ) by {
            let components = TypeView::Product(ts)->Product_0;
            assert(type_within(components[i], (limit - 1) as nat));
        }
    }
}

/// A tuple is within a limit exactly when its components are within one
/// less.
proof fn lemma_tuple_within(span: crate::system_f::span::Span, terms: Seq<TermView>, limit: nat)
    ensures
        term_within(TermView { span, kind: KindView::Product(terms) }, limit) == (limit > 0
            && forall|i: int|
            0 <= i < terms.len() ==> term_within(#[trigger] terms[i], (limit - 1) as nat)),
{
    let term = TermView { span, kind: KindView::Product(terms) };
    if term_within(term, limit) {
        assert forall|i: int| 0 <= i < terms.len() implies term_within(
            #[trigger] terms[i],
            (limit - 1) as nat,
        ) by {
            let components = term.kind->Product_0;
            assert(term_within(components[i], (limit - 1) as nat));
        }
    }
}

/// Whether the types `ts` are all within `limit`.
fn types_within(ts: &Vec<Type>, limit: usize) -> (r: bool)
    ensures
        r == forall|i: int| 0 <= i < ts.len() ==> type_within(
            #[trigger] type_views(ts@)[i],
            limit as nat,
        ),
    decreases ts,
{
    let mut i: usize = 0;
    while i < ts.len()
        invariant
            i <= ts.len(),
            forall|j: int| 0 <= j < i ==> type_within(#[trigger] type_views(ts@)[j], limit as nat),
        decreases ts.len() - i,
    {
        if !ts[i].is_within(limit) {
            assert(!type_within(type_views(ts@)[i as int], limit as nat));
            return false;
        }
        i += 1;
    }
    true
}

/// Whether the payload types of the alternatives `vs` are all within
/// `limit`.
fn variants_within(vs: &Vec<Variant>, limit: usize) -> (r: bool)
    ensures
        r == forall|i: int|
            0 <= i < vs.len() ==> type_within(
                (#[trigger] variant_views(vs@)[i]).ty,
                limit as nat,
            ),
    decreases vs,
{
    let mut i: usize = 0;
    while i < vs.len()
        invariant
            i <= vs.len(),
            forall|j: int|
                0 <= j < i ==> type_within((#[trigger] variant_views(vs@)[j]).ty, limit as nat),
        decreases vs.len() - i,
    {
        if !vs[i].ty.is_within(limit) {
            assert(!type_within(variant_views(vs@)[i as int].ty, limit as nat));
            return false;
        }
        i += 1;
    }
    true
}

impl Type {
    /// Whether this type is nested no deeper than `limit`. The answer is
    /// found without going deeper than `limit` into the type.
    pub fn is_within(&self, limit: usize) -> (r: bool)
        ensures
            r == type_within(self@, limit as nat),
        decreases self,
    {
        if limit == 0 {
            return false;
        }
        let below: usize = limit - 1;
        match self {
            Type::Variant(vs) => {
                proof {
                    Type::lemma_view_variant(*vs);
                }
                variants_within(vs, below)
            },
            Type::Product(ts) => {
                proof {
                    Type::lemma_view_product(*ts);
                    lemma_product_within(type_views(ts@), limit as nat);
                }
                types_within(ts, below)
            },
            Type::Arrow(a, b) => a.is_within(below) && b.is_within(below),
            Type::Universal(body) => body.is_within(below),
            Type::Existential(body) => body.is_within(below),
            Type::Abstraction(_, body) => body.is_within(below),
            Type::Application(a, b) => a.is_within(below) && b.is_within(below),
            Type::Rec(body) => body.is_within(below),
            _ => true,
        }
    }
}

/// Whether the terms `terms` are all within `limit`.
fn terms_within(terms: &Vec<Term>, limit: usize) -> (r: bool)
    ensures
        r == forall|i: int|
            0 <= i < terms.len() ==> term_within(#[trigger] term_views(terms@)[i], limit as nat),
    decreases terms,
{
    let mut i: usize = 0;
    while i < terms.len()
        invariant
            i <= terms.len(),
            forall|j: int|
                0 <= j < i ==> term_within(#[trigger] term_views(terms@)[j], limit as nat),
        decreases terms.len() - i,
    {
        if !terms[i].is_within(limit) {
            assert(!term_within(term_views(terms@)[i as int], limit as nat));
            return false;
        }
        i += 1;
    }
    true
}

/// Whether the bodies of the arms `arms` are all within `limit`.
fn arms_within(arms: &Vec<Arm>, limit: usize) -> (r: bool)
    ensures
        r == forall|i: int|
            0 <= i < arms.len() ==> term_within((#[trigger] arm_views(arms@)[i]).term, limit as nat),
    decreases arms,
{
    let mut i: usize = 0;
    while i < arms.len()
        invariant
            i <= arms.len(),
            forall|j: int|
                0 <= j < i ==> term_within((#[trigger] arm_views(arms@)[j]).term, limit as nat),
        decreases arms.len() - i,
    {
        if !arms[i].term.is_within(limit) {
            assert(!term_within(arm_views(arms@)[i as int].term, limit as nat));
            return false;
        }
        i += 1;
    }
    true
}

impl Term {
    /// Whether this term, with the types it is annotated with, is nested no
    /// deeper than `limit`. The answer is found without going deeper than
    /// `limit` into the term.
    pub fn is_within(&self, limit: usize) -> (r: bool)
        ensures
            r == term_within(self@, limit as nat),
        decreases self,
    {
        if limit == 0 {
            return false;
        }
        let below: usize = limit - 1;
        match &self.kind {
            Kind::Lit(_) => true,
            Kind::Var(_) => true,
            Kind::Fix(inner) => inner.is_within(below),
            Kind::Primitive(_) => true,
            Kind::Injection(_, payload, ty) => payload.is_within(below) && ty.is_within(below),
            Kind::Product(terms) => {
                proof {
                    Kind::lemma_view_product(*terms);
                    lemma_tuple_within(self.span, term_views(terms@), limit as nat);
                }
                terms_within(terms, below)
            },
            Kind::Projection(inner, _) => inner.is_within(below),
            Kind::Case(scrutinee, arms) => {
                proof {
                    Kind::lemma_view_case(*scrutinee, *arms);
                }
                scrutinee.is_within(below) && arms_within(arms, below)
            },
            Kind::Let(bound, body) => bound.is_within(below) && body.is_within(below),
            Kind::Abs(ty, body) => ty.is_within(below) && body.is_within(below),
            Kind::App(fun, arg) => fun.is_within(below) && arg.is_within(below),
            Kind::If(guard, csq, alt) => guard.is_within(below) && csq.is_within(below)
                && alt.is_within(below),
            Kind::TyAbs(body) => body.is_within(below),
            Kind::TyApp(inner, ty) => inner.is_within(below) && ty.is_within(below),
            Kind::Fold(ty, inner) => ty.is_within(below) && inner.is_within(below),
            Kind::Unfold(ty, inner) => ty.is_within(below) && inner.is_within(below),
        }
    }
}

impl Context {
    /// Checks `term` where it is nested no deeper than `limit`, and refuses it
    /// unchecked where it is deeper. The context is left as it was found.
    pub fn type_check_bounded(&mut self, term: &Term, limit: usize) -> (r: Option<
        Result<Type, TypeError>,
    >)
        ensures
            r.is_some() == term_within(term@, limit as nat),
            r matches Some(answer) ==> result_view(answer) == type_of(
                old(self).aliases(),
                old(self).stack(),
                term@,
            ),
            final(self).stack() == old(self).stack(),
            final(self).aliases() == old(self).aliases(),
    {
        if term.is_within(limit) {
            Some(self.type_check(term))
        } else {
            None
        }
    }
}

} // verus!
