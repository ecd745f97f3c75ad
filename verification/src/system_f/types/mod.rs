//! Types of the polymorphic calculus and everything that is done with them.
//!
//! This module holds the type algebra itself: the shapes a type can take and
//! their mathematical model. Its submodules hold structural equality
//! ([`equality`]), the walk over a type and the traversals built on it
//! ([`visit`], [`shift`], [`subst`], [`aliases`]), the invariant of the
//! algebra ([`wellformed`]), the typing context ([`context`]), the checker
//! with its rules ([`check`], [`patterns`], [`error`]), what resolving aliases
//! beforehand comes to ([`resolution`]), and a bound on nesting ([`depth`]).

pub mod aliases;
pub mod check;
pub mod context;
pub mod depth;
pub mod equality;
pub mod error;
pub mod patterns;
pub mod resolution;
pub mod shift;
pub mod subst;
pub mod visit;
pub mod wellformed;

use vstd::prelude::*;

pub use self::context::Context;
pub use self::error::{TypeError, TypeErrorKind};

verus! {

/// The kind of a type-level variable: a proper type, or a function between
/// kinds.
#[derive(Debug, PartialEq, Eq, PartialOrd, Hash)]
pub enum TyKind {
    Star,
    Arrow(Box<TyKind>, Box<TyKind>),
}

/// One alternative of a variant type.
#[derive(Debug, PartialOrd, Hash)]
pub struct Variant {
    pub label: String,
    pub ty: Type,
}

/// A type. Variables are De Bruijn indices into the enclosing type-level
/// binders (`Universal`, `Existential`, `Abstraction`, `Rec`).
#[derive(Debug, PartialOrd, Hash)]
pub enum Type {
    Unit,
    Nat,
    Bool,
    Alias(String),
    Var(usize),
    Variant(Vec<Variant>),
    Product(Vec<Type>),
    Arrow(Box<Type>, Box<Type>),
    Universal(Box<Type>),
    Existential(Box<Type>),
    Abstraction(TyKind, Box<Type>),
    Application(Box<Type>, Box<Type>),
    Rec(Box<Type>),
}

/// The model of a [`Variant`].
pub struct VariantView {
    pub label: Seq<char>,
    pub ty: TypeView,
}

/// The model of a [`Type`]: the same tree over sequences. Two types are the
/// same type exactly when their models are equal.
pub enum TypeView {
    Unit,
    Nat,
    Bool,
    Alias(Seq<char>),
    Var(usize),
    Variant(Seq<VariantView>),
    Product(Seq<TypeView>),
    Arrow(Box<TypeView>, Box<TypeView>),
    Universal(Box<TypeView>),
    Existential(Box<TypeView>),
    Abstraction(TyKind, Box<TypeView>),
    Application(Box<TypeView>, Box<TypeView>),
    Rec(Box<TypeView>),
}

impl Variant {
    pub open spec fn view(&self) -> VariantView {
        VariantView { label: self.label@, ty: self.ty@ }
    }
}

/// The models of a sequence of types, in order.
pub open spec fn type_views(ts: Seq<Type>) -> Seq<TypeView> {
    Seq::new(ts.len(), |i: int| ts[i]@)
}

/// The models of a sequence of variants, in order.
pub open spec fn variant_views(vs: Seq<Variant>) -> Seq<VariantView> {
    Seq::new(vs.len(), |i: int| vs[i]@)
}

impl Type {
    pub open spec fn view(&self) -> TypeView
        decreases self,
    {
        match self {
            Type::Unit => TypeView::Unit,
            Type::Nat => TypeView::Nat,
            Type::Bool => TypeView::Bool,
            Type::Alias(name) => TypeView::Alias(name@),
            Type::Var(idx) => TypeView::Var(*idx),
            Type::Variant(vs) => TypeView::Variant(
                Seq::new(
                    vs@.len(),
                    |i: int|
                        if 0 <= i < vs@.len() {
                            VariantView { label: vs@[i].label@, ty: vs@[i].ty@ }
                        } else {
                            VariantView { label: Seq::empty(), ty: TypeView::Unit }
                        },
                ),
            ),
            Type::Product(ts) => TypeView::Product(
                Seq::new(
                    ts@.len(),
                    |i: int|
                        if 0 <= i < ts@.len() {
                            ts@[i]@
                        } else {
                            TypeView::Unit
                        },
                ),
            ),
            Type::Arrow(a, b) => TypeView::Arrow(Box::new(a@), Box::new(b@)),
            Type::Universal(body) => TypeView::Universal(Box::new(body@)),
            Type::Existential(body) => TypeView::Existential(Box::new(body@)),
            Type::Abstraction(kind, body) => TypeView::Abstraction(*kind, Box::new(body@)),
            Type::Application(a, b) => TypeView::Application(Box::new(a@), Box::new(b@)),
            Type::Rec(body) => TypeView::Rec(Box::new(body@)),
        }
    }

    /// The model of a product is the sequence of its components' models.
    pub proof fn lemma_view_product(ts: Vec<Type>)
        ensures
            Type::Product(ts)@ == TypeView::Product(type_views(ts@)),
    {
        assert(Type::Product(ts)@->Product_0 =~= type_views(ts@));
    }

    /// The model of a variant type is the sequence of its alternatives'
    /// models.
    pub proof fn lemma_view_variant(vs: Vec<Variant>)
        ensures
            Type::Variant(vs)@ == TypeView::Variant(variant_views(vs@)),
    {
        assert(Type::Variant(vs)@->Variant_0 =~= variant_views(vs@));
    }
}

impl TyKind {
    /// A copy of this kind.
    pub fn duplicate(&self) -> (r: TyKind)
        ensures
            r == *self,
        decreases self,
    {
        match self {
            TyKind::Star => TyKind::Star,
            TyKind::Arrow(a, b) => TyKind::Arrow(Box::new(a.duplicate()), Box::new(b.duplicate())),
        }
    }

    /// Whether two kinds are the same.
    pub fn same(&self, other: &TyKind) -> (r: bool)
        ensures
            r == (*self == *other),
        decreases self,
    {
        match (self, other) {
            (TyKind::Star, TyKind::Star) => true,
            (TyKind::Arrow(a1, b1), TyKind::Arrow(a2, b2)) => a1.same(a2) && b1.same(b2),
            _ => false,
        }
    }
}

impl Clone for TyKind {
    fn clone(&self) -> (r: TyKind)
        ensures
            r == *self,
    {
        self.duplicate()
    }
}

/// Copies a sequence of types, component by component.
fn clone_types(ts: &Vec<Type>) -> (r: Vec<Type>)
    ensures
        type_views(r@) == type_views(ts@),
    decreases ts,
{
    let mut out: Vec<Type> = Vec::new();
    let mut i: usize = 0;
    while i < ts.len()
        invariant
            i <= ts.len(),
            out.len() == i,
            forall|j: int| 0 <= j < i ==> (#[trigger] out@[j])@ == ts@[j]@,
        decreases ts.len() - i,
    {
        let t = ts[i].duplicate();
        out.push(t);
        i += 1;
    }
    assert(type_views(out@) =~= type_views(ts@));
    out
}

/// Copies a sequence of variants, alternative by alternative.
fn clone_variants(vs: &Vec<Variant>) -> (r: Vec<Variant>)
    ensures
        variant_views(r@) == variant_views(vs@),
    decreases vs,
{
    let mut out: Vec<Variant> = Vec::new();
    let mut i: usize = 0;
    while i < vs.len()
        invariant
            i <= vs.len(),
            out.len() == i,
            forall|j: int| 0 <= j < i ==> (#[trigger] out@[j])@ == vs@[j]@,
        decreases vs.len() - i,
    {
        let v = Variant { label: vs[i].label.clone(), ty: vs[i].ty.duplicate() };
        out.push(v);
        i += 1;
    }
    assert(variant_views(out@) =~= variant_views(vs@));
    out
}

impl Type {
    /// A copy of this type.
    pub fn duplicate(&self) -> (r: Type)
        ensures
            r@ == self@,
        decreases self,
    {
        match self {
            Type::Unit => Type::Unit,
            Type::Nat => Type::Nat,
            Type::Bool => Type::Bool,
            Type::Alias(name) => Type::Alias(name.clone()),
            Type::Var(idx) => Type::Var(*idx),
            Type::Variant(vs) => {
                let out = clone_variants(vs);
                proof {
                    Type::lemma_view_variant(*vs);
                    Type::lemma_view_variant(out);
                }
                Type::Variant(out)
            },
            Type::Product(ts) => {
                let out = clone_types(ts);
                proof {
                    Type::lemma_view_product(*ts);
                    Type::lemma_view_product(out);
                }
                Type::Product(out)
            },
            Type::Arrow(a, b) => Type::Arrow(Box::new(a.duplicate()), Box::new(b.duplicate())),
            Type::Universal(body) => Type::Universal(Box::new(body.duplicate())),
            Type::Existential(body) => Type::Existential(Box::new(body.duplicate())),
            Type::Abstraction(kind, body) => Type::Abstraction(
                kind.duplicate(),
                Box::new(body.duplicate()),
            ),
            Type::Application(a, b) => Type::Application(
                Box::new(a.duplicate()),
                Box::new(b.duplicate()),
            ),
            Type::Rec(body) => Type::Rec(Box::new(body.duplicate())),
        }
    }
}

impl Clone for Type {
    fn clone(&self) -> (r: Type)
        ensures
            r@ == self@,
    {
        self.duplicate()
    }
}

impl Clone for Variant {
    fn clone(&self) -> (r: Variant)
        ensures
            r@ == self@,
    {
        Variant { label: self.label.clone(), ty: self.ty.duplicate() }
    }
}

/// Instantiates the body `t` of a binder with `s` for the bound variable:
/// `s` is shifted up by one, put in place of variable 0 of `t`, and the
/// result is shifted down by one.
pub fn subst(s: Type, t: Type) -> (r: Type)
    ensures
        r@ == subst::instantiated(s@, t@),
{
    let raised = shift::shift(1, &s);
    let placed = subst::Subst::new(raised).visit(&t);
    shift::shift(-1, &placed)
}

} // verus!
