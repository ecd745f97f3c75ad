//! Terms of the polymorphic calculus, and their mathematical model.

use vstd::prelude::*;
use super::span::Span;
use super::types::{Type, TypeView};

verus! {

/// A constant.
#[derive(Clone, Copy, Debug, PartialEq, Eq, PartialOrd, Hash, Structural)]
pub enum Literal {
    Unit,
    Bool(bool),
    Nat(u32),
}

/// A built-in operator on naturals.
#[derive(Clone, Copy, Debug, PartialEq, Eq, PartialOrd, Hash, Structural)]
pub enum Primitive {
    Succ,
    Pred,
    IsZero,
}

/// What an arm of a case matches: anything, or the alternative with a given
/// label, whose payload the arm then binds as its variable 0.
#[derive(Debug, PartialEq, PartialOrd)]
pub enum Pattern {
    Any,
    Constructor(String),
}

/// One arm of a case.
#[derive(Debug, PartialEq, PartialOrd)]
pub struct Arm {
    pub span: Span,
    pub pat: Pattern,
    pub term: Box<Term>,
}

/// The shape of a term. Variables are De Bruijn indices into the enclosing
/// term-level binders (`Abs`, `Let`, and the arms of a `Case`).
#[derive(Debug, PartialEq, PartialOrd)]
pub enum Kind {
    Lit(Literal),
    Var(usize),
    Fix(Box<Term>),
    Primitive(Primitive),
    Injection(String, Box<Term>, Box<Type>),
    Product(Vec<Term>),
    Projection(Box<Term>, usize),
    Case(Box<Term>, Vec<Arm>),
    Let(Box<Term>, Box<Term>),
    Abs(Box<Type>, Box<Term>),
    App(Box<Term>, Box<Term>),
    If(Box<Term>, Box<Term>, Box<Term>),
    TyAbs(Box<Term>),
    TyApp(Box<Term>, Box<Type>),
    Fold(Box<Type>, Box<Term>),
    Unfold(Box<Type>, Box<Term>),
}

/// A term with the place it was read from.
#[derive(Debug, PartialEq, PartialOrd)]
pub struct Term {
    pub span: Span,
    pub kind: Kind,
}

/// The model of a [`Pattern`].
pub enum PatternView {
    Any,
    Constructor(Seq<char>),
}

/// The model of an [`Arm`].
pub struct ArmView {
    pub span: Span,
    pub pat: PatternView,
    pub term: TermView,
}

/// The model of a [`Kind`].
pub enum KindView {
    Lit(Literal),
    Var(usize),
    Fix(Box<TermView>),
    Primitive(Primitive),
    Injection(Seq<char>, Box<TermView>, TypeView),
    Product(Seq<TermView>),
    Projection(Box<TermView>, usize),
    Case(Box<TermView>, Seq<ArmView>),
    Let(Box<TermView>, Box<TermView>),
    Abs(TypeView, Box<TermView>),
    App(Box<TermView>, Box<TermView>),
    If(Box<TermView>, Box<TermView>, Box<TermView>),
    TyAbs(Box<TermView>),
    TyApp(Box<TermView>, TypeView),
    Fold(TypeView, Box<TermView>),
    Unfold(TypeView, Box<TermView>),
}

/// The model of a [`Term`]: the same tree over sequences and type models.
pub struct TermView {
    pub span: Span,
    pub kind: KindView,
}

impl Pattern {
    pub open spec fn view(&self) -> PatternView {
        match self {
            Pattern::Any => PatternView::Any,
            Pattern::Constructor(label) => PatternView::Constructor(label@),
        }
    }

    /// A copy of this pattern.
    pub fn duplicate(&self) -> (r: Pattern)
        ensures
            r@ == self@,
    {
        match self {
            Pattern::Any => Pattern::Any,
            Pattern::Constructor(label) => Pattern::Constructor(label.clone()),
        }
    }
}

impl Clone for Pattern {
    fn clone(&self) -> (r: Pattern)
        ensures
            r@ == self@,
    {
        self.duplicate()
    }
}

/// The models of a sequence of terms, in order.
pub open spec fn term_views(ts: Seq<Term>) -> Seq<TermView> {
    Seq::new(ts.len(), |i: int| ts[i]@)
}

/// The models of a sequence of arms, in order.
pub open spec fn arm_views(arms: Seq<Arm>) -> Seq<ArmView> {
    Seq::new(arms.len(), |i: int| arms[i]@)
}

impl Arm {
    pub open spec fn view(&self) -> ArmView {
        ArmView { span: self.span, pat: self.pat@, term: self.term@ }
    }
}

impl Kind {
    pub open spec fn view(&self) -> KindView
        decreases self,
    {
        match self {
            Kind::Lit(lit) => KindView::Lit(*lit),
            Kind::Var(idx) => KindView::Var(*idx),
            Kind::Fix(inner) => KindView::Fix(
                Box::new(TermView { span: inner.span, kind: inner.kind@ }),
            ),
            Kind::Primitive(prim) => KindView::Primitive(*prim),
            Kind::Injection(label, payload, ty) => KindView::Injection(
                label@,
                Box::new(TermView { span: payload.span, kind: payload.kind@ }),
                ty@,
            ),
            Kind::Product(terms) => KindView::Product(
                Seq::new(
                    terms@.len(),
                    |i: int|
                        if 0 <= i < terms@.len() {
                            TermView { span: terms@[i].span, kind: terms@[i].kind@ }
                        } else {
                            arbitrary()
                        },
                ),
            ),
            Kind::Projection(inner, idx) => KindView::Projection(
                Box::new(TermView { span: inner.span, kind: inner.kind@ }),
                *idx,
            ),
            Kind::Case(scrutinee, arms) => KindView::Case(
                Box::new(TermView { span: scrutinee.span, kind: scrutinee.kind@ }),
                Seq::new(
                    arms@.len(),
                    |i: int|
                        if 0 <= i < arms@.len() {
                            ArmView {
                                span: arms@[i].span,
                                pat: arms@[i].pat@,
                                term: TermView {
                                    span: arms@[i].term.span,
                                    kind: arms@[i].term.kind@,
                                },
                            }
                        } else {
                            arbitrary()
                        },
                ),
            ),
            Kind::Let(bound, body) => KindView::Let(
                Box::new(TermView { span: bound.span, kind: bound.kind@ }),
                Box::new(TermView { span: body.span, kind: body.kind@ }),
            ),
            Kind::Abs(ty, body) => KindView::Abs(
                ty@,
                Box::new(TermView { span: body.span, kind: body.kind@ }),
            ),
            Kind::App(fun, arg) => KindView::App(
                Box::new(TermView { span: fun.span, kind: fun.kind@ }),
                Box::new(TermView { span: arg.span, kind: arg.kind@ }),
            ),
            Kind::If(guard, csq, alt) => KindView::If(
                Box::new(TermView { span: guard.span, kind: guard.kind@ }),
                Box::new(TermView { span: csq.span, kind: csq.kind@ }),
                Box::new(TermView { span: alt.span, kind: alt.kind@ }),
            ),
            Kind::TyAbs(body) => KindView::TyAbs(
                Box::new(TermView { span: body.span, kind: body.kind@ }),
            ),
            Kind::TyApp(inner, ty) => KindView::TyApp(
                Box::new(TermView { span: inner.span, kind: inner.kind@ }),
                ty@,
            ),
            Kind::Fold(ty, inner) => KindView::Fold(
                ty@,
                Box::new(TermView { span: inner.span, kind: inner.kind@ }),
            ),
            Kind::Unfold(ty, inner) => KindView::Unfold(
                ty@,
                Box::new(TermView { span: inner.span, kind: inner.kind@ }),
            ),
        }
    }

    /// The model of a tuple is the sequence of its components' models.
    pub proof fn lemma_view_product(terms: Vec<Term>)
        ensures
            Kind::Product(terms)@ == KindView::Product(term_views(terms@)),
    {
        assert(Kind::Product(terms)@->Product_0 =~= term_views(terms@));
    }

    /// The model of a case holds the sequence of its arms' models.
    pub proof fn lemma_view_case(scrutinee: Box<Term>, arms: Vec<Arm>)
        ensures
            Kind::Case(scrutinee, arms)@ == KindView::Case(Box::new(scrutinee@), arm_views(arms@)),
    {
        assert(Kind::Case(scrutinee, arms)@->Case_1 =~= arm_views(arms@));
    }
}

impl Term {
    pub open spec fn view(&self) -> TermView {
        TermView { span: self.span, kind: self.kind@ }
    }

    /// The term of shape `kind` read from `span`.
    pub fn new(kind: Kind, span: Span) -> (r: Term)
        ensures
            r.kind == kind,
            r.span == span,
    {
        Term { span, kind }
    }

    /// The shape of this term.
    pub fn kind(&self) -> (r: &Kind)
        ensures
            *r == self.kind,
    {
        &self.kind
    }

    /// A copy of this term.
    pub fn duplicate(&self) -> (r: Term)
        ensures
            r@ == self@,
        decreases self,
    {
        let kind = match &self.kind {
            Kind::Lit(lit) => Kind::Lit(*lit),
            Kind::Var(idx) => Kind::Var(*idx),
            Kind::Fix(inner) => Kind::Fix(Box::new(inner.duplicate())),
            Kind::Primitive(prim) => Kind::Primitive(*prim),
            Kind::Injection(label, payload, ty) => Kind::Injection(
                label.clone(),
                Box::new(payload.duplicate()),
                Box::new(ty.duplicate()),
            ),
            Kind::Product(terms) => {
                let out = duplicate_terms(terms);
                proof {
                    Kind::lemma_view_product(*terms);
                    Kind::lemma_view_product(out);
                }
                Kind::Product(out)
            },
            Kind::Projection(inner, idx) => Kind::Projection(Box::new(inner.duplicate()), *idx),
            Kind::Case(scrutinee, arms) => {
                let head = scrutinee.duplicate();
                let out = duplicate_arms(arms);
                proof {
                    Kind::lemma_view_case(*scrutinee, *arms);
                    Kind::lemma_view_case(Box::new(head), out);
                }
                Kind::Case(Box::new(head), out)
            },
            Kind::Let(bound, body) => Kind::Let(
                Box::new(bound.duplicate()),
                Box::new(body.duplicate()),
            ),
            Kind::Abs(ty, body) => Kind::Abs(
                Box::new(ty.duplicate()),
                Box::new(body.duplicate()),
            ),
            Kind::App(fun, arg) => Kind::App(
                Box::new(fun.duplicate()),
                Box::new(arg.duplicate()),
            ),
            Kind::If(guard, csq, alt) => Kind::If(
                Box::new(guard.duplicate()),
                Box::new(csq.duplicate()),
                Box::new(alt.duplicate()),
            ),
            Kind::TyAbs(body) => Kind::TyAbs(Box::new(body.duplicate())),
            Kind::TyApp(inner, ty) => Kind::TyApp(
                Box::new(inner.duplicate()),
                Box::new(ty.duplicate()),
            ),
            Kind::Fold(ty, inner) => Kind::Fold(
                Box::new(ty.duplicate()),
                Box::new(inner.duplicate()),
            ),
            Kind::Unfold(ty, inner) => Kind::Unfold(
                Box::new(ty.duplicate()),
                Box::new(inner.duplicate()),
            ),
        };
        Term { span: self.span, kind }
    }
}

/// Copies a sequence of terms, one by one.
fn duplicate_terms(terms: &Vec<Term>) -> (r: Vec<Term>)
    ensures
        term_views(r@) == term_views(terms@),
    decreases terms,
{
    let mut out: Vec<Term> = Vec::new();
    let mut i: usize = 0;
    while i < terms.len()
        invariant
            i <= terms.len(),
            out.len() == i,
            forall|j: int| 0 <= j < i ==> (#[trigger] out@[j])@ == terms@[j]@,
        decreases terms.len() - i,
    {
        let t = terms[i].duplicate();
        out.push(t);
        i += 1;
    }
    assert(term_views(out@) =~= term_views(terms@));
    out
}

/// Copies a sequence of arms, one by one.
fn duplicate_arms(arms: &Vec<Arm>) -> (r: Vec<Arm>)
    ensures
        arm_views(r@) == arm_views(arms@),
    decreases arms,
{
    let mut out: Vec<Arm> = Vec::new();
    let mut i: usize = 0;
    while i < arms.len()
        invariant
            i <= arms.len(),
            out.len() == i,
            forall|j: int| 0 <= j < i ==> (#[trigger] out@[j])@ == arms@[j]@,
        decreases arms.len() - i,
    {
        let arm = &arms[i];
        let term = arm.term.duplicate();
        out.push(Arm { span: arm.span, pat: arm.pat.duplicate(), term: Box::new(term) });
        i += 1;
    }
    assert(arm_views(out@) =~= arm_views(arms@));
    out
}

impl Clone for Term {
    fn clone(&self) -> (r: Term)
        ensures
            r@ == self@,
    {
        self.duplicate()
    }
}

impl Clone for Arm {
    fn clone(&self) -> (r: Arm)
        ensures
            r@ == self@,
    {
        Arm { span: self.span, pat: self.pat.duplicate(), term: Box::new(self.term.duplicate()) }
    }
}

} // verus!
