//! Substitution of a type for a variable, and the instantiation of a binder's
//! body built on it.

use vstd::prelude::*;
use super::shift::{lemma_wrap_small, shifted, Shift};
use super::visit::{keep_node, walk, walk_ty, Hooks, TypeVisitor};
use super::{Type, TypeView};

verus! {

/// The traversal that puts `replacement` in place of the variable that
/// stands for the binder being opened.
///
/// Under `depth` binders that variable has the index `depth`, and the
/// replacement is shifted up by `depth` there, so that its own free variables
/// still point past the binders it is put under. Every other variable stays.
pub open spec fn subst_hooks(replacement: TypeView) -> Hooks {
    Hooks {
        var: |depth: nat, idx: usize|
            if idx == depth {
                shifted(depth as int, 0, replacement)
            } else {
                TypeView::Var(idx)
            },
        alias: |name: Seq<char>| TypeView::Alias(name),
        node: keep_node(),
    }
}

/// `t`, which stands under `depth` binders, with `replacement` in place of
/// the variable `depth`.
pub open spec fn substituted(replacement: TypeView, depth: nat, t: TypeView) -> TypeView {
    walk(subst_hooks(replacement), depth, t)
}

/// The body `t` of a binder with `argument` for the bound variable, as a type
/// outside the binder: the argument is shifted up by one to stand under the
/// binder, put in place of variable 0, and the result is shifted down by one
/// as the binder goes.
pub open spec fn instantiated(argument: TypeView, t: TypeView) -> TypeView {
    shifted(-1, 0, substituted(shifted(1, 0, argument), 0, t))
}

/// The traversal that substitutes a type for variable 0.
#[derive(Debug)]
pub struct Subst {
    pub ty: Type,
}

impl Subst {
    /// The substitution of `ty`.
    pub fn new(ty: Type) -> (r: Subst)
        ensures
            r.ty == ty,
    {
        Subst { ty }
    }

    /// `target` with the held type in place of variable 0.
    pub fn visit(&self, target: &Type) -> (r: Type)
        ensures
            r@ == substituted(self.ty@, 0, target@),
    {
        walk_ty(self, 0, target)
    }
}

impl TypeVisitor for Subst {
    open spec fn hooks(&self) -> Hooks {
        subst_hooks(self.ty@)
    }

    fn visit_var(&self, depth: usize, idx: usize) -> (r: Type) {
        if idx == depth {
            Shift::up(depth).visit(&self.ty)
        } else {
            Type::Var(idx)
        }
    }

    fn visit_alias(&self, name: &String) -> (r: Type) {
        Type::Alias(name.clone())
    }

    fn visit_node(&self, node: Type) -> (r: Type) {
        node
    }
}

/// Whether the variable that is number `n` outside `t` occurs in `t`, which
/// stands under `depth` binders: there, and under `k` binders of `t` itself,
/// it has the index `n + depth + k`.
pub open spec fn occurs_free(n: nat, depth: nat, t: TypeView) -> bool
    decreases t,
{
    match t {
        TypeView::Var(idx) => idx == n + depth,
        TypeView::Variant(vs) => exists|i: int|
            0 <= i < vs.len() && occurs_free(n, depth, (#[trigger] vs[i]).ty),
        TypeView::Product(ts) => exists|i: int|
            0 <= i < ts.len() && occurs_free(n, depth, #[trigger] ts[i]),
        TypeView::Arrow(a, b) => occurs_free(n, depth, *a) || occurs_free(n, depth, *b),
        TypeView::Universal(body) => occurs_free(n, depth + 1, *body),
        TypeView::Existential(body) => occurs_free(n, depth + 1, *body),
        TypeView::Abstraction(_, body) => occurs_free(n, depth + 1, *body),
        TypeView::Application(a, b) => occurs_free(n, depth, *a) || occurs_free(n, depth, *b),
        TypeView::Rec(body) => occurs_free(n, depth + 1, *body),
        _ => false,
    }
}

/// Whether every free variable of `t`, which stands under `cutoff` binders,
/// can be raised by `d` without running out of indices.
pub open spec fn liftable(d: nat, cutoff: nat, t: TypeView) -> bool
    decreases t,
{
    match t {
        TypeView::Var(idx) => idx >= cutoff ==> idx + d <= usize::MAX,
        TypeView::Variant(vs) => forall|i: int|
            0 <= i < vs.len() ==> liftable(d, cutoff, (#[trigger] vs[i]).ty),
        TypeView::Product(ts) => forall|i: int|
            0 <= i < ts.len() ==> liftable(d, cutoff, #[trigger] ts[i]),
        TypeView::Arrow(a, b) => liftable(d, cutoff, *a) && liftable(d, cutoff, *b),
        TypeView::Universal(body) => liftable(d, cutoff + 1, *body),
        TypeView::Existential(body) => liftable(d, cutoff + 1, *body),
        TypeView::Abstraction(_, body) => liftable(d, cutoff + 1, *body),
        TypeView::Application(a, b) => liftable(d, cutoff, *a) && liftable(d, cutoff, *b),
        TypeView::Rec(body) => liftable(d, cutoff + 1, *body),
        _ => true,
    }
}

/// Whether `argument` fits wherever the variable `depth` occurs in `t`, which
/// stands under `depth` binders: at an occurrence under `k` binders of `t`,
/// the free variables of the argument can be raised by `depth + k + 1`.
pub open spec fn fits(argument: TypeView, depth: nat, t: TypeView) -> bool
    decreases t,
{
    match t {
        TypeView::Var(idx) => idx == depth ==> liftable(depth + 1, 0, argument),
        TypeView::Variant(vs) => forall|i: int|
            0 <= i < vs.len() ==> fits(argument, depth, (#[trigger] vs[i]).ty),
        TypeView::Product(ts) => forall|i: int|
            0 <= i < ts.len() ==> fits(argument, depth, #[trigger] ts[i]),
        TypeView::Arrow(a, b) => fits(argument, depth, *a) && fits(argument, depth, *b),
        TypeView::Universal(body) => fits(argument, depth + 1, *body),
        TypeView::Existential(body) => fits(argument, depth + 1, *body),
        TypeView::Abstraction(_, body) => fits(argument, depth + 1, *body),
        TypeView::Application(a, b) => fits(argument, depth, *a) && fits(argument, depth, *b),
        TypeView::Rec(body) => fits(argument, depth + 1, *body),
        _ => true,
    }
}

/// What can be raised by `d` can be raised by less.
pub proof fn lemma_liftable_less(d: nat, less: nat, cutoff: nat, t: TypeView)
    requires
        liftable(d, cutoff, t),
        less <= d,
    ensures
        liftable(less, cutoff, t),
    decreases t,
{
    match t {
        TypeView::Variant(vs) => {
            assert forall|i: int| 0 <= i < vs.len() implies liftable(
                less,
                cutoff,
                (#[trigger] vs[i]).ty,
            ) by {
                lemma_liftable_less(d, less, cutoff, vs[i].ty);
            }
        },
        TypeView::Product(ts) => {
            assert forall|i: int| 0 <= i < ts.len() implies liftable(
                less,
                cutoff,
                #[trigger] ts[i],
            ) by {
                lemma_liftable_less(d, less, cutoff, ts[i]);
            }
        },
        TypeView::Arrow(a, b) => {
            lemma_liftable_less(d, less, cutoff, *a);
            lemma_liftable_less(d, less, cutoff, *b);
        },
        TypeView::Universal(body) => {
            lemma_liftable_less(d, less, cutoff + 1, *body);
        },
        TypeView::Existential(body) => {
            lemma_liftable_less(d, less, cutoff + 1, *body);
        },
        TypeView::Abstraction(_, body) => {
            lemma_liftable_less(d, less, cutoff + 1, *body);
        },
        TypeView::Application(a, b) => {
            lemma_liftable_less(d, less, cutoff, *a);
            lemma_liftable_less(d, less, cutoff, *b);
        },
        TypeView::Rec(body) => {
            lemma_liftable_less(d, less, cutoff + 1, *body);
        },
        _ => {},
    }
}

/// Raising a type by `d` as it goes under `d` more binders keeps its free
/// variables: variable `n` occurs in the raised type, seen from under those
/// binders, exactly when it occurred before.
pub proof fn lemma_occurs_free_shifted(n: nat, d: nat, cutoff: nat, t: TypeView)
    requires
        liftable(d, cutoff, t),
    ensures
        occurs_free(n, d + cutoff, shifted(d as int, cutoff, t)) == occurs_free(n, cutoff, t),
    decreases t,
{
    let up = shifted(d as int, cutoff, t);
    match t {
        TypeView::Var(idx) => {
            if idx >= cutoff {
                lemma_wrap_small(idx + d);
            }
        },
        TypeView::Variant(vs) => {
            let ws = up->Variant_0;
            assert forall|i: int| 0 <= i < vs.len() implies occurs_free(n, d + cutoff, ws[i].ty)
                == occurs_free(n, cutoff, vs[i].ty) by {
                lemma_occurs_free_shifted(n, d, cutoff, vs[i].ty);
            }
            if occurs_free(n, cutoff, t) {
                let i = choose|i: int|
                    0 <= i < vs.len() && occurs_free(n, cutoff, (#[trigger] vs[i]).ty);
                assert(occurs_free(n, d + cutoff, ws[i].ty));
            }
        },
        TypeView::Product(ts) => {
            let ws = up->Product_0;
            assert forall|i: int| 0 <= i < ts.len() implies occurs_free(n, d + cutoff, ws[i])
                == occurs_free(n, cutoff, ts[i]) by {
                lemma_occurs_free_shifted(n, d, cutoff, ts[i]);
            }
            if occurs_free(n, cutoff, t) {
                let i = choose|i: int|
                    0 <= i < ts.len() && occurs_free(n, cutoff, #[trigger] ts[i]);
                assert(occurs_free(n, d + cutoff, ws[i]));
            }
        },
        TypeView::Arrow(a, b) => {
            lemma_occurs_free_shifted(n, d, cutoff, *a);
            lemma_occurs_free_shifted(n, d, cutoff, *b);
        },
        TypeView::Universal(body) => {
            lemma_occurs_free_shifted(n, d, cutoff + 1, *body);
        },
        TypeView::Existential(body) => {
            lemma_occurs_free_shifted(n, d, cutoff + 1, *body);
        },
        TypeView::Abstraction(_, body) => {
            lemma_occurs_free_shifted(n, d, cutoff + 1, *body);
        },
        TypeView::Application(a, b) => {
            lemma_occurs_free_shifted(n, d, cutoff, *a);
            lemma_occurs_free_shifted(n, d, cutoff, *b);
        },
        TypeView::Rec(body) => {
            lemma_occurs_free_shifted(n, d, cutoff + 1, *body);
        },
        _ => {},
    }
}

/// The three shifts that an argument goes through on its way to an
/// occurrence under `d` binders come to one shift by `d`: up by one before the
/// substitution, up by `d` at the occurrence, down by one at the end.
pub proof fn lemma_placed_argument(d: nat, cutoff: nat, t: TypeView)
    requires
        liftable(d + 1, cutoff, t),
    ensures
        shifted(-1, d + cutoff, shifted(d as int, cutoff, shifted(1, cutoff, t))) == shifted(
            d as int,
            cutoff,
            t,
        ),
    decreases t,
{
    let s1 = shifted(1, cutoff, t);
    let s2 = shifted(d as int, cutoff, s1);
    let s3 = shifted(-1, d + cutoff, s2);
    let goal = shifted(d as int, cutoff, t);
    match t {
        TypeView::Var(idx) => {
            if idx >= cutoff {
                lemma_wrap_small(idx + 1);
                lemma_wrap_small(idx + 1 + d);
                lemma_wrap_small(idx + d);
            }
        },
        TypeView::Variant(vs) => {
            assert forall|i: int| 0 <= i < vs.len() implies s3->Variant_0[i].ty
                == goal->Variant_0[i].ty by {
                lemma_placed_argument(d, cutoff, vs[i].ty);
            }
            assert(s3->Variant_0 =~= goal->Variant_0);
        },
        TypeView::Product(ts) => {
            assert forall|i: int| 0 <= i < ts.len() implies s3->Product_0[i]
                == goal->Product_0[i] by {
                lemma_placed_argument(d, cutoff, ts[i]);
            }
            assert(s3->Product_0 =~= goal->Product_0);
        },
        TypeView::Arrow(a, b) => {
            lemma_placed_argument(d, cutoff, *a);
            lemma_placed_argument(d, cutoff, *b);
        },
        TypeView::Universal(body) => {
            lemma_placed_argument(d, cutoff + 1, *body);
        },
        TypeView::Existential(body) => {
            lemma_placed_argument(d, cutoff + 1, *body);
        },
        TypeView::Abstraction(_, body) => {
            lemma_placed_argument(d, cutoff + 1, *body);
        },
        TypeView::Application(a, b) => {
            lemma_placed_argument(d, cutoff, *a);
            lemma_placed_argument(d, cutoff, *b);
        },
        TypeView::Rec(body) => {
            lemma_placed_argument(d, cutoff + 1, *body);
        },
        _ => {},
    }
}

/// The free variables of a substitution followed by the closing shift, at any
/// depth: see [`instantiation_avoids_capture`].
pub proof fn lemma_occurs_free_substituted(argument: TypeView, n: nat, depth: nat, t: TypeView)
    requires
        fits(argument, depth, t),
    ensures
        occurs_free(
            n,
            depth,
            shifted(-1, depth, substituted(shifted(1, 0, argument), depth, t)),
        ) == (occurs_free(n + 1, depth, t) || (occurs_free(0, depth, t) && occurs_free(
            n,
            0,
            argument,
        ))),
    decreases t,
{
    let raised = shifted(1, 0, argument);
    let mid = substituted(raised, depth, t);
    let out = shifted(-1, depth, mid);
    match t {
        TypeView::Var(idx) => {
            if idx == depth {
                lemma_placed_argument(depth, 0, argument);
                lemma_liftable_less(depth + 1, depth, 0, argument);
                lemma_occurs_free_shifted(n, depth, 0, argument);
            } else if idx > depth {
                lemma_wrap_small(idx - 1);
            }
        },
        TypeView::Variant(vs) => {
            let ws = out->Variant_0;
            assert forall|i: int| 0 <= i < vs.len() implies occurs_free(n, depth, ws[i].ty) == (
            occurs_free(n + 1, depth, vs[i].ty) || (occurs_free(0, depth, vs[i].ty)
                && occurs_free(n, 0, argument))) by {
                lemma_occurs_free_substituted(argument, n, depth, vs[i].ty);
            }
            if occurs_free(n + 1, depth, t) {
                let i = choose|i: int|
                    0 <= i < vs.len() && occurs_free(n + 1, depth, (#[trigger] vs[i]).ty);
                assert(occurs_free(n, depth, ws[i].ty));
            }
            if occurs_free(0, depth, t) && occurs_free(n, 0, argument) {
                let i = choose|i: int|
                    0 <= i < vs.len() && occurs_free(0, depth, (#[trigger] vs[i]).ty);
                assert(occurs_free(n, depth, ws[i].ty));
            }
            if occurs_free(n, depth, out) {
                let i = choose|i: int|
                    0 <= i < ws.len() && occurs_free(n, depth, (#[trigger] ws[i]).ty);
                assert(occurs_free(n + 1, depth, vs[i].ty) || occurs_free(0, depth, vs[i].ty));
            }
        },
        TypeView::Product(ts) => {
            let ws = out->Product_0;
            assert forall|i: int| 0 <= i < ts.len() implies occurs_free(n, depth, ws[i]) == (
            occurs_free(n + 1, depth, ts[i]) || (occurs_free(0, depth, ts[i]) && occurs_free(
                n,
                0,
                argument,
            ))) by {
                lemma_occurs_free_substituted(argument, n, depth, ts[i]);
            }
            if occurs_free(n + 1, depth, t) {
                let i = choose|i: int|
                    0 <= i < ts.len() && occurs_free(n + 1, depth, #[trigger] ts[i]);
                assert(occurs_free(n, depth, ws[i]));
            }
            if occurs_free(0, depth, t) && occurs_free(n, 0, argument) {
                let i = choose|i: int|
                    0 <= i < ts.len() && occurs_free(0, depth, #[trigger] ts[i]);
                assert(occurs_free(n, depth, ws[i]));
            }
            if occurs_free(n, depth, out) {
                let i = choose|i: int|
                    0 <= i < ws.len() && occurs_free(n, depth, #[trigger] ws[i]);
                assert(occurs_free(n + 1, depth, ts[i]) || occurs_free(0, depth, ts[i]));
            }
        },
        TypeView::Arrow(a, b) => {
            lemma_occurs_free_substituted(argument, n, depth, *a);
            lemma_occurs_free_substituted(argument, n, depth, *b);
        },
        TypeView::Universal(body) => {
            lemma_occurs_free_substituted(argument, n, depth + 1, *body);
        },
        TypeView::Existential(body) => {
            lemma_occurs_free_substituted(argument, n, depth + 1, *body);
        },
        TypeView::Abstraction(_, body) => {
            lemma_occurs_free_substituted(argument, n, depth + 1, *body);
        },
        TypeView::Application(a, b) => {
            lemma_occurs_free_substituted(argument, n, depth, *a);
            lemma_occurs_free_substituted(argument, n, depth, *b);
        },
        TypeView::Rec(body) => {
            lemma_occurs_free_substituted(argument, n, depth + 1, *body);
        },
        _ => {},
    }
}

/// Instantiation avoids capture: the variables that are free in the body `t`
/// of a binder instantiated with `argument` are the free variables of `t`
/// other than the bound one, each one lower as the binder is gone, and, where
/// the bound variable occurs in `t`, the free variables of `argument`
/// unchanged. None of the argument's variables is caught by a binder inside
/// `t`, and none is taken for another.
///
/// This is stated where `argument` fits into `t`. Where an index runs out,
/// it fails: with the highest index as the argument and a binder around the
/// bound variable as `t`, the argument's variable ends up bound.
pub proof fn instantiation_avoids_capture(argument: TypeView, t: TypeView, n: nat)
    requires
        fits(argument, 0, t),
    ensures
        occurs_free(n, 0, instantiated(argument, t)) == (occurs_free(n + 1, 0, t) || (occurs_free(
            0,
            0,
            t,
        ) && occurs_free(n, 0, argument))),
{
    lemma_occurs_free_substituted(argument, n, 0, t);
}

} // verus!
