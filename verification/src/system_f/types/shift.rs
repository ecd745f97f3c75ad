//! Shifting: renumbering the free variables of a type.
//!
//! Indices are machine words, and adding to one wraps around. Where the sum
//! fits in a word, a shift by `d` adds exactly `d`.

use vstd::prelude::*;
use vstd::arithmetic::div_mod::{
    lemma_add_mod_noop,
    lemma_fundamental_div_mod,
    lemma_mod_add_multiples_vanish,
    lemma_mod_bound,
    lemma_mod_multiples_basic,
    lemma_mod_sub_multiples_vanish,
    lemma_small_mod,
};
use super::visit::{keep_node, walk, walk_ty, Hooks, TypeVisitor};
use super::{Type, TypeView};

verus! {

/// The number of values an index can take.
pub open spec fn index_range() -> int {
    usize::MAX + 1
}

/// The index that `x` lands on: `x` itself where it is an index, and else the
/// index that differs from it by a multiple of the range.
pub open spec fn wrap(x: int) -> usize {
    (x % index_range()) as usize
}

/// An index is what it lands on.
pub proof fn lemma_wrap_small(x: int)
    requires
        0 <= x <= usize::MAX,
    ensures
        wrap(x) == x,
{
    lemma_small_mod(x as nat, index_range() as nat);
}

/// Wrapping an intermediate sum changes nothing.
pub proof fn lemma_wrap_add(a: int, b: int)
    ensures
        wrap(wrap(a) + b) == wrap(a + b),
        wrap(a + wrap(b)) == wrap(a + b),
{
    let r = index_range();
    lemma_mod_bound(a, r);
    lemma_mod_bound(b, r);
    lemma_mod_bound(a + b, r);
    lemma_mod_bound(a % r + b, r);
    lemma_mod_bound(a + b % r, r);
    lemma_add_mod_noop(a, b, r);
    lemma_add_mod_noop(a % r, b, r);
    lemma_add_mod_noop(a, b % r, r);
    lemma_small_mod((a % r) as nat, r as nat);
    lemma_small_mod((b % r) as nat, r as nat);
}

/// The traversal that adds `d` to every free variable.
pub open spec fn shift_hooks(d: int) -> Hooks {
    Hooks {
        var: |depth: nat, idx: usize| TypeView::Var(wrap(idx + d)),
        alias: |name: Seq<char>| TypeView::Alias(name),
        node: keep_node(),
    }
}

/// `t` with `d` added to every variable that is free in it, where `t` stands
/// under `cutoff` binders: an index below the cutoff, raised by one at each
/// binder gone under, is bound and stays.
pub open spec fn shifted(d: int, cutoff: nat, t: TypeView) -> TypeView {
    walk(shift_hooks(d), cutoff, t)
}

/// The context under one more type binder: every type in it raised by one,
/// so that its free variables point past the new binder.
pub open spec fn raised(stack: Seq<TypeView>) -> Seq<TypeView> {
    Seq::new(stack.len(), |i: int| shifted(1, 0, stack[i]))
}

/// Whether every variable that is free in `t` is still free once `d` has been
/// added to it; `t` stands under `cutoff` binders.
pub open spec fn stays_free(d: int, cutoff: nat, t: TypeView) -> bool
    decreases t,
{
    match t {
        TypeView::Var(idx) => idx >= cutoff ==> wrap(idx + d) >= cutoff,
        TypeView::Variant(vs) => forall|i: int|
            0 <= i < vs.len() ==> stays_free(d, cutoff, (#[trigger] vs[i]).ty),
        TypeView::Product(ts) => forall|i: int|
            0 <= i < ts.len() ==> stays_free(d, cutoff, #[trigger] ts[i]),
        TypeView::Arrow(a, b) => stays_free(d, cutoff, *a) && stays_free(d, cutoff, *b),
        TypeView::Universal(body) => stays_free(d, cutoff + 1, *body),
        TypeView::Existential(body) => stays_free(d, cutoff + 1, *body),
        TypeView::Abstraction(_, body) => stays_free(d, cutoff + 1, *body),
        TypeView::Application(a, b) => stays_free(d, cutoff, *a) && stays_free(d, cutoff, *b),
        TypeView::Rec(body) => stays_free(d, cutoff + 1, *body),
        _ => true,
    }
}

/// Shifting by zero is the identity, at any cutoff.
pub proof fn shift_identity(cutoff: nat, t: TypeView)
    ensures
        shifted(0, cutoff, t) == t,
    decreases t,
{
    match t {
        TypeView::Var(idx) => {
            lemma_wrap_small(idx as int);
        },
        TypeView::Variant(vs) => {
            assert forall|i: int| 0 <= i < vs.len() implies shifted(0, cutoff, vs[i].ty)
                == vs[i].ty by {
                shift_identity(cutoff, vs[i].ty);
            }
            assert(shifted(0, cutoff, t)->Variant_0 =~= vs);
        },
        TypeView::Product(ts) => {
            assert forall|i: int| 0 <= i < ts.len() implies shifted(0, cutoff, ts[i])
                == ts[i] by {
                shift_identity(cutoff, ts[i]);
            }
            assert(shifted(0, cutoff, t)->Product_0 =~= ts);
        },
        TypeView::Arrow(a, b) => {
            shift_identity(cutoff, *a);
            shift_identity(cutoff, *b);
        },
        TypeView::Universal(body) => {
            shift_identity(cutoff + 1, *body);
        },
        TypeView::Existential(body) => {
            shift_identity(cutoff + 1, *body);
        },
        TypeView::Abstraction(_, body) => {
            shift_identity(cutoff + 1, *body);
        },
        TypeView::Application(a, b) => {
            shift_identity(cutoff, *a);
            shift_identity(cutoff, *b);
        },
        TypeView::Rec(body) => {
            shift_identity(cutoff + 1, *body);
        },
        _ => {},
    }
}

/// Two amounts that land on the same index shift alike.
pub proof fn lemma_shift_congruent(d1: int, d2: int, cutoff: nat, t: TypeView)
    requires
        wrap(d1) == wrap(d2),
    ensures
        shifted(d1, cutoff, t) == shifted(d2, cutoff, t),
    decreases t,
{
    match t {
        TypeView::Var(idx) => {
            lemma_wrap_add(idx as int, d1);
            lemma_wrap_add(idx as int, d2);
        },
        TypeView::Variant(vs) => {
            assert forall|i: int| 0 <= i < vs.len() implies shifted(d1, cutoff, vs[i].ty)
                == shifted(d2, cutoff, vs[i].ty) by {
                lemma_shift_congruent(d1, d2, cutoff, vs[i].ty);
            }
            assert(shifted(d1, cutoff, t)->Variant_0 =~= shifted(d2, cutoff, t)->Variant_0);
        },
        TypeView::Product(ts) => {
            assert forall|i: int| 0 <= i < ts.len() implies shifted(d1, cutoff, ts[i])
                == shifted(d2, cutoff, ts[i]) by {
                lemma_shift_congruent(d1, d2, cutoff, ts[i]);
            }
            assert(shifted(d1, cutoff, t)->Product_0 =~= shifted(d2, cutoff, t)->Product_0);
        },
        TypeView::Arrow(a, b) => {
            lemma_shift_congruent(d1, d2, cutoff, *a);
            lemma_shift_congruent(d1, d2, cutoff, *b);
        },
        TypeView::Universal(body) => {
            lemma_shift_congruent(d1, d2, cutoff + 1, *body);
        },
        TypeView::Existential(body) => {
            lemma_shift_congruent(d1, d2, cutoff + 1, *body);
        },
        TypeView::Abstraction(_, body) => {
            lemma_shift_congruent(d1, d2, cutoff + 1, *body);
        },
        TypeView::Application(a, b) => {
            lemma_shift_congruent(d1, d2, cutoff, *a);
            lemma_shift_congruent(d1, d2, cutoff, *b);
        },
        TypeView::Rec(body) => {
            lemma_shift_congruent(d1, d2, cutoff + 1, *body);
        },
        _ => {},
    }
}

/// Shifting by `d2` and then by `d1` is shifting by `d1 + d2`, where the
/// first shift leaves every free variable free.
pub proof fn lemma_shift_shift(d1: int, d2: int, cutoff: nat, t: TypeView)
    requires
        stays_free(d2, cutoff, t),
    ensures
        shifted(d1, cutoff, shifted(d2, cutoff, t)) == shifted(d1 + d2, cutoff, t),
    decreases t,
{
    let mid = shifted(d2, cutoff, t);
    match t {
        TypeView::Var(idx) => {
            lemma_wrap_add(idx + d2, d1);
        },
        TypeView::Variant(vs) => {
            assert forall|i: int| 0 <= i < vs.len() implies shifted(
                d1,
                cutoff,
                shifted(d2, cutoff, vs[i].ty),
            ) == shifted(d1 + d2, cutoff, vs[i].ty) by {
                lemma_shift_shift(d1, d2, cutoff, vs[i].ty);
            }
            assert(shifted(d1, cutoff, mid)->Variant_0 =~= shifted(
                d1 + d2,
                cutoff,
                t,
            )->Variant_0);
        },
        TypeView::Product(ts) => {
            assert forall|i: int| 0 <= i < ts.len() implies shifted(
                d1,
                cutoff,
                shifted(d2, cutoff, ts[i]),
            ) == shifted(d1 + d2, cutoff, ts[i]) by {
                lemma_shift_shift(d1, d2, cutoff, ts[i]);
            }
            assert(shifted(d1, cutoff, mid)->Product_0 =~= shifted(
                d1 + d2,
                cutoff,
                t,
            )->Product_0);
        },
        TypeView::Arrow(a, b) => {
            lemma_shift_shift(d1, d2, cutoff, *a);
            lemma_shift_shift(d1, d2, cutoff, *b);
        },
        TypeView::Universal(body) => {
            lemma_shift_shift(d1, d2, cutoff + 1, *body);
        },
        TypeView::Existential(body) => {
            lemma_shift_shift(d1, d2, cutoff + 1, *body);
        },
        TypeView::Abstraction(_, body) => {
            lemma_shift_shift(d1, d2, cutoff + 1, *body);
        },
        TypeView::Application(a, b) => {
            lemma_shift_shift(d1, d2, cutoff, *a);
            lemma_shift_shift(d1, d2, cutoff, *b);
        },
        TypeView::Rec(body) => {
            lemma_shift_shift(d1, d2, cutoff + 1, *body);
        },
        _ => {},
    }
}

/// Shifting composes: shifting by `d2` and then by `d1` is shifting by
/// `d1 + d2`.
///
/// This holds where the first shift leaves every free variable free, and
/// where the second shift is by a multiple of the index range. Elsewhere it
/// fails: a variable that the first shift has pushed below the cutoff is
/// bound for the second, which then leaves it where it is.
pub proof fn shift_composition(d1: int, d2: int, cutoff: nat, t: TypeView)
    requires
        stays_free(d2, cutoff, t) || d1 % index_range() == 0,
    ensures
        shifted(d1, cutoff, shifted(d2, cutoff, t)) == shifted(d1 + d2, cutoff, t),
{
    if stays_free(d2, cutoff, t) {
        lemma_shift_shift(d1, d2, cutoff, t);
    } else {
        lemma_small_mod(0, index_range() as nat);
        lemma_shift_congruent(d1, 0, cutoff, shifted(d2, cutoff, t));
        shift_identity(cutoff, shifted(d2, cutoff, t));
        lemma_add_mod_noop(d1, d2, index_range());
        lemma_add_mod_noop(0, d2, index_range());
        lemma_shift_congruent(d1 + d2, d2, cutoff, t);
    }
}

/// Adding to an index gives the same index only where what is added is a
/// multiple of the range.
pub proof fn lemma_wrap_fixed(idx: usize, d: int)
    requires
        wrap(idx + d) == idx,
    ensures
        d % index_range() == 0,
{
    let r = index_range();
    let q = (idx + d) / r;
    lemma_fundamental_div_mod(idx + d, r);
    lemma_mod_bound(idx + d, r);
    assert(d == r * q);
    assert(r * q == q * r) by (nonlinear_arith);
    lemma_mod_multiples_basic(q, r);
}

/// Where the first shift binds a variable that was free, and the second
/// shift is by no multiple of the index range, shifting does not compose:
/// that variable stays where the first shift has put it.
pub proof fn shift_composition_fails_elsewhere(d1: int, d2: int, cutoff: nat, t: TypeView)
    requires
        !stays_free(d2, cutoff, t),
        d1 % index_range() != 0,
    ensures
        shifted(d1, cutoff, shifted(d2, cutoff, t)) != shifted(d1 + d2, cutoff, t),
    decreases t,
{
    let left = shifted(d1, cutoff, shifted(d2, cutoff, t));
    let right = shifted(d1 + d2, cutoff, t);
    match t {
        TypeView::Var(idx) => {
            let moved = wrap(idx + d2);
            lemma_wrap_add(idx + d2, d1);
            if wrap(moved + d1) == moved {
                lemma_wrap_fixed(moved, d1);
            }
        },
        TypeView::Variant(vs) => {
            let i = choose|i: int| 0 <= i < vs.len() && !stays_free(d2, cutoff, (#[trigger] vs[i]).ty);
            shift_composition_fails_elsewhere(d1, d2, cutoff, vs[i].ty);
            assert(left->Variant_0[i].ty != right->Variant_0[i].ty);
        },
        TypeView::Product(ts) => {
            let i = choose|i: int| 0 <= i < ts.len() && !stays_free(d2, cutoff, #[trigger] ts[i]);
            shift_composition_fails_elsewhere(d1, d2, cutoff, ts[i]);
            assert(left->Product_0[i] != right->Product_0[i]);
        },
        TypeView::Arrow(a, b) => {
            if !stays_free(d2, cutoff, *a) {
                shift_composition_fails_elsewhere(d1, d2, cutoff, *a);
            } else {
                shift_composition_fails_elsewhere(d1, d2, cutoff, *b);
            }
        },
        TypeView::Universal(body) => {
            shift_composition_fails_elsewhere(d1, d2, cutoff + 1, *body);
        },
        TypeView::Existential(body) => {
            shift_composition_fails_elsewhere(d1, d2, cutoff + 1, *body);
        },
        TypeView::Abstraction(_, body) => {
            shift_composition_fails_elsewhere(d1, d2, cutoff + 1, *body);
        },
        TypeView::Application(a, b) => {
            if !stays_free(d2, cutoff, *a) {
                shift_composition_fails_elsewhere(d1, d2, cutoff, *a);
            } else {
                shift_composition_fails_elsewhere(d1, d2, cutoff, *b);
            }
        },
        TypeView::Rec(body) => {
            shift_composition_fails_elsewhere(d1, d2, cutoff + 1, *body);
        },
        _ => {},
    }
}

/// The traversal that shifts by a fixed amount.
///
/// The amount is held as the index that it lands on, so that a shift
/// downwards by `n` is held as the range less `n`: added to an index with
/// wrap-around, both give the same.
#[derive(Debug)]
pub struct Shift {
    pub delta: usize,
}

impl Shift {
    /// The shift by `shift`, upwards or downwards.
    pub fn new(shift: isize) -> (r: Shift)
        ensures
            r.delta == wrap(shift as int),
    {
        let delta: usize = 0usize.wrapping_add_signed(shift);
        proof {
            if shift < 0 {
                lemma_mod_add_multiples_vanish(shift as int, index_range());
                lemma_small_mod((shift + index_range()) as nat, index_range() as nat);
            } else {
                lemma_wrap_small(shift as int);
            }
        }
        Shift { delta }
    }

    /// The shift upwards by `by`.
    pub fn up(by: usize) -> (r: Shift)
        ensures
            r.delta == by,
    {
        Shift { delta: by }
    }

    /// `ty` with the shift applied to every variable that is free in it.
    pub fn visit(&self, ty: &Type) -> (r: Type)
        ensures
            r@ == shifted(self.delta as int, 0, ty@),
    {
        walk_ty(self, 0, ty)
    }
}

impl TypeVisitor for Shift {
    open spec fn hooks(&self) -> Hooks {
        shift_hooks(self.delta as int)
    }

    fn visit_var(&self, depth: usize, idx: usize) -> (r: Type) {
        let moved: usize = idx.wrapping_add(self.delta);
        proof {
            if idx + self.delta > usize::MAX {
                lemma_mod_sub_multiples_vanish(idx + self.delta, index_range());
                lemma_small_mod((idx + self.delta - index_range()) as nat, index_range() as nat);
            } else {
                lemma_wrap_small(idx + self.delta);
            }
        }
        Type::Var(moved)
    }

    fn visit_alias(&self, name: &String) -> (r: Type) {
        Type::Alias(name.clone())
    }

    fn visit_node(&self, node: Type) -> (r: Type) {
        node
    }
}

/// `ty` with `by` added to each of its free variables.
pub fn shift(by: isize, ty: &Type) -> (r: Type)
    ensures
        r@ == shifted(by as int, 0, ty@),
{
    let visitor = Shift::new(by);
    proof {
        lemma_wrap_add(0, by as int);
        lemma_shift_congruent(visitor.delta as int, by as int, 0, ty@);
    }
    visitor.visit(ty)
}

} // verus!
