//! Structural equality of types: two types are equal when they are the same
//! tree, with the same labels, names and variable indices in the same places.

use vstd::prelude::*;
use vstd::std_specs::cmp::PartialEqSpecImpl;
use super::{type_views, variant_views, Type, Variant};

verus! {

/// Whether two sequences of types agree component by component.
fn same_types(xs: &Vec<Type>, ys: &Vec<Type>) -> (r: bool)
    ensures
        r == (type_views(xs@) == type_views(ys@)),
    decreases xs,
{
    if xs.len() != ys.len() {
        assert(type_views(xs@).len() != type_views(ys@).len());
        return false;
    }
    let mut i: usize = 0;
    while i < xs.len()
        invariant
            i <= xs.len(),
            xs.len() == ys.len(),
            forall|j: int| 0 <= j < i ==> (#[trigger] xs@[j])@ == ys@[j]@,
        decreases xs.len() - i,
    {
        if !xs[i].same(&ys[i]) {
            assert(type_views(xs@)[i as int] != type_views(ys@)[i as int]);
            return false;
        }
        i += 1;
    }
    assert(type_views(xs@) =~= type_views(ys@));
    true
}

/// Whether two sequences of variants agree in labels and payload types,
/// alternative by alternative.
fn same_variants(xs: &Vec<Variant>, ys: &Vec<Variant>) -> (r: bool)
    ensures
        r == (variant_views(xs@) == variant_views(ys@)),
    decreases xs,
{
    if xs.len() != ys.len() {
        assert(variant_views(xs@).len() != variant_views(ys@).len());
        return false;
    }
    let mut i: usize = 0;
    while i < xs.len()
        invariant
            i <= xs.len(),
            xs.len() == ys.len(),
            forall|j: int| 0 <= j < i ==> (#[trigger] xs@[j])@ == ys@[j]@,
        decreases xs.len() - i,
    {
        if xs[i].label != ys[i].label || !xs[i].ty.same(&ys[i].ty) {
            assert(variant_views(xs@)[i as int] != variant_views(ys@)[i as int]);
            return false;
        }
        i += 1;
    }
    assert(variant_views(xs@) =~= variant_views(ys@));
    true
}

impl Type {
    /// Structural equality: `true` exactly when both types have the same
    /// model.
    pub fn same(&self, other: &Type) -> (r: bool)
        ensures
            r == (self@ == other@),
        decreases self,
    {
        match self {
            Type::Unit => matches!(other, Type::Unit),
            Type::Nat => matches!(other, Type::Nat),
            Type::Bool => matches!(other, Type::Bool),
            Type::Alias(a) => match other {
                Type::Alias(b) => *a == *b,
                _ => false,
            },
            Type::Var(i) => match other {
                Type::Var(j) => *i == *j,
                _ => false,
            },
            Type::Variant(xs) => match other {
                Type::Variant(ys) => {
                    proof {
                        Type::lemma_view_variant(*xs);
                        Type::lemma_view_variant(*ys);
                    }
                    same_variants(xs, ys)
                },
                _ => false,
            },
            Type::Product(xs) => match other {
                Type::Product(ys) => {
                    proof {
                        Type::lemma_view_product(*xs);
                        Type::lemma_view_product(*ys);
                    }
                    same_types(xs, ys)
                },
                _ => false,
            },
            Type::Arrow(a1, b1) => match other {
                Type::Arrow(a2, b2) => a1.same(a2) && b1.same(b2),
                _ => false,
            },
            Type::Universal(a) => match other {
                Type::Universal(b) => a.same(b),
                _ => false,
            },
            Type::Existential(a) => match other {
                Type::Existential(b) => a.same(b),
                _ => false,
            },
            Type::Abstraction(k1, a) => match other {
                Type::Abstraction(k2, b) => k1.same(k2) && a.same(b),
                _ => false,
            },
            Type::Application(a1, b1) => match other {
                Type::Application(a2, b2) => a1.same(a2) && b1.same(b2),
                _ => false,
            },
            Type::Rec(a) => match other {
                Type::Rec(b) => a.same(b),
                _ => false,
            },
        }
    }
}

impl PartialEq for Type {
    fn eq(&self, other: &Type) -> (r: bool) {
        self.same(other)
    }
}

impl PartialEqSpecImpl for Type {
    open spec fn obeys_eq_spec() -> bool {
        true
    }

    open spec fn eq_spec(&self, other: &Type) -> bool {
        self@ == other@
    }
}

impl Eq for Type {}

impl PartialEq for Variant {
    fn eq(&self, other: &Variant) -> (r: bool) {
        self.label == other.label && self.ty.same(&other.ty)
    }
}

impl PartialEqSpecImpl for Variant {
    open spec fn obeys_eq_spec() -> bool {
        true
    }

    open spec fn eq_spec(&self, other: &Variant) -> bool {
        self@ == other@
    }
}

impl Eq for Variant {}

} // verus!
