//! The invariant of the type algebra: within a variant type, no label occurs
//! twice. The traversals keep it.

use vstd::prelude::*;
use crate::system_f::terms::{ArmView, KindView, PatternView, TermView};
use super::aliases::{resolve_hooks, resolved, resolved_once, resolved_times};
use super::check::{
    arm_results,
    arm_stack,
    lemma_arm_results,
    lemma_no_first_failure,
    lemma_tuple_results,
    tuple_results,
    type_of,
};
use super::patterns::field_type;
use super::shift::{raised, shift_hooks, shifted};
use super::subst::{instantiated, subst_hooks, substituted};
use super::visit::{rebuilt, walk, Hooks};
use super::{type_views, variant_views, Type, TypeView, Variant, VariantView};

verus! {

/// Whether no two of the alternatives share a label.
pub open spec fn labels_distinct(fields: Seq<VariantView>) -> bool {
    forall|i: int, j: int|
        0 <= i < j < fields.len() ==> (#[trigger] fields[i]).label != (#[trigger] fields[j]).label
}

/// Whether every variant type in `t`, at any depth, has distinct labels.
pub open spec fn well_formed(t: TypeView) -> bool
    decreases t,
{
    match t {
        TypeView::Variant(vs) => labels_distinct(vs) && forall|i: int|
            0 <= i < vs.len() ==> well_formed((#[trigger] vs[i]).ty),
        TypeView::Product(ts) => forall|i: int| 0 <= i < ts.len() ==> well_formed(#[trigger] ts[i]),
        TypeView::Arrow(a, b) => well_formed(*a) && well_formed(*b),
        TypeView::Universal(body) => well_formed(*body),
        TypeView::Existential(body) => well_formed(*body),
        TypeView::Abstraction(_, body) => well_formed(*body),
        TypeView::Application(a, b) => well_formed(*a) && well_formed(*b),
        TypeView::Rec(body) => well_formed(*body),
        _ => true,
    }
}

/// A product is well-formed exactly when its components are.
pub proof fn lemma_well_formed_product(ts: Seq<TypeView>)
    ensures
        well_formed(TypeView::Product(ts)) == (forall|i: int|
            0 <= i < ts.len() ==> well_formed(#[trigger] ts[i])),
{
    if well_formed(TypeView::Product(ts)) {
        assert forall|i: int| 0 <= i < ts.len() implies well_formed(#[trigger] ts[i]) by {
            let components = TypeView::Product(ts)->Product_0;
            assert(well_formed(components[i]));
        }
    }
}

/// Whether a traversal keeps to well-formed types: what it puts in place of
/// a variable or an alias is well-formed, and what it makes of a well-formed
/// node is well-formed.
pub open spec fn hooks_well_formed(hooks: Hooks) -> bool {
    &&& forall|depth: nat, idx: usize| well_formed(#[trigger] (hooks.var)(depth, idx))
    &&& forall|name: Seq<char>| well_formed(#[trigger] (hooks.alias)(name))
    &&& forall|node: TypeView| well_formed(node) ==> well_formed(#[trigger] (hooks.node)(node))
}

/// Among distinct labels, a label names one alternative: the payload type of
/// a label is that of any alternative that has it.
pub proof fn distinct_labels_name_one_alternative(fields: Seq<VariantView>, i: int)
    requires
        labels_distinct(fields),
        0 <= i < fields.len(),
    ensures
        field_type(fields, fields[i].label) == Some(fields[i].ty),
    decreases fields.len(),
{
    if i > 0 {
        let rest = fields.drop_first();
        assert(fields[0].label != fields[i].label);
        assert forall|a: int, b: int| 0 <= a < b < rest.len() implies (#[trigger] rest[a]).label != (
        #[trigger] rest[b]).label by {
            assert(rest[a] == fields[a + 1]);
            assert(rest[b] == fields[b + 1]);
        }
        assert(rest[i - 1] == fields[i]);
        distinct_labels_name_one_alternative(rest, i - 1);
    }
}

/// The payload type of a label in a well-formed variant type is well-formed.
pub proof fn lemma_field_type_well_formed(fields: Seq<VariantView>, label: Seq<char>)
    requires
        forall|i: int| 0 <= i < fields.len() ==> well_formed((#[trigger] fields[i]).ty),
    ensures
        field_type(fields, label) matches Some(ty) ==> well_formed(ty),
    decreases fields.len(),
{
    if fields.len() > 0 && fields[0].label != label {
        let rest = fields.drop_first();
        assert forall|i: int| 0 <= i < rest.len() implies well_formed((#[trigger] rest[i]).ty) by {
            assert(rest[i] == fields[i + 1]);
        }
        lemma_field_type_well_formed(rest, label);
    }
}

/// A walk keeps a type well-formed, where its hooks keep to well-formed
/// types: it changes no label on its own.
pub proof fn lemma_walk_well_formed(hooks: Hooks, depth: nat, t: TypeView)
    requires
        well_formed(t),
        hooks_well_formed(hooks),
    ensures
        well_formed(walk(hooks, depth, t)),
    decreases t,
{
    let node = rebuilt(hooks, depth, t);
    match t {
        TypeView::Variant(vs) => {
            let ws = node->Variant_0;
            assert forall|i: int| 0 <= i < ws.len() implies well_formed((#[trigger] ws[i]).ty) by {
                assert(well_formed(vs[i].ty));
                lemma_walk_well_formed(hooks, depth, vs[i].ty);
            }
            assert forall|i: int, j: int| 0 <= i < j < ws.len() implies (#[trigger] ws[i]).label != (
            #[trigger] ws[j]).label by {
                assert(vs[i].label != vs[j].label);
            }
        },
        TypeView::Product(ts) => {
            let ws = node->Product_0;
            assert forall|i: int| 0 <= i < ws.len() implies well_formed(#[trigger] ws[i]) by {
                assert(well_formed(ts[i]));
                lemma_walk_well_formed(hooks, depth, ts[i]);
            }
        },
        TypeView::Arrow(a, b) => {
            lemma_walk_well_formed(hooks, depth, *a);
            lemma_walk_well_formed(hooks, depth, *b);
        },
        TypeView::Universal(body) => {
            lemma_walk_well_formed(hooks, depth + 1, *body);
        },
        TypeView::Existential(body) => {
            lemma_walk_well_formed(hooks, depth + 1, *body);
        },
        TypeView::Abstraction(_, body) => {
            lemma_walk_well_formed(hooks, depth + 1, *body);
        },
        TypeView::Application(a, b) => {
            lemma_walk_well_formed(hooks, depth, *a);
            lemma_walk_well_formed(hooks, depth, *b);
        },
        TypeView::Rec(body) => {
            lemma_walk_well_formed(hooks, depth + 1, *body);
        },
        _ => {},
    }
    assert(well_formed(node));
}

/// A shift keeps a type well-formed.
pub proof fn lemma_shifted_well_formed(d: int, cutoff: nat, t: TypeView)
    requires
        well_formed(t),
    ensures
        well_formed(shifted(d, cutoff, t)),
{
    lemma_walk_well_formed(shift_hooks(d), cutoff, t);
}

/// A substitution of a well-formed type keeps a type well-formed.
pub proof fn lemma_substituted_well_formed(replacement: TypeView, depth: nat, t: TypeView)
    requires
        well_formed(replacement),
        well_formed(t),
    ensures
        well_formed(substituted(replacement, depth, t)),
{
    let hooks = subst_hooks(replacement);
    assert forall|d: nat, idx: usize| well_formed(#[trigger] (hooks.var)(d, idx)) by {
        lemma_shifted_well_formed(d as int, 0, replacement);
    }
    lemma_walk_well_formed(hooks, depth, t);
}

/// Instantiating a well-formed body with a well-formed argument gives a
/// well-formed type.
pub proof fn lemma_instantiated_well_formed(argument: TypeView, t: TypeView)
    requires
        well_formed(argument),
        well_formed(t),
    ensures
        well_formed(instantiated(argument, t)),
{
    lemma_shifted_well_formed(1, 0, argument);
    lemma_substituted_well_formed(shifted(1, 0, argument), 0, t);
    lemma_shifted_well_formed(-1, 0, substituted(shifted(1, 0, argument), 0, t));
}

/// Whether every type in the alias table is well-formed.
pub open spec fn aliases_well_formed(aliases: Map<Seq<char>, TypeView>) -> bool {
    forall|name: Seq<char>| aliases.dom().contains(name) ==> well_formed(#[trigger] aliases[name])
}

/// Passes against a well-formed table keep a type well-formed.
pub proof fn lemma_resolved_times_well_formed(
    aliases: Map<Seq<char>, TypeView>,
    passes: nat,
    t: TypeView,
)
    requires
        aliases_well_formed(aliases),
        well_formed(t),
    ensures
        well_formed(resolved_times(aliases, passes, t)),
    decreases passes,
{
    if passes > 0 {
        lemma_walk_well_formed(resolve_hooks(aliases), 0, t);
        lemma_resolved_times_well_formed(aliases, (passes - 1) as nat, resolved_once(aliases, t));
    }
}

/// Resolving against a well-formed table keeps a type well-formed.
pub proof fn lemma_resolved_well_formed(aliases: Map<Seq<char>, TypeView>, t: TypeView)
    requires
        aliases_well_formed(aliases),
        well_formed(t),
    ensures
        well_formed(resolved(aliases, t)),
{
    lemma_resolved_times_well_formed(aliases, aliases.dom().len(), t);
}

/// Whether every type in the context is well-formed.
pub open spec fn stack_well_formed(stack: Seq<TypeView>) -> bool {
    forall|i: int| 0 <= i < stack.len() ==> well_formed(#[trigger] stack[i])
}

/// Whether every type that `term` is annotated with, at any depth, is
/// well-formed.
pub open spec fn annotations_well_formed(term: TermView) -> bool
    decreases term,
{
    match term.kind {
        KindView::Lit(_) => true,
        KindView::Var(_) => true,
        KindView::Fix(inner) => annotations_well_formed(*inner),
        KindView::Primitive(_) => true,
        KindView::Injection(_, payload, ty) => well_formed(ty) && annotations_well_formed(
            *payload,
        ),
        KindView::Product(terms) => forall|i: int|
            0 <= i < terms.len() ==> annotations_well_formed(#[trigger] terms[i]),
        KindView::Projection(inner, _) => annotations_well_formed(*inner),
        KindView::Case(scrutinee, arms) => annotations_well_formed(*scrutinee) && forall|i: int|
            0 <= i < arms.len() ==> annotations_well_formed((#[trigger] arms[i]).term),
        KindView::Let(bound, body) => annotations_well_formed(*bound) && annotations_well_formed(
            *body,
        ),
        KindView::Abs(ty, body) => well_formed(ty) && annotations_well_formed(*body),
        KindView::App(fun, arg) => annotations_well_formed(*fun) && annotations_well_formed(*arg),
        KindView::If(guard, csq, alt) => annotations_well_formed(*guard)
            && annotations_well_formed(*csq) && annotations_well_formed(*alt),
        KindView::TyAbs(body) => annotations_well_formed(*body),
        KindView::TyApp(inner, ty) => well_formed(ty) && annotations_well_formed(*inner),
        KindView::Fold(ty, inner) => well_formed(ty) && annotations_well_formed(*inner),
        KindView::Unfold(ty, inner) => well_formed(ty) && annotations_well_formed(*inner),
    }
}

/// The context of an arm's body is well-formed where the context of the case
/// and the variant type are.
proof fn lemma_arm_stack_well_formed(
    fields: Seq<VariantView>,
    pat: PatternView,
    stack: Seq<TypeView>,
)
    requires
        stack_well_formed(stack),
        forall|i: int| 0 <= i < fields.len() ==> well_formed((#[trigger] fields[i]).ty),
    ensures
        stack_well_formed(arm_stack(fields, pat, stack)),
{
    match pat {
        PatternView::Any => {},
        PatternView::Constructor(label) => {
            lemma_field_type_well_formed(fields, label);
        },
    }
}

/// The checker keeps the invariant: where the alias table, the context and
/// the annotations of a term are well-formed, so is the type of the term.
pub proof fn type_of_is_well_formed(
    aliases: Map<Seq<char>, TypeView>,
    stack: Seq<TypeView>,
    term: TermView,
)
    requires
        aliases_well_formed(aliases),
        stack_well_formed(stack),
        annotations_well_formed(term),
    ensures
        type_of(aliases, stack, term) matches Ok(ty) ==> well_formed(ty),
    decreases term,
{
    reveal(type_of);
    match term.kind {
        KindView::Lit(_) => {},
        KindView::Var(_) => {},
        KindView::Fix(inner) => {
            type_of_is_well_formed(aliases, stack, *inner);
        },
        KindView::Primitive(_) => {
            assert(well_formed(TypeView::Nat));
            assert(well_formed(TypeView::Bool));
        },
        KindView::Injection(_, payload, ty) => {
            lemma_resolved_well_formed(aliases, ty);
        },
        KindView::Product(terms) => {
            let results = tuple_results(aliases, stack, terms);
            lemma_tuple_results(aliases, stack, terms);
            if type_of(aliases, stack, term) is Ok {
                lemma_no_first_failure(results);
                let types = type_of(aliases, stack, term)->Ok_0->Product_0;
                assert forall|i: int| 0 <= i < types.len() implies well_formed(
                    #[trigger] types[i],
                ) by {
                    assert(results[i] is Ok);
                    type_of_is_well_formed(aliases, stack, terms[i]);
                }
                lemma_well_formed_product(types);
            }
        },
        KindView::Projection(inner, idx) => {
            type_of_is_well_formed(aliases, stack, *inner);
            match type_of(aliases, stack, *inner) {
                Ok(TypeView::Product(components)) => {
                    lemma_well_formed_product(components);
                },
                _ => {},
            }
        },
        KindView::Case(scrutinee, arms) => {
            type_of_is_well_formed(aliases, stack, *scrutinee);
            match type_of(aliases, stack, *scrutinee) {
                Ok(TypeView::Variant(fields)) => {
                    lemma_arm_results(aliases, stack, fields, arms);
                    if type_of(aliases, stack, term) is Ok {
                        lemma_arm_stack_well_formed(fields, arms[0].pat, stack);
                        type_of_is_well_formed(
                            aliases,
                            arm_stack(fields, arms[0].pat, stack),
                            arms[0].term,
                        );
                    }
                },
                _ => {},
            }
        },
        KindView::Let(bound, body) => {
            type_of_is_well_formed(aliases, stack, *bound);
            match type_of(aliases, stack, *bound) {
                Ok(ty) => {
                    type_of_is_well_formed(aliases, seq![ty] + stack, *body);
                },
                _ => {},
            }
        },
        KindView::Abs(ty, body) => {
            lemma_resolved_well_formed(aliases, ty);
            type_of_is_well_formed(aliases, seq![resolved(aliases, ty)] + stack, *body);
        },
        KindView::App(fun, arg) => {
            type_of_is_well_formed(aliases, stack, *fun);
        },
        KindView::If(guard, csq, alt) => {
            type_of_is_well_formed(aliases, stack, *alt);
        },
        KindView::TyAbs(body) => {
            assert forall|i: int| 0 <= i < raised(stack).len() implies well_formed(
                #[trigger] raised(stack)[i],
            ) by {
                lemma_shifted_well_formed(1, 0, stack[i]);
            }
            type_of_is_well_formed(aliases, raised(stack), *body);
        },
        KindView::TyApp(inner, ty) => {
            type_of_is_well_formed(aliases, stack, *inner);
            lemma_resolved_well_formed(aliases, ty);
            match type_of(aliases, stack, *inner) {
                Ok(TypeView::Universal(body)) => {
                    lemma_instantiated_well_formed(resolved(aliases, ty), *body);
                },
                _ => {},
            }
        },
        KindView::Fold(ty, inner) => {
            lemma_resolved_well_formed(aliases, ty);
        },
        KindView::Unfold(ty, inner) => {
            lemma_resolved_well_formed(aliases, ty);
            match resolved(aliases, ty) {
                TypeView::Rec(body) => {
                    lemma_instantiated_well_formed(resolved(aliases, ty), *body);
                },
                _ => {},
            }
        },
    }
}

/// Whether none of the first `upto` alternatives has the label of
/// alternative `upto`.
fn label_is_new(fields: &Vec<Variant>, upto: usize) -> (r: bool)
    requires
        upto < fields.len(),
    ensures
        r == forall|i: int|
            0 <= i < upto ==> (#[trigger] variant_views(fields@)[i]).label != variant_views(
                fields@,
            )[upto as int].label,
{
    let mut i: usize = 0;
    while i < upto
        invariant
            i <= upto < fields.len(),
            forall|j: int|
                0 <= j < i ==> (#[trigger] variant_views(fields@)[j]).label != variant_views(
                    fields@,
                )[upto as int].label,
        decreases upto - i,
    {
        if fields[i].label == fields[upto].label {
            assert(variant_views(fields@)[i as int].label == variant_views(
                fields@,
            )[upto as int].label);
            return false;
        }
        i += 1;
    }
    true
}

/// Whether the types `ts` are all well-formed.
fn all_well_formed(ts: &Vec<Type>) -> (r: bool)
    ensures
        r == forall|i: int| 0 <= i < ts.len() ==> well_formed(#[trigger] type_views(ts@)[i]),
    decreases ts,
{
    let mut i: usize = 0;
    while i < ts.len()
        invariant
            i <= ts.len(),
            forall|j: int| 0 <= j < i ==> well_formed(#[trigger] type_views(ts@)[j]),
        decreases ts.len() - i,
    {
        if !ts[i].is_well_formed() {
            assert(!well_formed(type_views(ts@)[i as int]));
            return false;
        }
        i += 1;
    }
    true
}

/// Whether the alternatives `fields` have distinct labels and well-formed
/// payload types.
fn variant_well_formed(fields: &Vec<Variant>) -> (r: bool)
    ensures
        r == (labels_distinct(variant_views(fields@)) && forall|i: int|
            0 <= i < fields.len() ==> well_formed((#[trigger] variant_views(fields@)[i]).ty)),
    decreases fields,
{
    let ghost vs = variant_views(fields@);
    let mut i: usize = 0;
    while i < fields.len()
        invariant
            i <= fields.len(),
            vs == variant_views(fields@),
            forall|a: int, b: int|
                0 <= a < b < i ==> (#[trigger] vs[a]).label != (#[trigger] vs[b]).label,
            forall|j: int| 0 <= j < i ==> well_formed((#[trigger] vs[j]).ty),
        decreases fields.len() - i,
    {
        if !label_is_new(fields, i) {
            return false;
        }
        if !fields[i].ty.is_well_formed() {
            assert(!well_formed(vs[i as int].ty));
            return false;
        }
        i += 1;
    }
    true
}

impl Type {
    /// Whether every variant type in this type has distinct labels.
    pub fn is_well_formed(&self) -> (r: bool)
        ensures
            r == well_formed(self@),
        decreases self,
    {
        match self {
            Type::Variant(vs) => {
                proof {
                    Type::lemma_view_variant(*vs);
                }
                variant_well_formed(vs)
            },
            Type::Product(ts) => {
                proof {
                    Type::lemma_view_product(*ts);
                }
                proof {
                    lemma_well_formed_product(type_views(ts@));
                }
                all_well_formed(ts)
            },
            Type::Arrow(a, b) => a.is_well_formed() && b.is_well_formed(),
            Type::Universal(body) => body.is_well_formed(),
            Type::Existential(body) => body.is_well_formed(),
            Type::Abstraction(_, body) => body.is_well_formed(),
            Type::Application(a, b) => a.is_well_formed() && b.is_well_formed(),
            Type::Rec(body) => body.is_well_formed(),
            _ => true,
        }
    }
}

} // verus!
