//! What an alias table gives whose definitions do not go round in a circle:
//! resolving twice is resolving once, no alias of the table reaches a type
//! that the checker works with, and the checker answers the same for a term
//! and for the term with its annotations resolved beforehand.

use vstd::prelude::*;
use crate::system_f::span::Span;
use crate::system_f::terms::{ArmView, KindView, PatternView, TermView};
use super::aliases::{
    acyclic,
    alias_free,
    lemma_resolved_times_alias_free,
    resolution_is_full,
    resolved,
    resolved_term,
};
use super::check::{
    arm_results,
    arm_stack,
    lemma_arm_results,
    lemma_no_first_failure,
    lemma_tuple_results,
    tuple_results,
    type_of,
};
use super::patterns::{
    arm_bad,
    arm_invalid,
    arm_unreachable,
    covers,
    first_bad,
    has_arm,
    is_shadow,
    pattern_error,
};
use super::patterns::field_type;
use super::shift::{raised, shift_hooks, shifted};
use super::subst::{instantiated, subst_hooks, substituted};
use super::visit::{rebuilt, walk, Hooks};
use super::{TypeView, VariantView};

verus! {

/// Where the definitions do not go round in a circle, resolving twice is
/// resolving once.
pub proof fn resolution_is_idempotent(aliases: Map<Seq<char>, TypeView>, t: TypeView)
    requires
        acyclic(aliases),
    ensures
        resolved(aliases, resolved(aliases, t)) == resolved(aliases, t),
{
    resolution_is_full(aliases, t);
    lemma_resolved_times_alias_free(aliases, aliases.dom().len(), resolved(aliases, t));
}

/// Whether two rows of arms have the same patterns at the same places, in
/// the same order.
pub open spec fn same_patterns(a: Seq<ArmView>, b: Seq<ArmView>) -> bool {
    &&& a.len() == b.len()
    &&& forall|i: int|
        0 <= i < a.len() ==> (#[trigger] a[i]).pat == (#[trigger] b[i]).pat && a[i].span
            == b[i].span
}

/// An arm is out of order by its pattern and the patterns before it, whatever
/// the bodies.
proof fn lemma_arm_bad_by_patterns(
    fields: Seq<VariantView>,
    a: Seq<ArmView>,
    b: Seq<ArmView>,
    i: int,
)
    requires
        same_patterns(a, b),
        0 <= i < a.len(),
    ensures
        arm_invalid(fields, a, i) == arm_invalid(fields, b, i),
        arm_unreachable(a, i) == arm_unreachable(b, i),
        arm_bad(fields, a, i) == arm_bad(fields, b, i),
{
    assert(a[i].pat == b[i].pat);
    if arm_unreachable(a, i) {
        let j = choose|j: int| 0 <= j < i && is_shadow(a, j, i);
        assert(a[j].pat == b[j].pat);
        assert(is_shadow(b, j, i));
    }
    if arm_unreachable(b, i) {
        let j = choose|j: int| 0 <= j < i && is_shadow(b, j, i);
        assert(a[j].pat == b[j].pat);
        assert(is_shadow(a, j, i));
    }
}

/// Some arm matches a pattern by the patterns alone.
proof fn lemma_has_arm_by_patterns(a: Seq<ArmView>, b: Seq<ArmView>, pat: PatternView)
    requires
        same_patterns(a, b),
    ensures
        has_arm(a, pat) ==> has_arm(b, pat),
{
    if has_arm(a, pat) {
        let j = choose|j: int| 0 <= j < a.len() && (#[trigger] a[j]).pat == pat;
        assert(b[j].pat == pat);
    }
}

/// The first arm out of order is the same by the patterns alone.
proof fn lemma_first_bad_by_patterns(
    fields: Seq<VariantView>,
    a: Seq<ArmView>,
    b: Seq<ArmView>,
    i: int,
)
    requires
        same_patterns(a, b),
        first_bad(fields, a, i),
    ensures
        first_bad(fields, b, i),
{
    lemma_arm_bad_by_patterns(fields, a, b, i);
    assert forall|j: int| 0 <= j < i implies !arm_bad(fields, b, j) by {
        lemma_arm_bad_by_patterns(fields, a, b, j);
    }
}

/// What is wrong with the arms of a case is decided by their patterns and
/// places alone.
pub proof fn lemma_pattern_error_by_patterns(
    fields: Seq<VariantView>,
    a: Seq<ArmView>,
    b: Seq<ArmView>,
    span: Span,
)
    requires
        same_patterns(a, b),
    ensures
        pattern_error(fields, a, span) == pattern_error(fields, b, span),
{
    assert(same_patterns(b, a));
    if exists|i: int| first_bad(fields, a, i) {
        let i = choose|i: int| first_bad(fields, a, i);
        lemma_first_bad_by_patterns(fields, a, b, i);
        let k = choose|k: int| first_bad(fields, b, k);
        if k < i {
            assert(!arm_bad(fields, b, k));
        }
        if i < k {
            assert(!arm_bad(fields, b, i));
        }
        lemma_arm_bad_by_patterns(fields, a, b, i);
        assert(a[i].span == b[i].span);
    } else {
        if exists|k: int| first_bad(fields, b, k) {
            let k = choose|k: int| first_bad(fields, b, k);
            lemma_first_bad_by_patterns(fields, b, a, k);
        }
        lemma_has_arm_by_patterns(a, b, PatternView::Any);
        lemma_has_arm_by_patterns(b, a, PatternView::Any);
        if covers(fields, a) && !has_arm(a, PatternView::Any) {
            assert forall|i: int| 0 <= i < fields.len() implies has_arm(
                b,
                PatternView::Constructor((#[trigger] fields[i]).label),
            ) by {
                lemma_has_arm_by_patterns(a, b, PatternView::Constructor(fields[i].label));
            }
        }
        if covers(fields, b) && !has_arm(b, PatternView::Any) {
            assert forall|i: int| 0 <= i < fields.len() implies has_arm(
                a,
                PatternView::Constructor((#[trigger] fields[i]).label),
            ) by {
                lemma_has_arm_by_patterns(b, a, PatternView::Constructor(fields[i].label));
            }
        }
    }
}

/// Where the definitions do not go round in a circle, the checker answers
/// the same for a term and for the term with its annotations resolved:
/// resolving beforehand changes nothing.
pub proof fn resolving_beforehand_changes_nothing(
    aliases: Map<Seq<char>, TypeView>,
    stack: Seq<TypeView>,
    term: TermView,
)
    requires
        acyclic(aliases),
    ensures
        type_of(aliases, stack, resolved_term(aliases, term)) == type_of(aliases, stack, term),
    decreases term,
{
    reveal(type_of);
    let done = resolved_term(aliases, term);
    match term.kind {
        KindView::Lit(_) => {},
        KindView::Var(_) => {},
        KindView::Fix(inner) => {
            resolving_beforehand_changes_nothing(aliases, stack, *inner);
        },
        KindView::Primitive(_) => {},
        KindView::Injection(_, payload, ty) => {
            resolution_is_idempotent(aliases, ty);
            resolving_beforehand_changes_nothing(aliases, stack, *payload);
        },
        KindView::Product(terms) => {
            let others = done.kind->Product_0;
            lemma_tuple_results(aliases, stack, terms);
            lemma_tuple_results(aliases, stack, others);
            assert forall|i: int| 0 <= i < terms.len() implies tuple_results(
                aliases,
                stack,
                others,
            )[i] == tuple_results(aliases, stack, terms)[i] by {
                resolving_beforehand_changes_nothing(aliases, stack, terms[i]);
            }
            assert(tuple_results(aliases, stack, others) =~= tuple_results(aliases, stack, terms));
        },
        KindView::Projection(inner, _) => {
            resolving_beforehand_changes_nothing(aliases, stack, *inner);
        },
        KindView::Case(scrutinee, arms) => {
            let others = done.kind->Case_1;
            resolving_beforehand_changes_nothing(aliases, stack, *scrutinee);
            match type_of(aliases, stack, *scrutinee) {
                Ok(TypeView::Variant(fields)) => {
                    assert(same_patterns(others, arms));
                    lemma_pattern_error_by_patterns(fields, others, arms, term.span);
                    lemma_arm_results(aliases, stack, fields, arms);
                    lemma_arm_results(aliases, stack, fields, others);
                    assert forall|i: int| 0 <= i < arms.len() implies arm_results(
                        aliases,
                        stack,
                        fields,
                        others,
                    )[i] == arm_results(aliases, stack, fields, arms)[i] by {
                        resolving_beforehand_changes_nothing(
                            aliases,
                            arm_stack(fields, arms[i].pat, stack),
                            arms[i].term,
                        );
                    }
                    assert(arm_results(aliases, stack, fields, others) =~= arm_results(
                        aliases,
                        stack,
                        fields,
                        arms,
                    ));
                },
                _ => {},
            }
        },
        KindView::Let(bound, body) => {
            resolving_beforehand_changes_nothing(aliases, stack, *bound);
            match type_of(aliases, stack, *bound) {
                Ok(ty) => {
                    resolving_beforehand_changes_nothing(aliases, seq![ty] + stack, *body);
                },
                _ => {},
            }
        },
        KindView::Abs(ty, body) => {
            resolution_is_idempotent(aliases, ty);
            resolving_beforehand_changes_nothing(
                aliases,
                seq![resolved(aliases, ty)] + stack,
                *body,
            );
        },
        KindView::App(fun, arg) => {
            resolving_beforehand_changes_nothing(aliases, stack, *fun);
            resolving_beforehand_changes_nothing(aliases, stack, *arg);
        },
        KindView::If(guard, csq, alt) => {
            resolving_beforehand_changes_nothing(aliases, stack, *guard);
            resolving_beforehand_changes_nothing(aliases, stack, *csq);
            resolving_beforehand_changes_nothing(aliases, stack, *alt);
        },
        KindView::TyAbs(body) => {
            resolving_beforehand_changes_nothing(aliases, raised(stack), *body);
        },
        KindView::TyApp(inner, ty) => {
            resolution_is_idempotent(aliases, ty);
            resolving_beforehand_changes_nothing(aliases, stack, *inner);
        },
        KindView::Fold(ty, inner) => {
            resolution_is_idempotent(aliases, ty);
            resolving_beforehand_changes_nothing(aliases, stack, *inner);
        },
        KindView::Unfold(ty, inner) => {
            resolution_is_idempotent(aliases, ty);
            resolving_beforehand_changes_nothing(aliases, stack, *inner);
        },
    }
}

/// Whether a traversal brings in no alias of the table: what it puts in
/// place of a variable mentions none, what it puts in place of a name that
/// the table does not know mentions none, and what it makes of a node that
/// mentions none mentions none.
pub open spec fn hooks_alias_free(aliases: Map<Seq<char>, TypeView>, hooks: Hooks) -> bool {
    &&& forall|depth: nat, idx: usize| alias_free(aliases, #[trigger] (hooks.var)(depth, idx))
    &&& forall|name: Seq<char>|
        !aliases.dom().contains(name) ==> alias_free(aliases, #[trigger] (hooks.alias)(name))
    &&& forall|node: TypeView|
        alias_free(aliases, node) ==> alias_free(aliases, #[trigger] (hooks.node)(node))
}

/// A walk that brings in no alias of the table leaves a type free of them.
pub proof fn lemma_walk_alias_free(
    aliases: Map<Seq<char>, TypeView>,
    hooks: Hooks,
    depth: nat,
    t: TypeView,
)
    requires
        alias_free(aliases, t),
        hooks_alias_free(aliases, hooks),
    ensures
        alias_free(aliases, walk(hooks, depth, t)),
    decreases t,
{
    let node = rebuilt(hooks, depth, t);
    match t {
        TypeView::Variant(vs) => {
            let ws = node->Variant_0;
            assert forall|i: int| 0 <= i < ws.len() implies alias_free(
                aliases,
                (#[trigger] ws[i]).ty,
            ) by {
                assert(alias_free(aliases, vs[i].ty));
                lemma_walk_alias_free(aliases, hooks, depth, vs[i].ty);
            }
        },
        TypeView::Product(ts) => {
            let ws = node->Product_0;
            assert forall|i: int| 0 <= i < ws.len() implies alias_free(aliases, #[trigger] ws[i]) by {
                lemma_product_alias_free(aliases, ts);
                lemma_walk_alias_free(aliases, hooks, depth, ts[i]);
            }
        },
        TypeView::Arrow(a, b) => {
            lemma_walk_alias_free(aliases, hooks, depth, *a);
            lemma_walk_alias_free(aliases, hooks, depth, *b);
        },
        TypeView::Universal(body) => {
            lemma_walk_alias_free(aliases, hooks, depth + 1, *body);
        },
        TypeView::Existential(body) => {
            lemma_walk_alias_free(aliases, hooks, depth + 1, *body);
        },
        TypeView::Abstraction(_, body) => {
            lemma_walk_alias_free(aliases, hooks, depth + 1, *body);
        },
        TypeView::Application(a, b) => {
            lemma_walk_alias_free(aliases, hooks, depth, *a);
            lemma_walk_alias_free(aliases, hooks, depth, *b);
        },
        TypeView::Rec(body) => {
            lemma_walk_alias_free(aliases, hooks, depth + 1, *body);
        },
        _ => {},
    }
    assert(alias_free(aliases, node));
}

/// A product mentions no alias of the table exactly when its components
/// mention none.
pub proof fn lemma_product_alias_free(aliases: Map<Seq<char>, TypeView>, ts: Seq<TypeView>)
    ensures
        alias_free(aliases, TypeView::Product(ts)) == (forall|i: int|
            0 <= i < ts.len() ==> alias_free(aliases, #[trigger] ts[i])),
{
    if alias_free(aliases, TypeView::Product(ts)) {
        assert forall|i: int| 0 <= i < ts.len() implies alias_free(aliases, #[trigger] ts[i]) by {
            let components = TypeView::Product(ts)->Product_0;
            assert(alias_free(aliases, components[i]));
        }
    }
}

/// A shift brings in no alias.
pub proof fn lemma_shifted_alias_free(
    aliases: Map<Seq<char>, TypeView>,
    d: int,
    cutoff: nat,
    t: TypeView,
)
    requires
        alias_free(aliases, t),
    ensures
        alias_free(aliases, shifted(d, cutoff, t)),
{
    lemma_walk_alias_free(aliases, shift_hooks(d), cutoff, t);
}

/// Instantiating a body with an argument brings in no alias that neither of
/// them mentions.
pub proof fn lemma_instantiated_alias_free(
    aliases: Map<Seq<char>, TypeView>,
    argument: TypeView,
    t: TypeView,
)
    requires
        alias_free(aliases, argument),
        alias_free(aliases, t),
    ensures
        alias_free(aliases, instantiated(argument, t)),
{
    let raised = shifted(1, 0, argument);
    lemma_shifted_alias_free(aliases, 1, 0, argument);
    let hooks = subst_hooks(raised);
    assert forall|depth: nat, idx: usize| alias_free(
        aliases,
        #[trigger] (hooks.var)(depth, idx),
    ) by {
        lemma_shifted_alias_free(aliases, depth as int, 0, raised);
    }
    lemma_walk_alias_free(aliases, hooks, 0, t);
    lemma_shifted_alias_free(aliases, -1, 0, substituted(raised, 0, t));
}

/// Whether no type in the context mentions an alias of the table.
pub open spec fn stack_alias_free(aliases: Map<Seq<char>, TypeView>, stack: Seq<TypeView>) -> bool {
    forall|i: int| 0 <= i < stack.len() ==> alias_free(aliases, #[trigger] stack[i])
}

/// The payload type of a label in a variant type that mentions no alias of
/// the table mentions none.
proof fn lemma_field_type_alias_free(
    aliases: Map<Seq<char>, TypeView>,
    fields: Seq<VariantView>,
    label: Seq<char>,
)
    requires
        forall|i: int| 0 <= i < fields.len() ==> alias_free(aliases, (#[trigger] fields[i]).ty),
    ensures
        field_type(fields, label) matches Some(ty) ==> alias_free(aliases, ty),
    decreases fields.len(),
{
    if fields.len() > 0 && fields[0].label != label {
        let rest = fields.drop_first();
        assert forall|i: int| 0 <= i < rest.len() implies alias_free(
            aliases,
            (#[trigger] rest[i]).ty,
        ) by {
            assert(rest[i] == fields[i + 1]);
        }
        lemma_field_type_alias_free(aliases, rest, label);
    }
}

/// No alias of the table reaches a type that the checker works with: where
/// the definitions do not go round in a circle and the context mentions no
/// alias of the table, the type of a term mentions none, whatever aliases the
/// term is annotated with.
pub proof fn type_of_is_alias_free(
    aliases: Map<Seq<char>, TypeView>,
    stack: Seq<TypeView>,
    term: TermView,
)
    requires
        acyclic(aliases),
        stack_alias_free(aliases, stack),
    ensures
        type_of(aliases, stack, term) matches Ok(ty) ==> alias_free(aliases, ty),
    decreases term,
{
    reveal(type_of);
    match term.kind {
        KindView::Lit(_) => {},
        KindView::Var(_) => {},
        KindView::Fix(inner) => {
            type_of_is_alias_free(aliases, stack, *inner);
        },
        KindView::Primitive(_) => {
            assert(alias_free(aliases, TypeView::Nat));
            assert(alias_free(aliases, TypeView::Bool));
        },
        KindView::Injection(_, _, ty) => {
            resolution_is_full(aliases, ty);
        },
        KindView::Product(terms) => {
            let results = tuple_results(aliases, stack, terms);
            lemma_tuple_results(aliases, stack, terms);
            if type_of(aliases, stack, term) is Ok {
                lemma_no_first_failure(results);
                let types = type_of(aliases, stack, term)->Ok_0->Product_0;
                assert forall|i: int| 0 <= i < types.len() implies alias_free(
                    aliases,
                    #[trigger] types[i],
                ) by {
                    assert(results[i] is Ok);
                    type_of_is_alias_free(aliases, stack, terms[i]);
                }
                lemma_product_alias_free(aliases, types);
            }
        },
        KindView::Projection(inner, _) => {
            type_of_is_alias_free(aliases, stack, *inner);
            match type_of(aliases, stack, *inner) {
                Ok(TypeView::Product(components)) => {
                    lemma_product_alias_free(aliases, components);
                },
                _ => {},
            }
        },
        KindView::Case(scrutinee, arms) => {
            type_of_is_alias_free(aliases, stack, *scrutinee);
            match type_of(aliases, stack, *scrutinee) {
                Ok(TypeView::Variant(fields)) => {
                    lemma_arm_results(aliases, stack, fields, arms);
                    if type_of(aliases, stack, term) is Ok {
                        match arms[0].pat {
                            PatternView::Any => {},
                            PatternView::Constructor(label) => {
                                lemma_field_type_alias_free(aliases, fields, label);
                            },
                        }
                        type_of_is_alias_free(
                            aliases,
                            arm_stack(fields, arms[0].pat, stack),
                            arms[0].term,
                        );
                    }
                },
                _ => {},
            }
        },
        KindView::Let(bound, body) => {
            type_of_is_alias_free(aliases, stack, *bound);
            match type_of(aliases, stack, *bound) {
                Ok(ty) => {
                    type_of_is_alias_free(aliases, seq![ty] + stack, *body);
                },
                _ => {},
            }
        },
        KindView::Abs(ty, body) => {
            resolution_is_full(aliases, ty);
            type_of_is_alias_free(aliases, seq![resolved(aliases, ty)] + stack, *body);
        },
        KindView::App(fun, _) => {
            type_of_is_alias_free(aliases, stack, *fun);
        },
        KindView::If(_, _, alt) => {
            type_of_is_alias_free(aliases, stack, *alt);
        },
        KindView::TyAbs(body) => {
            assert forall|i: int| 0 <= i < raised(stack).len() implies alias_free(
                aliases,
                #[trigger] raised(stack)[i],
            ) by {
                lemma_shifted_alias_free(aliases, 1, 0, stack[i]);
            }
            type_of_is_alias_free(aliases, raised(stack), *body);
        },
        KindView::TyApp(inner, ty) => {
            type_of_is_alias_free(aliases, stack, *inner);
            resolution_is_full(aliases, ty);
            match type_of(aliases, stack, *inner) {
                Ok(TypeView::Universal(body)) => {
                    lemma_instantiated_alias_free(aliases, resolved(aliases, ty), *body);
                },
                _ => {},
            }
        },
        KindView::Fold(ty, _) => {
            resolution_is_full(aliases, ty);
        },
        KindView::Unfold(ty, _) => {
            resolution_is_full(aliases, ty);
            match resolved(aliases, ty) {
                TypeView::Rec(body) => {
                    lemma_instantiated_alias_free(aliases, resolved(aliases, ty), *body);
                },
                _ => {},
            }
        },
    }
}

} // verus!
