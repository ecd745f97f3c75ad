//! The typing rules, one for each shape of term, and the checker that
//! applies them.

use vstd::prelude::*;
use vstd::pervasive::unreached;
use crate::system_f::span::Span;
use crate::system_f::terms::{
    arm_views,
    term_views,
    Arm,
    ArmView,
    Kind,
    KindView,
    Literal,
    Pattern,
    PatternView,
    Primitive,
    Term,
    TermView,
};
use super::aliases::resolved;
use super::context::Context;
use super::error::{
    failure,
    result_view,
    TypeError,
    TypeErrorKind,
    TypeErrorKindView,
    TypeErrorView,
};
use super::patterns::{
    check_patterns,
    declares,
    each_label_once_covers,
    field_type,
    has_arm,
    lemma_field_type_declared,
    pattern_error,
    variant_field,
};
use super::shift::raised;
use super::subst::instantiated;
use super::{subst, type_views, variant_views, Type, TypeView, Variant, VariantView};

verus! {

/// The answer of the checker, in the model.
pub type Checked = Result<TypeView, TypeErrorView>;

/// Whether `i` is the first place where `results` holds a failure.
pub open spec fn is_first_failure(results: Seq<Checked>, i: int) -> bool {
    &&& 0 <= i < results.len()
    &&& results[i] is Err
    &&& forall|j: int| 0 <= j < i ==> (#[trigger] results[j]) is Ok
}

/// The first failure among `results`, if there is one.
pub open spec fn first_failure(results: Seq<Checked>) -> Option<TypeErrorView> {
    if exists|i: int| is_first_failure(results, i) {
        Some(results[choose|i: int| is_first_failure(results, i)]->Err_0)
    } else {
        None
    }
}

/// The types that `results` hold, where none is a failure.
pub open spec fn successes(results: Seq<Checked>) -> Seq<TypeView> {
    Seq::new(results.len(), |i: int| results[i]->Ok_0)
}

/// The answers that hold the types `types`, none of them a failure.
pub open spec fn all_ok(types: Seq<TypeView>) -> Seq<Checked> {
    Seq::new(types.len(), |i: int| Ok(types[i]))
}

/// Answers without a failure hold their types, and no first failure.
pub proof fn lemma_all_ok(types: Seq<TypeView>)
    ensures
        first_failure(all_ok(types)) is None,
        successes(all_ok(types)) == types,
{
    assert(successes(all_ok(types)) =~= types);
}

/// There is one first failure at most.
pub proof fn lemma_first_failure_at(results: Seq<Checked>, i: int)
    requires
        is_first_failure(results, i),
    ensures
        first_failure(results) == Some(results[i]->Err_0),
{
    let c = choose|c: int| is_first_failure(results, c);
    assert(results[c] is Err);
    assert(results[i] is Err);
    if c < i {
        assert(results[c] is Ok);
    }
    if i < c {
        assert(results[i] is Ok);
    }
}

/// Where something fails, something fails first.
pub proof fn lemma_failure_has_first(results: Seq<Checked>, i: int)
    requires
        0 <= i < results.len(),
        results[i] is Err,
    ensures
        exists|j: int| is_first_failure(results, j),
    decreases i,
{
    if exists|j: int| 0 <= j < i && (#[trigger] results[j]) is Err {
        let j = choose|j: int| 0 <= j < i && (#[trigger] results[j]) is Err;
        lemma_failure_has_first(results, j);
    } else {
        assert(is_first_failure(results, i));
    }
}

/// Where there is no first failure, nothing fails.
pub proof fn lemma_no_first_failure(results: Seq<Checked>)
    requires
        first_failure(results) is None,
    ensures
        forall|i: int| 0 <= i < results.len() ==> (#[trigger] results[i]) is Ok,
{
    assert forall|i: int| 0 <= i < results.len() implies (#[trigger] results[i]) is Ok by {
        if results[i] is Err {
            lemma_failure_has_first(results, i);
        }
    }
}

/// The type of a constant.
pub open spec fn literal_type(lit: Literal) -> TypeView {
    match lit {
        Literal::Unit => TypeView::Unit,
        Literal::Bool(_) => TypeView::Bool,
        Literal::Nat(_) => TypeView::Nat,
    }
}

/// The type of a built-in operator: a test for zero takes a natural to a
/// boolean, the others take a natural to a natural.
pub open spec fn primitive_type(prim: Primitive) -> TypeView {
    match prim {
        Primitive::IsZero => TypeView::Arrow(Box::new(TypeView::Nat), Box::new(TypeView::Bool)),
        _ => TypeView::Arrow(Box::new(TypeView::Nat), Box::new(TypeView::Nat)),
    }
}

/// A variable has the type that the context holds for it.
pub open spec fn rule_var(stack: Seq<TypeView>, idx: usize, span: Span) -> Checked {
    if idx < stack.len() {
        Ok(stack[idx as int])
    } else {
        failure(span, TypeErrorKindView::UnboundVariable(idx))
    }
}

/// An abstraction is a function from its parameter type to the type of its
/// body.
pub open spec fn rule_abs(param: TypeView, body: Checked) -> Checked {
    match body {
        Ok(result) => Ok(TypeView::Arrow(Box::new(param), Box::new(result))),
        Err(e) => Err(e),
    }
}

/// An application has the result type of its function, whose parameter type
/// must be the type of the argument. A mismatch is reported at the function,
/// with the place of the argument; something that is no function, at the
/// application.
pub open spec fn rule_app(
    fun: Checked,
    arg: Checked,
    span: Span,
    fun_span: Span,
    arg_span: Span,
) -> Checked {
    match fun {
        Ok(fun_ty) => match arg {
            Ok(arg_ty) => match fun_ty {
                TypeView::Arrow(dom, cod) => if *dom == arg_ty {
                    Ok(*cod)
                } else {
                    failure(
                        fun_span,
                        TypeErrorKindView::ParameterMismatch(*dom, arg_ty, arg_span),
                    )
                },
                _ => failure(span, TypeErrorKindView::NotArrow),
            },
            Err(e) => Err(e),
        },
        Err(e) => Err(e),
    }
}

/// A fixpoint is taken of a function from a type to itself, and has that
/// type.
pub open spec fn rule_fix(inner: Checked, span: Span, inner_span: Span) -> Checked {
    match inner {
        Ok(TypeView::Arrow(dom, cod)) => if *dom == *cod {
            Ok(*dom)
        } else {
            failure(span, TypeErrorKindView::ParameterMismatch(*dom, *cod, inner_span))
        },
        Ok(_) => failure(span, TypeErrorKindView::NotArrow),
        Err(e) => Err(e),
    }
}

/// An injection has its declared type, which must be a variant type with the
/// label, and the payload must have the type declared for that label. The
/// payload is looked at only where the label is declared.
pub open spec fn rule_injection(
    declared: TypeView,
    label: Seq<char>,
    payload: Checked,
    span: Span,
    payload_span: Span,
) -> Checked {
    match declared {
        TypeView::Variant(fields) => match field_type(fields, label) {
            Some(expected) => match payload {
                Ok(actual) => if actual == expected {
                    Ok(declared)
                } else {
                    failure(
                        span,
                        TypeErrorKindView::ParameterMismatch(expected, actual, payload_span),
                    )
                },
                Err(e) => Err(e),
            },
            None => failure(span, TypeErrorKindView::NotVariant),
        },
        _ => failure(span, TypeErrorKindView::NotVariant),
    }
}

/// A projection has the type of the component it names, which the product
/// must have.
pub open spec fn rule_projection(inner: Checked, idx: usize, inner_span: Span) -> Checked {
    match inner {
        Ok(TypeView::Product(components)) => if idx < components.len() {
            Ok(components[idx as int])
        } else {
            failure(inner_span, TypeErrorKindView::InvalidProjection)
        },
        Ok(_) => failure(inner_span, TypeErrorKindView::NotProduct),
        Err(e) => Err(e),
    }
}

/// A tuple has the product of its components' types, in order; the first
/// component that fails decides.
pub open spec fn rule_tuple(results: Seq<Checked>) -> Checked {
    match first_failure(results) {
        Some(e) => Err(e),
        None => Ok(TypeView::Product(successes(results))),
    }
}

/// A conditional has the type of its branches, which must agree; its
/// condition must be a boolean. The branches are looked at only then.
pub open spec fn rule_if(guard: Checked, csq: Checked, alt: Checked, span: Span) -> Checked {
    match guard {
        Ok(TypeView::Bool) => match csq {
            Ok(first) => match alt {
                Ok(second) => if first == second {
                    Ok(second)
                } else {
                    failure(span, TypeErrorKindView::IncompatibleArms)
                },
                Err(e) => Err(e),
            },
            Err(e) => Err(e),
        },
        Ok(_) => failure(span, TypeErrorKindView::Guard),
        Err(e) => Err(e),
    }
}

/// A type abstraction has the universal type over the type of its body. The
/// body stands under the type binder: it is checked in the context of the
/// abstraction with every type raised by one. A type binder opens no slot in
/// the context.
pub open spec fn rule_tyabs(body: Checked) -> Checked {
    match body {
        Ok(ty) => Ok(TypeView::Universal(Box::new(ty))),
        Err(e) => Err(e),
    }
}

/// A type application instantiates the body of a universal type with the
/// argument.
pub open spec fn rule_tyapp(inner: Checked, argument: TypeView, inner_span: Span) -> Checked {
    match inner {
        Ok(TypeView::Universal(body)) => Ok(instantiated(argument, *body)),
        Ok(_) => failure(inner_span, TypeErrorKindView::NotUniversal),
        Err(e) => Err(e),
    }
}

/// One unrolling of a recursive type: its body with the type itself for the
/// bound variable. Nothing for any other type.
pub open spec fn unrolled(rec: TypeView) -> Option<TypeView> {
    match rec {
        TypeView::Rec(body) => Some(instantiated(rec, *body)),
        _ => None,
    }
}

/// An unfolding has the unrolled type of its witness, which must be
/// recursive. The term that is unfolded is looked at only then, and a
/// failure in it is handed on.
pub open spec fn rule_unfold(witness: TypeView, inner: Checked, span: Span) -> Checked {
    match unrolled(witness) {
        Some(ty) => match inner {
            Ok(_) => Ok(ty),
            Err(e) => Err(e),
        },
        None => failure(span, TypeErrorKindView::NotRec),
    }
}

/// A folding has the type of its witness, which must be recursive, and whose
/// unrolling must be the type of the payload. The payload is looked at only
/// where the witness is recursive.
pub open spec fn rule_fold(
    witness: TypeView,
    payload: Checked,
    span: Span,
    payload_span: Span,
) -> Checked {
    match unrolled(witness) {
        Some(expected) => match payload {
            Ok(actual) => if actual == expected {
                Ok(witness)
            } else {
                failure(
                    span,
                    TypeErrorKindView::ParameterMismatch(expected, actual, payload_span),
                )
            },
            Err(e) => Err(e),
        },
        None => failure(span, TypeErrorKindView::NotRec),
    }
}

/// The context in which the body of an arm is checked: an arm for a label
/// binds the payload of that alternative, an arm for anything binds nothing.
pub open spec fn arm_stack(fields: Seq<VariantView>, pat: PatternView, stack: Seq<TypeView>) -> Seq<
    TypeView,
> {
    match pat {
        PatternView::Any => stack,
        PatternView::Constructor(label) => match field_type(fields, label) {
            Some(payload) => seq![payload] + stack,
            None => stack,
        },
    }
}

/// A case has the type of its arms, which must all agree; the first arm that
/// fails decides. A case without arms has no type.
pub open spec fn rule_arms(results: Seq<Checked>, span: Span) -> Checked {
    match first_failure(results) {
        Some(e) => Err(e),
        None => if results.len() > 0 && (forall|i: int|
            0 <= i < results.len() ==> #[trigger] results[i] == results[0]) {
            results[0]
        } else {
            failure(span, TypeErrorKindView::IncompatibleArms)
        },
    }
}

/// The type of `term` in the context `stack`, with the alias table `aliases`,
/// or the first failure met.
///
/// Every type that the term is annotated with is resolved against the alias
/// table before it is used. Types are compared structurally. Subterms are
/// checked from left to right, and the first failure ends the check.
#[verifier::opaque]
pub open spec fn type_of(aliases: Map<Seq<char>, TypeView>, stack: Seq<TypeView>, term: TermView) -> Checked
    decreases term,
{
    match term.kind {
        KindView::Lit(lit) => Ok(literal_type(lit)),
        KindView::Var(idx) => rule_var(stack, idx, term.span),
        KindView::Abs(ty, body) => rule_abs(
            resolved(aliases, ty),
            type_of(aliases, seq![resolved(aliases, ty)] + stack, *body),
        ),
        KindView::App(fun, arg) => rule_app(
            type_of(aliases, stack, *fun),
            type_of(aliases, stack, *arg),
            term.span,
            fun.span,
            arg.span,
        ),
        KindView::Fix(inner) => rule_fix(type_of(aliases, stack, *inner), term.span, inner.span),
        KindView::Primitive(prim) => Ok(primitive_type(prim)),
        KindView::Injection(label, payload, ty) => rule_injection(
            resolved(aliases, ty),
            label,
            type_of(aliases, stack, *payload),
            term.span,
            payload.span,
        ),
        KindView::Projection(inner, idx) => rule_projection(
            type_of(aliases, stack, *inner),
            idx,
            inner.span,
        ),
        KindView::Product(terms) => rule_tuple(tuple_results(aliases, stack, terms)),
        KindView::Let(bound, body) => match type_of(aliases, stack, *bound) {
            Ok(ty) => type_of(aliases, seq![ty] + stack, *body),
            Err(e) => Err(e),
        },
        KindView::If(guard, csq, alt) => rule_if(
            type_of(aliases, stack, *guard),
            type_of(aliases, stack, *csq),
            type_of(aliases, stack, *alt),
            term.span,
        ),
        KindView::TyAbs(body) => rule_tyabs(type_of(aliases, raised(stack), *body)),
        KindView::TyApp(inner, ty) => rule_tyapp(
            type_of(aliases, stack, *inner),
            resolved(aliases, ty),
            inner.span,
        ),
        KindView::Unfold(ty, inner) => rule_unfold(
            resolved(aliases, ty),
            type_of(aliases, stack, *inner),
            term.span,
        ),
        KindView::Fold(ty, payload) => rule_fold(
            resolved(aliases, ty),
            type_of(aliases, stack, *payload),
            term.span,
            payload.span,
        ),
        KindView::Case(scrutinee, arms) => match type_of(aliases, stack, *scrutinee) {
            Ok(TypeView::Variant(fields)) => match pattern_error(fields, arms, term.span) {
                Some(e) => Err(e),
                None => rule_arms(arm_results(aliases, stack, fields, arms), term.span),
            },
            Ok(_) => failure(term.span, TypeErrorKindView::NotVariant),
            Err(e) => Err(e),
        },
    }
}

/// The answers for the components of a tuple, in order: each is checked in
/// the context of the tuple.
pub open spec fn tuple_results(
    aliases: Map<Seq<char>, TypeView>,
    stack: Seq<TypeView>,
    terms: Seq<TermView>,
) -> Seq<Checked>
    decreases terms,
{
    if terms.len() == 0 {
        Seq::empty()
    } else {
        tuple_results(aliases, stack, terms.drop_last()).push(
            type_of(aliases, stack, terms.last()),
        )
    }
}

/// The answers for the bodies of the arms of a case over the alternatives
/// `fields`, in order: each is checked in the context of the case, with what
/// the arm binds.
pub open spec fn arm_results(
    aliases: Map<Seq<char>, TypeView>,
    stack: Seq<TypeView>,
    fields: Seq<VariantView>,
    arms: Seq<ArmView>,
) -> Seq<Checked>
    decreases arms,
{
    if arms.len() == 0 {
        Seq::empty()
    } else {
        arm_results(aliases, stack, fields, arms.drop_last()).push(
            type_of(aliases, arm_stack(fields, arms.last().pat, stack), arms.last().term),
        )
    }
}

/// There is one answer for each component of a tuple: the type of that
/// component.
pub proof fn lemma_tuple_results(
    aliases: Map<Seq<char>, TypeView>,
    stack: Seq<TypeView>,
    terms: Seq<TermView>,
)
    ensures
        tuple_results(aliases, stack, terms).len() == terms.len(),
        forall|i: int|
            0 <= i < terms.len() ==> #[trigger] tuple_results(aliases, stack, terms)[i] == type_of(
                aliases,
                stack,
                terms[i],
            ),
    decreases terms.len(),
{
    reveal(type_of);
    if terms.len() > 0 {
        lemma_tuple_results(aliases, stack, terms.drop_last());
    }
}

/// There is one answer for each arm of a case: the type of its body, with
/// what the arm binds in scope.
pub proof fn lemma_arm_results(
    aliases: Map<Seq<char>, TypeView>,
    stack: Seq<TypeView>,
    fields: Seq<VariantView>,
    arms: Seq<ArmView>,
)
    ensures
        arm_results(aliases, stack, fields, arms).len() == arms.len(),
        forall|i: int|
            0 <= i < arms.len() ==> #[trigger] arm_results(aliases, stack, fields, arms)[i]
                == type_of(aliases, arm_stack(fields, arms[i].pat, stack), arms[i].term),
    decreases arms.len(),
{
    reveal(type_of);
    if arms.len() > 0 {
        lemma_arm_results(aliases, stack, fields, arms.drop_last());
    }
}

/// A folding has the type of its witness exactly when its payload has the
/// type that the witness unrolls to.
pub proof fn fold_checks_exactly_on_unrolling(
    aliases: Map<Seq<char>, TypeView>,
    stack: Seq<TypeView>,
    span: Span,
    witness: TypeView,
    payload: TermView,
)
    ensures
        type_of(
            aliases,
            stack,
            TermView { span, kind: KindView::Fold(witness, Box::new(payload)) },
        ) == Ok::<TypeView, TypeErrorView>(resolved(aliases, witness)) <==> {
            &&& unrolled(resolved(aliases, witness)) is Some
            &&& type_of(aliases, stack, payload) == Ok::<TypeView, TypeErrorView>(
                unrolled(resolved(aliases, witness))->Some_0,
            )
        },
{
    reveal(type_of);
}

/// Unfolding what was just folded gives back the type of the payload: where
/// a folding checks, the unfolding of it with the same witness has the type
/// that the witness unrolls to, which is the type of the payload.
pub proof fn unfold_of_fold_round_trips(
    aliases: Map<Seq<char>, TypeView>,
    stack: Seq<TypeView>,
    outer: Span,
    inner: Span,
    witness: TypeView,
    payload: TermView,
)
    requires
        type_of(
            aliases,
            stack,
            TermView { span: inner, kind: KindView::Fold(witness, Box::new(payload)) },
        ) is Ok,
    ensures
        unrolled(resolved(aliases, witness)) is Some,
        type_of(
            aliases,
            stack,
            TermView {
                span: outer,
                kind: KindView::Unfold(
                    witness,
                    Box::new(
                        TermView { span: inner, kind: KindView::Fold(witness, Box::new(payload)) },
                    ),
                ),
            },
        ) == Ok::<TypeView, TypeErrorView>(unrolled(resolved(aliases, witness))->Some_0),
        type_of(
            aliases,
            stack,
            TermView {
                span: outer,
                kind: KindView::Unfold(
                    witness,
                    Box::new(
                        TermView { span: inner, kind: KindView::Fold(witness, Box::new(payload)) },
                    ),
                ),
            },
        ) == type_of(aliases, stack, payload),
{
    reveal(type_of);
}

/// A case whose arms name each label of the scrutinee's type once, in
/// whatever order, and whose bodies all have the type `ty` with the payload of
/// their label in scope, has the type `ty`.
pub proof fn case_over_each_label_once_checks(
    aliases: Map<Seq<char>, TypeView>,
    stack: Seq<TypeView>,
    span: Span,
    scrutinee: TermView,
    arms: Seq<ArmView>,
    fields: Seq<VariantView>,
    ty: TypeView,
)
    requires
        type_of(aliases, stack, scrutinee) == Ok::<TypeView, TypeErrorView>(
            TypeView::Variant(fields),
        ),
        arms.len() > 0,
        forall|i: int|
            0 <= i < arms.len() ==> (#[trigger] arms[i]).pat is Constructor && declares(
                fields,
                arms[i].pat->Constructor_0,
            ),
        forall|i: int, j: int|
            0 <= j < i < arms.len() ==> (#[trigger] arms[j]).pat != (#[trigger] arms[i]).pat,
        forall|k: int|
            0 <= k < fields.len() ==> has_arm(
                arms,
                PatternView::Constructor((#[trigger] fields[k]).label),
            ),
        forall|i: int|
            0 <= i < arms.len() ==> type_of(
                aliases,
                seq![field_type(fields, (#[trigger] arms[i]).pat->Constructor_0)->Some_0] + stack,
                arms[i].term,
            ) == Ok::<TypeView, TypeErrorView>(ty),
    ensures
        type_of(
            aliases,
            stack,
            TermView { span, kind: KindView::Case(Box::new(scrutinee), arms) },
        ) == Ok::<TypeView, TypeErrorView>(ty),
{
    reveal(type_of);
    each_label_once_covers(fields, arms, span);
    let results = arm_results(aliases, stack, fields, arms);
    lemma_arm_results(aliases, stack, fields, arms);
    assert forall|i: int| 0 <= i < arms.len() implies #[trigger] results[i] == Ok::<
        TypeView,
        TypeErrorView,
    >(ty) by {
        lemma_field_type_declared(fields, arms[i].pat->Constructor_0);
    }
    assert(results =~= all_ok(Seq::new(arms.len(), |i: int| ty)));
    lemma_all_ok(Seq::new(arms.len(), |i: int| ty));
}

/// The type of the built-in operator `prim`.
pub fn type_of_primitive(prim: Primitive) -> (r: Type)
    ensures
        r@ == primitive_type(prim),
{
    proof {
        reveal_with_fuel(Type::view, 2);
    }
    match prim {
        Primitive::IsZero => Type::Arrow(Box::new(Type::Nat), Box::new(Type::Bool)),
        _ => Type::Arrow(Box::new(Type::Nat), Box::new(Type::Nat)),
    }
}

/// Applies a function of type `fun` to an argument of type `arg`.
pub fn check_app(fun: Type, arg: Type, span: Span, fun_span: Span, arg_span: Span) -> (r: Result<
    Type,
    TypeError,
>)
    ensures
        result_view(r) == rule_app(Ok(fun@), Ok(arg@), span, fun_span, arg_span),
{
    match fun {
        Type::Arrow(dom, cod) => {
            if dom.same(&arg) {
                Ok(*cod)
            } else {
                Err(
                    TypeError {
                        span: fun_span,
                        kind: TypeErrorKind::ParameterMismatch(dom, Box::new(arg), arg_span),
                    },
                )
            }
        },
        _ => Err(TypeError { span, kind: TypeErrorKind::NotArrow }),
    }
}

/// Takes the fixpoint of a function of type `inner`.
pub fn check_fix(inner: Type, span: Span, inner_span: Span) -> (r: Result<Type, TypeError>)
    ensures
        result_view(r) == rule_fix(Ok(inner@), span, inner_span),
{
    match inner {
        Type::Arrow(dom, cod) => {
            if dom.same(&cod) {
                Ok(*dom)
            } else {
                Err(
                    TypeError {
                        span,
                        kind: TypeErrorKind::ParameterMismatch(dom, cod, inner_span),
                    },
                )
            }
        },
        _ => Err(TypeError { span, kind: TypeErrorKind::NotArrow }),
    }
}

/// Takes component `idx` of a product of type `inner`.
pub fn check_projection(inner: Type, idx: usize, inner_span: Span) -> (r: Result<Type, TypeError>)
    ensures
        result_view(r) == rule_projection(Ok(inner@), idx, inner_span),
{
    match inner {
        Type::Product(components) => {
            proof {
                Type::lemma_view_product(components);
            }
            if idx < components.len() {
                Ok(components[idx].duplicate())
            } else {
                Err(TypeError { span: inner_span, kind: TypeErrorKind::InvalidProjection })
            }
        },
        _ => Err(TypeError { span: inner_span, kind: TypeErrorKind::NotProduct }),
    }
}

/// Applies something of type `inner` to the type `argument`.
pub fn check_tyapp(inner: Type, argument: Type, inner_span: Span) -> (r: Result<Type, TypeError>)
    ensures
        result_view(r) == rule_tyapp(Ok(inner@), argument@, inner_span),
{
    match inner {
        Type::Universal(body) => Ok(subst(argument, *body)),
        _ => Err(TypeError { span: inner_span, kind: TypeErrorKind::NotUniversal }),
    }
}

/// Unrolls the recursive type `rec` once; there is nothing to unroll in any
/// other type.
pub fn unroll(rec: &Type) -> (r: Option<Type>)
    ensures
        match unrolled(rec@) {
            Some(ty) => r.is_some() && r.unwrap()@ == ty,
            None => r.is_none(),
        },
{
    match rec {
        Type::Rec(body) => Some(subst(rec.duplicate(), body.duplicate())),
        _ => None,
    }
}

/// Compares the type `actual` of a payload with the type `expected` of it,
/// and gives `whole` where they agree.
pub fn check_payload(
    whole: Type,
    expected: Type,
    actual: Type,
    span: Span,
    payload_span: Span,
) -> (r: Result<Type, TypeError>)
    ensures
        result_view(r) == (if actual@ == expected@ {
            Ok(whole@)
        } else {
            failure(span, TypeErrorKindView::ParameterMismatch(expected@, actual@, payload_span))
        }),
{
    if actual.same(&expected) {
        Ok(whole)
    } else {
        Err(
            TypeError {
                span,
                kind: TypeErrorKind::ParameterMismatch(
                    Box::new(expected),
                    Box::new(actual),
                    payload_span,
                ),
            },
        )
    }
}

/// Decides on the branches of a conditional, of types `csq` and `alt`.
pub fn check_branches(csq: Type, alt: Type, span: Span) -> (r: Result<Type, TypeError>)
    ensures
        result_view(r) == rule_if(Ok(TypeView::Bool), Ok(csq@), Ok(alt@), span),
{
    if csq.same(&alt) {
        Ok(alt)
    } else {
        Err(TypeError { span, kind: TypeErrorKind::IncompatibleArms })
    }
}

/// Decides on the arms of a case, of types `types` in order.
pub fn check_arm_types(types: &Vec<Type>, span: Span) -> (r: Result<Type, TypeError>)
    ensures
        result_view(r) == rule_arms(all_ok(type_views(types@)), span),
{
    let ghost results = all_ok(type_views(types@));
    proof {
        lemma_all_ok(type_views(types@));
    }
    if types.len() == 0 {
        return Err(TypeError { span, kind: TypeErrorKind::IncompatibleArms });
    }
    let mut i: usize = 1;
    while i < types.len()
        invariant
            1 <= i <= types.len(),
            results == all_ok(type_views(types@)),
            forall|j: int| 0 <= j < i ==> #[trigger] results[j] == results[0],
        decreases types.len() - i,
    {
        if !types[i].same(&types[0]) {
            assert(results[i as int] != results[0]);
            return Err(TypeError { span, kind: TypeErrorKind::IncompatibleArms });
        }
        i += 1;
    }
    Ok(types[0].duplicate())
}

impl Context {
    /// The failure of kind `kind` at the place of `term`.
    pub fn error(term: &Term, kind: TypeErrorKind) -> (r: Result<Type, TypeError>)
        ensures
            r is Err,
            r->Err_0.span == term.span,
            r->Err_0.kind == kind,
    {
        Err(TypeError { span: term.span, kind })
    }

    /// Checks the components of a tuple from left to right, up to the first
    /// that fails.
    fn check_all(&mut self, terms: &Vec<Term>) -> (r: Result<Vec<Type>, TypeError>)
        ensures
            final(self).stack() == old(self).stack(),
            final(self).aliases() == old(self).aliases(),
            match r {
                Ok(types) => tuple_results(
                    old(self).aliases(),
                    old(self).stack(),
                    term_views(terms@),
                ) == all_ok(type_views(types@)),
                Err(e) => first_failure(
                    tuple_results(old(self).aliases(), old(self).stack(), term_views(terms@)),
                ) == Some(e@),
            },
        decreases terms, 0nat,
    {
        let ghost stack = self.stack();
        let ghost aliases = self.aliases();
        let ghost results = tuple_results(aliases, stack, term_views(terms@));
        proof {
            lemma_tuple_results(aliases, stack, term_views(terms@));
        }
        let mut out: Vec<Type> = Vec::new();
        let mut i: usize = 0;
        while i < terms.len()
            invariant
                i <= terms.len(),
                out.len() == i,
                self.stack() == stack,
                self.aliases() == aliases,
                stack == old(self).stack(),
                aliases == old(self).aliases(),
                results == tuple_results(aliases, stack, term_views(terms@)),
                results.len() == terms.len(),
                forall|j: int|
                    0 <= j < terms.len() ==> #[trigger] results[j] == type_of(
                        aliases,
                        stack,
                        terms@[j]@,
                    ),
                forall|j: int|
                    0 <= j < i ==> #[trigger] results[j] == Ok::<TypeView, TypeErrorView>(
                        out@[j]@,
                    ),
            decreases terms.len() - i,
        {
            match self.type_check(&terms[i]) {
                Ok(ty) => {
                    out.push(ty);
                },
                Err(e) => {
                    proof {
                        assert(results[i as int] == Err::<TypeView, TypeErrorView>(e@));
                        assert(is_first_failure(results, i as int));
                        lemma_first_failure_at(results, i as int);
                    }
                    return Err(e);
                },
            }
            i += 1;
        }
        proof {
            assert(results =~= all_ok(type_views(out@)));
        }
        Ok(out)
    }

    /// Checks the bodies of the arms of a case over the alternatives
    /// `fields` from first to last, up to the first that fails. The payload
    /// that an arm binds is in scope for its body and for nothing else.
    fn check_arms(&mut self, fields: &Vec<Variant>, arms: &Vec<Arm>) -> (r: Result<
        Vec<Type>,
        TypeError,
    >)
        ensures
            final(self).stack() == old(self).stack(),
            final(self).aliases() == old(self).aliases(),
            match r {
                Ok(types) => arm_results(
                    old(self).aliases(),
                    old(self).stack(),
                    variant_views(fields@),
                    arm_views(arms@),
                ) == all_ok(type_views(types@)),
                Err(e) => first_failure(
                    arm_results(
                        old(self).aliases(),
                        old(self).stack(),
                        variant_views(fields@),
                        arm_views(arms@),
                    ),
                ) == Some(e@),
            },
        decreases arms, 0nat,
    {
        let ghost stack = self.stack();
        let ghost aliases = self.aliases();
        let ghost results = arm_results(aliases, stack, variant_views(fields@), arm_views(arms@));
        proof {
            lemma_arm_results(aliases, stack, variant_views(fields@), arm_views(arms@));
        }
        let mut out: Vec<Type> = Vec::new();
        let mut i: usize = 0;
        while i < arms.len()
            invariant
                i <= arms.len(),
                out.len() == i,
                self.stack() == stack,
                self.aliases() == aliases,
                stack == old(self).stack(),
                aliases == old(self).aliases(),
                results == arm_results(aliases, stack, variant_views(fields@), arm_views(arms@)),
                results.len() == arms.len(),
                forall|j: int|
                    0 <= j < arms.len() ==> #[trigger] results[j] == type_of(
                        aliases,
                        arm_stack(variant_views(fields@), arms@[j].pat@, stack),
                        arms@[j].term@,
                    ),
                forall|j: int|
                    0 <= j < i ==> #[trigger] results[j] == Ok::<TypeView, TypeErrorView>(
                        out@[j]@,
                    ),
            decreases arms.len() - i,
        {
            let arm = &arms[i];
            let bound = match &arm.pat {
                Pattern::Any => None,
                Pattern::Constructor(label) => match variant_field(
                    fields.as_slice(),
                    label,
                    arm.span,
                ) {
                    Ok(payload) => Some(payload.duplicate()),
                    Err(_) => None,
                },
            };
            let checked = match bound {
                Some(payload) => {
                    self.push(payload);
                    let checked = self.type_check(&arm.term);
                    self.pop();
                    assert(self.stack() =~= stack);
                    checked
                },
                None => self.type_check(&arm.term),
            };
            match checked {
                Ok(ty) => {
                    out.push(ty);
                },
                Err(e) => {
                    proof {
                        assert(results[i as int] == Err::<TypeView, TypeErrorView>(e@));
                        assert(is_first_failure(results, i as int));
                        lemma_first_failure_at(results, i as int);
                    }
                    return Err(e);
                },
            }
            i += 1;
        }
        proof {
            assert(results =~= all_ok(type_views(out@)));
        }
        Ok(out)
    }

    /// Checks `term` in this context: returns its type, or the first failure
    /// met. The context is left as it was found, on success and on failure:
    /// every binder opened on the way has been closed again.
    pub fn type_check(&mut self, term: &Term) -> (r: Result<Type, TypeError>)
        ensures
            result_view(r) == type_of(old(self).aliases(), old(self).stack(), term@),
            final(self).stack() == old(self).stack(),
            final(self).aliases() == old(self).aliases(),
        decreases term, 1nat,
    {
        let ghost stack = self.stack();
        let ghost aliases = self.aliases();
        match &term.kind {
            Kind::Lit(lit) => {
                proof {
                    assert(type_of(aliases, stack, term@) == Ok::<TypeView, TypeErrorView>(
                        literal_type(*lit),
                    )) by {
                        reveal(type_of);
                    }
                }
                match lit {
                    Literal::Unit => Ok(Type::Unit),
                    Literal::Bool(_) => Ok(Type::Bool),
                    Literal::Nat(_) => Ok(Type::Nat),
                }
            },
            Kind::Var(idx) => {
                proof {
                    assert(type_of(aliases, stack, term@) == rule_var(stack, *idx, term.span)) by {
                        reveal(type_of);
                    }
                }
                match self.find(*idx) {
                    Some(ty) => Ok(ty.duplicate()),
                    None => Context::error(term, TypeErrorKind::UnboundVariable(*idx)),
                }
            },
            Kind::Abs(ty, body) => {
                let param = self.resolve(ty);
                self.push(param.duplicate());
                let result = self.type_check(body);
                self.pop();
                proof {
                    assert(self.stack() =~= stack);
                    assert(type_of(aliases, stack, term@) == rule_abs(
                        param@,
                        type_of(aliases, seq![param@] + stack, body@),
                    )) by {
                        reveal(type_of);
                    }
                }
                match result {
                    Ok(result) => Ok(Type::Arrow(Box::new(param), Box::new(result))),
                    Err(e) => Err(e),
                }
            },
            Kind::App(fun, arg) => {
                proof {
                    assert(type_of(aliases, stack, term@) == rule_app(
                        type_of(aliases, stack, fun@),
                        type_of(aliases, stack, arg@),
                        term.span,
                        fun.span,
                        arg.span,
                    )) by {
                        reveal(type_of);
                    }
                }
                let fun_ty = match self.type_check(fun) {
                    Ok(ty) => ty,
                    Err(e) => {
                        return Err(e);
                    },
                };
                let arg_ty = match self.type_check(arg) {
                    Ok(ty) => ty,
                    Err(e) => {
                        return Err(e);
                    },
                };
                check_app(fun_ty, arg_ty, term.span, fun.span, arg.span)
            },
            Kind::Fix(inner) => {
                proof {
                    assert(type_of(aliases, stack, term@) == rule_fix(
                        type_of(aliases, stack, inner@),
                        term.span,
                        inner.span,
                    )) by {
                        reveal(type_of);
                    }
                }
                match self.type_check(inner) {
                    Ok(ty) => check_fix(ty, term.span, inner.span),
                    Err(e) => Err(e),
                }
            },
            Kind::Primitive(prim) => {
                proof {
                    assert(type_of(aliases, stack, term@) == Ok::<TypeView, TypeErrorView>(
                        primitive_type(*prim),
                    )) by {
                        reveal(type_of);
                    }
                }
                Ok(type_of_primitive(*prim))
            },
            Kind::Let(bound, body) => {
                proof {
                    assert(type_of(aliases, stack, term@) == (match type_of(
                        aliases,
                        stack,
                        bound@,
                    ) {
                        Ok(ty) => type_of(aliases, seq![ty] + stack, body@),
                        Err(e) => Err(e),
                    })) by {
                        reveal(type_of);
                    }
                }
                match self.type_check(bound) {
                    Ok(ty) => {
                        self.push(ty);
                        let result = self.type_check(body);
                        self.pop();
                        assert(self.stack() =~= stack);
                        result
                    },
                    Err(e) => Err(e),
                }
            },
            Kind::If(guard, csq, alt) => {
                proof {
                    assert(type_of(aliases, stack, term@) == rule_if(
                        type_of(aliases, stack, guard@),
                        type_of(aliases, stack, csq@),
                        type_of(aliases, stack, alt@),
                        term.span,
                    )) by {
                        reveal(type_of);
                    }
                }
                let guard_ty = match self.type_check(guard) {
                    Ok(ty) => ty,
                    Err(e) => {
                        return Err(e);
                    },
                };
                if !matches!(guard_ty, Type::Bool) {
                    return Context::error(term, TypeErrorKind::Guard);
                }
                let first = match self.type_check(csq) {
                    Ok(ty) => ty,
                    Err(e) => {
                        return Err(e);
                    },
                };
                let second = match self.type_check(alt) {
                    Ok(ty) => ty,
                    Err(e) => {
                        return Err(e);
                    },
                };
                check_branches(first, second, term.span)
            },
            Kind::TyAbs(body) => {
                proof {
                    assert(type_of(aliases, stack, term@) == rule_tyabs(
                        type_of(aliases, raised(stack), body@),
                    )) by {
                        reveal(type_of);
                    }
                }
                let outside = self.enter_type_scope();
                let result = self.type_check(body);
                self.leave_type_scope(outside);
                match result {
                    Ok(ty) => Ok(Type::Universal(Box::new(ty))),
                    Err(e) => Err(e),
                }
            },
            Kind::TyApp(inner, ty) => {
                let argument = self.resolve(ty);
                proof {
                    assert(type_of(aliases, stack, term@) == rule_tyapp(
                        type_of(aliases, stack, inner@),
                        argument@,
                        inner.span,
                    )) by {
                        reveal(type_of);
                    }
                }
                match self.type_check(inner) {
                    Ok(inner_ty) => check_tyapp(inner_ty, argument, inner.span),
                    Err(e) => Err(e),
                }
            },
            _ => self.type_check_data(term),
        }
    }

    /// Checks a term that builds or takes apart data: an injection, a
    /// projection, a tuple, a folding or unfolding, or a case.
    fn type_check_data(&mut self, term: &Term) -> (r: Result<Type, TypeError>)
        requires
            term.kind is Injection || term.kind is Projection || term.kind is Product || term.kind is Fold || term.kind is Unfold || term.kind is Case,
        ensures
            result_view(r) == type_of(old(self).aliases(), old(self).stack(), term@),
            final(self).stack() == old(self).stack(),
            final(self).aliases() == old(self).aliases(),
        decreases term, 0nat,
    {
        let ghost stack = self.stack();
        let ghost aliases = self.aliases();
        match &term.kind {
            Kind::Injection(label, payload, ty) => {
                let declared = self.resolve(ty);
                proof {
                    assert(type_of(aliases, stack, term@) == rule_injection(
                        declared@,
                        label@,
                        type_of(aliases, stack, payload@),
                        term.span,
                        payload.span,
                    )) by {
                        reveal(type_of);
                    }
                }
                let expected = match &declared {
                    Type::Variant(fields) => {
                        proof {
                            Type::lemma_view_variant(*fields);
                        }
                        match variant_field(fields.as_slice(), label, term.span) {
                            Ok(expected) => expected.duplicate(),
                            Err(e) => {
                                return Err(e);
                            },
                        }
                    },
                    _ => {
                        return Context::error(term, TypeErrorKind::NotVariant);
                    },
                };
                match self.type_check(payload) {
                    Ok(actual) => check_payload(declared, expected, actual, term.span, payload.span),
                    Err(e) => Err(e),
                }
            },
            Kind::Projection(inner, idx) => {
                proof {
                    assert(type_of(aliases, stack, term@) == rule_projection(
                        type_of(aliases, stack, inner@),
                        *idx,
                        inner.span,
                    )) by {
                        reveal(type_of);
                    }
                }
                match self.type_check(inner) {
                    Ok(ty) => check_projection(ty, *idx, inner.span),
                    Err(e) => Err(e),
                }
            },
            Kind::Product(terms) => {
                proof {
                    Kind::lemma_view_product(*terms);
                    assert(type_of(aliases, stack, term@) == rule_tuple(
                        tuple_results(aliases, stack, term_views(terms@)),
                    )) by {
                        reveal(type_of);
                    }
                }
                match self.check_all(terms) {
                    Ok(types) => {
                        proof {
                            Type::lemma_view_product(types);
                            lemma_all_ok(type_views(types@));
                        }
                        Ok(Type::Product(types))
                    },
                    Err(e) => Err(e),
                }
            },
            Kind::Fold(ty, payload) => {
                let witness = self.resolve(ty);
                proof {
                    assert(type_of(aliases, stack, term@) == rule_fold(
                        witness@,
                        type_of(aliases, stack, payload@),
                        term.span,
                        payload.span,
                    )) by {
                        reveal(type_of);
                    }
                }
                let expected = match unroll(&witness) {
                    Some(ty) => ty,
                    None => {
                        return Context::error(term, TypeErrorKind::NotRec);
                    },
                };
                match self.type_check(payload) {
                    Ok(actual) => check_payload(witness, expected, actual, term.span, payload.span),
                    Err(e) => Err(e),
                }
            },
            Kind::Unfold(ty, inner) => {
                let witness = self.resolve(ty);
                proof {
                    assert(type_of(aliases, stack, term@) == rule_unfold(
                        witness@,
                        type_of(aliases, stack, inner@),
                        term.span,
                    )) by {
                        reveal(type_of);
                    }
                }
                let unrolled = match unroll(&witness) {
                    Some(ty) => ty,
                    None => {
                        return Context::error(term, TypeErrorKind::NotRec);
                    },
                };
                match self.type_check(inner) {
                    Ok(_) => Ok(unrolled),
                    Err(e) => Err(e),
                }
            },
            Kind::Case(scrutinee, arms) => {
                proof {
                    Kind::lemma_view_case(*scrutinee, *arms);
                    assert(type_of(aliases, stack, term@) == (match type_of(
                        aliases,
                        stack,
                        scrutinee@,
                    ) {
                        Ok(TypeView::Variant(fields)) => match pattern_error(
                            fields,
                            arm_views(arms@),
                            term.span,
                        ) {
                            Some(e) => Err(e),
                            None => rule_arms(
                                arm_results(aliases, stack, fields, arm_views(arms@)),
                                term.span,
                            ),
                        },
                        Ok(_) => failure(term.span, TypeErrorKindView::NotVariant),
                        Err(e) => Err(e),
                    })) by {
                        reveal(type_of);
                    }
                }
                match self.type_check(scrutinee) {
                    Ok(Type::Variant(fields)) => {
                        proof {
                            Type::lemma_view_variant(fields);
                        }
                        match check_patterns(&fields, arms, term.span) {
                            Ok(()) => match self.check_arms(&fields, arms) {
                                Ok(types) => check_arm_types(&types, term.span),
                                Err(e) => Err(e),
                            },
                            Err(e) => Err(e),
                        }
                    },
                    Ok(_) => Context::error(term, TypeErrorKind::NotVariant),
                    Err(e) => Err(e),
                }
            },
            _ => unreached(),
        }
    }
}

} // verus!
