use std::rc::Rc;
use typed_lambda::stlc::term::{Record, Term};
use typed_lambda::stlc::typing::{
    check_app, check_branches, check_nat_op, check_projection, Context, Type, TypeError,
};

fn arrow(a: Type, b: Type) -> Type {
    Type::Arrow(Box::new(a), Box::new(b))
}

fn var(idx: usize) -> Term {
    Term::Var(idx)
}

fn abs(ty: Type, body: Term) -> Term {
    Term::Abs(ty, Rc::new(body))
}

fn app(fun: Term, arg: Term) -> Term {
    Term::App(Rc::new(fun), Rc::new(arg))
}

fn if_(guard: Term, csq: Term, alt: Term) -> Term {
    Term::If(Rc::new(guard), Rc::new(csq), Rc::new(alt))
}

fn let_(bound: Term, body: Term) -> Term {
    Term::Let(Rc::new(bound), Rc::new(body))
}

fn succ(t: Term) -> Term {
    Term::Succ(Rc::new(t))
}

fn pred(t: Term) -> Term {
    Term::Pred(Rc::new(t))
}

fn iszero(t: Term) -> Term {
    Term::IsZero(Rc::new(t))
}

fn id() -> Term {
    abs(Type::Bool, var(0))
}

fn record(fields: Vec<Term>) -> Rc<Term> {
    Record::new(fields.into_iter().map(Rc::new).collect())
}

#[test]
fn constants_have_their_base_types() {
    let root = Context::default();
    assert_eq!(root.type_of(&Term::True), Ok(Type::Bool));
    assert_eq!(root.type_of(&Term::False), Ok(Type::Bool));
    assert_eq!(root.type_of(&Term::Zero), Ok(Type::Nat));
}

#[test]
fn variable_without_binder_is_unknown() {
    let root = Context::default();
    assert_eq!(root.type_of(&var(0)), Err(TypeError::UnknownVariable));
}

#[test]
fn stlc_identity_on_booleans_is_an_arrow() {
    let root = Context::default();
    assert_eq!(root.type_of(&id()), Ok(arrow(Type::Bool, Type::Bool)));
}

#[test]
fn stlc_identity_applied_to_false_is_a_boolean() {
    let root = Context::default();
    assert_eq!(root.type_of(&app(id(), Term::False)), Ok(Type::Bool));
}

#[test]
fn conditional_with_different_branches_is_mistyped() {
    let root = Context::default();
    let mistyped = if_(app(id(), Term::False), id(), Term::False);
    assert_eq!(root.type_of(&mistyped), Err(TypeError::ArmMismatch));
}

#[test]
fn stlc_conditional_with_equal_branches_has_their_type() {
    let root = Context::default();
    let term = if_(Term::True, Term::Zero, succ(Term::Zero));
    assert_eq!(root.type_of(&term), Ok(Type::Nat));
}

#[test]
fn conditional_on_a_natural_fails_at_the_guard() {
    let root = Context::default();
    let term = if_(Term::Zero, Term::True, Term::False);
    assert_eq!(root.type_of(&term), Err(TypeError::Guard));
}

#[test]
fn guard_failure_comes_before_the_branches() {
    let root = Context::default();
    let term = if_(Term::Zero, var(7), Term::False);
    assert_eq!(root.type_of(&term), Err(TypeError::Guard));
}

#[test]
fn failure_inside_a_guard_is_handed_on() {
    let root = Context::default();
    let term = if_(var(3), Term::True, Term::False);
    assert_eq!(root.type_of(&term), Err(TypeError::UnknownVariable));
}

#[test]
fn operators_on_naturals() {
    let root = Context::default();
    assert_eq!(root.type_of(&succ(Term::Zero)), Ok(Type::Nat));
    assert_eq!(root.type_of(&pred(succ(Term::Zero))), Ok(Type::Nat));
    assert_eq!(root.type_of(&iszero(Term::Zero)), Ok(Type::Bool));
    assert_eq!(root.type_of(&succ(Term::True)), Err(TypeError::ParameterMismatch));
    assert_eq!(root.type_of(&pred(Term::False)), Err(TypeError::ParameterMismatch));
    assert_eq!(root.type_of(&iszero(id())), Err(TypeError::ParameterMismatch));
}

#[test]
fn failure_inside_an_operand_is_handed_on() {
    let root = Context::default();
    assert_eq!(root.type_of(&iszero(var(5))), Err(TypeError::UnknownVariable));
    assert_eq!(root.type_of(&succ(app(Term::Zero, Term::Zero))), Err(TypeError::ExpectedArrow));
}

#[test]
fn application_of_a_constant_expects_an_arrow() {
    let root = Context::default();
    assert_eq!(root.type_of(&app(Term::True, Term::False)), Err(TypeError::ExpectedArrow));
}

#[test]
fn application_to_the_wrong_argument_is_a_mismatch() {
    let root = Context::default();
    assert_eq!(root.type_of(&app(id(), Term::Zero)), Err(TypeError::ParameterMismatch));
}

#[test]
fn application_checks_the_function_first() {
    let root = Context::default();
    let term = app(var(1), app(Term::Zero, Term::Zero));
    assert_eq!(root.type_of(&term), Err(TypeError::UnknownVariable));
}

#[test]
fn let_binds_the_type_of_what_it_names() {
    let root = Context::default();
    let term = let_(succ(Term::Zero), iszero(var(0)));
    assert_eq!(root.type_of(&term), Ok(Type::Bool));
    let shadow = let_(Term::True, let_(Term::Zero, var(1)));
    assert_eq!(root.type_of(&shadow), Ok(Type::Bool));
    let inner = let_(Term::True, let_(Term::Zero, var(0)));
    assert_eq!(root.type_of(&inner), Ok(Type::Nat));
}

#[test]
fn let_binding_does_not_outlive_its_body() {
    let root = Context::default();
    let term = app(abs(Type::Nat, var(0)), let_(Term::True, var(1)));
    assert_eq!(root.type_of(&term), Err(TypeError::UnknownVariable));
}

#[test]
fn nested_abstractions_count_binders_outwards() {
    let root = Context::default();
    let term = abs(Type::Nat, abs(Type::Bool, var(1)));
    assert_eq!(root.type_of(&term), Ok(arrow(Type::Nat, arrow(Type::Bool, Type::Nat))));
    let term = abs(Type::Nat, abs(Type::Bool, var(0)));
    assert_eq!(root.type_of(&term), Ok(arrow(Type::Nat, arrow(Type::Bool, Type::Bool))));
    let term = abs(Type::Nat, abs(Type::Bool, var(2)));
    assert_eq!(root.type_of(&term), Err(TypeError::UnknownVariable));
}

#[test]
fn higher_order_application() {
    let root = Context::default();
    let apply = abs(arrow(Type::Nat, Type::Bool), abs(Type::Nat, app(var(1), var(0))));
    assert_eq!(
        root.type_of(&apply),
        Ok(arrow(arrow(Type::Nat, Type::Bool), arrow(Type::Nat, Type::Bool)))
    );
    let applied = app(apply_term(), abs(Type::Nat, iszero(var(0))));
    assert_eq!(root.type_of(&applied), Ok(arrow(Type::Nat, Type::Bool)));
}

fn apply_term() -> Term {
    abs(arrow(Type::Nat, Type::Bool), abs(Type::Nat, app(var(1), var(0))))
}

#[test]
fn record_has_the_types_of_its_fields() {
    let root = Context::default();
    let rec = record(vec![Term::True, Term::True, Term::Zero]);
    assert_eq!(root.type_of(&rec), Ok(Type::Record(vec![Type::Bool, Type::Bool, Type::Nat])));
    let empty = record(vec![]);
    assert_eq!(root.type_of(&empty), Ok(Type::Record(vec![])));
}

#[test]
fn record_fails_with_its_first_failing_field() {
    let root = Context::default();
    let rec = record(vec![Term::True, succ(Term::True), var(9)]);
    assert_eq!(root.type_of(&rec), Err(TypeError::ParameterMismatch));
    let rec = record(vec![var(9), succ(Term::True)]);
    assert_eq!(root.type_of(&rec), Err(TypeError::UnknownVariable));
}

#[test]
fn projection_takes_the_field_at_its_position() {
    let root = Context::default();
    let proj = Term::Projection(record(vec![Term::True, Term::True, Term::Zero]), 1);
    assert_eq!(root.type_of(&proj), Ok(Type::Bool));
    let proj = Term::Projection(record(vec![Term::True, Term::True, Term::Zero]), 2);
    assert_eq!(root.type_of(&proj), Ok(Type::Nat));
    let proj = Term::Projection(record(vec![Term::True, Term::True, Term::Zero]), 0);
    assert_eq!(root.type_of(&proj), Ok(Type::Bool));
}

#[test]
fn projection_past_the_last_field_is_invalid() {
    let root = Context::default();
    let proj = Term::Projection(record(vec![Term::True, Term::True, Term::Zero]), 5);
    assert_eq!(root.type_of(&proj), Err(TypeError::InvalidProjection));
    let proj = Term::Projection(record(vec![Term::True, Term::True, Term::Zero]), 3);
    assert_eq!(root.type_of(&proj), Err(TypeError::InvalidProjection));
}

#[test]
fn projection_from_a_constant_is_no_record() {
    let root = Context::default();
    let proj = Term::Projection(Rc::new(Term::Zero), 0);
    assert_eq!(root.type_of(&proj), Err(TypeError::NotRecordType));
}

#[test]
fn context_add_puts_the_new_variable_innermost() {
    let root = Context::default();
    assert_eq!(root.get(0), None);
    let one = root.add(Type::Nat);
    assert_eq!(one.get(0), Some(&Type::Nat));
    assert_eq!(one.get(1), None);
    let two = one.add(Type::Bool);
    assert_eq!(two.get(0), Some(&Type::Bool));
    assert_eq!(two.get(1), Some(&Type::Nat));
    assert_eq!(two.get(2), None);
    let three = two.add(arrow(Type::Nat, Type::Nat));
    assert_eq!(three.get(0), Some(&arrow(Type::Nat, Type::Nat)));
    assert_eq!(three.get(2), Some(&Type::Nat));
    assert_eq!(three.get(3), None);
    assert_eq!(one.get(0), Some(&Type::Nat));
}

#[test]
fn context_in_scope_types_a_free_variable() {
    let root = Context::new();
    let ctx = root.add(Type::Nat);
    assert_eq!(ctx.type_of(&iszero(var(0))), Ok(Type::Bool));
    assert_eq!(ctx.type_of(&var(1)), Err(TypeError::UnknownVariable));
}

#[test]
fn stlc_types_compare_by_structure() {
    assert_eq!(arrow(Type::Nat, Type::Bool), arrow(Type::Nat, Type::Bool));
    assert_ne!(arrow(Type::Nat, Type::Bool), arrow(Type::Bool, Type::Nat));
    assert_ne!(Type::Record(vec![Type::Nat]), Type::Record(vec![Type::Nat, Type::Nat]));
    assert_ne!(Type::Record(vec![Type::Nat]), Type::Record(vec![Type::Bool]));
    assert_ne!(Type::Record(vec![]), Type::Nat);
    assert!(Type::Record(vec![Type::Nat, Type::Bool]).same(&Type::Record(vec![Type::Nat, Type::Bool])));
    let ty = arrow(Type::Record(vec![Type::Nat, Type::Bool]), Type::Nat);
    assert_eq!(ty.clone(), ty);
    assert_eq!(ty.duplicate(), ty);
}

#[test]
fn stlc_rule_functions_decide_on_given_types() {
    assert_eq!(check_nat_op(Type::Nat, Type::Bool), Ok(Type::Bool));
    assert_eq!(check_nat_op(Type::Bool, Type::Bool), Err(TypeError::ParameterMismatch));
    assert_eq!(check_app(arrow(Type::Nat, Type::Bool), Type::Nat), Ok(Type::Bool));
    assert_eq!(check_app(arrow(Type::Nat, Type::Bool), Type::Bool), Err(TypeError::ParameterMismatch));
    assert_eq!(check_app(Type::Nat, Type::Nat), Err(TypeError::ExpectedArrow));
    assert_eq!(check_branches(Type::Nat, Type::Nat), Ok(Type::Nat));
    assert_eq!(check_branches(Type::Nat, Type::Bool), Err(TypeError::ArmMismatch));
    assert_eq!(check_projection(Type::Record(vec![Type::Nat, Type::Bool]), 1), Ok(Type::Bool));
    assert_eq!(
        check_projection(Type::Record(vec![Type::Nat, Type::Bool]), 2),
        Err(TypeError::InvalidProjection)
    );
    assert_eq!(check_projection(Type::Bool, 0), Err(TypeError::NotRecordType));
}
