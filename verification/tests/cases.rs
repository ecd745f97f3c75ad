use typed_lambda::system_f::span::{Location, Span};
use typed_lambda::system_f::terms::{Arm, Kind, Literal, Pattern, Term};
use typed_lambda::system_f::types::context::Context;
use typed_lambda::system_f::types::error::{TypeError, TypeErrorKind};
use typed_lambda::system_f::types::patterns::{check_patterns, variant_field};
use typed_lambda::system_f::types::{Type, Variant};

fn sp(n: u32) -> Span {
    Span::new(Location::new(n, 0, n), Location::new(n, 1, n + 1))
}

fn at(n: u32, kind: Kind) -> Term {
    Term::new(kind, sp(n))
}

fn field(label: &str, ty: Type) -> Variant {
    Variant { label: label.to_string(), ty }
}

fn num(n: u32) -> Term {
    at(n, Kind::Lit(Literal::Nat(1)))
}

fn boolean(n: u32) -> Term {
    at(n, Kind::Lit(Literal::Bool(true)))
}

fn unit(n: u32) -> Term {
    at(n, Kind::Lit(Literal::Unit))
}

fn var(n: u32, idx: usize) -> Term {
    at(n, Kind::Var(idx))
}

fn abc() -> Vec<Variant> {
    vec![field("A", Type::Nat), field("B", Type::Bool), field("C", Type::Unit)]
}

fn scrutinee(n: u32) -> Term {
    at(n, Kind::Injection("A".to_string(), Box::new(num(n + 1)), Box::new(Type::Variant(abc()))))
}

fn on(n: u32, label: &str, body: Term) -> Arm {
    Arm { span: sp(n), pat: Pattern::Constructor(label.to_string()), term: Box::new(body) }
}

fn otherwise(n: u32, body: Term) -> Arm {
    Arm { span: sp(n), pat: Pattern::Any, term: Box::new(body) }
}

fn case(n: u32, arms: Vec<Arm>) -> Term {
    at(n, Kind::Case(Box::new(scrutinee(n + 1)), arms))
}

fn fails(at: u32, kind: TypeErrorKind) -> Result<Type, TypeError> {
    Err(TypeError { span: sp(at), kind })
}

fn check(term: &Term) -> Result<Type, TypeError> {
    Context::default().type_check(term)
}

fn patterns(arms: Vec<Arm>) -> Result<(), TypeError> {
    check_patterns(&abc(), &arms, sp(0))
}

fn broken(at: u32, kind: TypeErrorKind) -> Result<(), TypeError> {
    Err(TypeError { span: sp(at), kind })
}

#[test]
fn case_leaving_a_label_out_is_not_exhaustive() {
    let term = case(10, vec![on(20, "A", num(21)), on(30, "B", num(31))]);
    assert_eq!(check(&term), fails(10, TypeErrorKind::NotExhaustive));
    let term = case(10, vec![on(20, "C", num(21))]);
    assert_eq!(check(&term), fails(10, TypeErrorKind::NotExhaustive));
    let term = case(10, vec![]);
    assert_eq!(check(&term), fails(10, TypeErrorKind::NotExhaustive));
}

#[test]
fn case_covering_every_label_checks_in_any_order() {
    let term = case(10, vec![on(20, "A", num(21)), on(30, "B", num(31)), on(40, "C", num(41))]);
    assert_eq!(check(&term), Ok(Type::Nat));
    let term = case(10, vec![on(20, "C", num(21)), on(30, "A", num(31)), on(40, "B", num(41))]);
    assert_eq!(check(&term), Ok(Type::Nat));
    let term = case(10, vec![on(20, "B", num(21)), on(30, "C", num(31)), on(40, "A", num(41))]);
    assert_eq!(check(&term), Ok(Type::Nat));
    let term = case(10, vec![on(20, "C", num(21)), on(30, "B", num(31)), on(40, "A", num(41))]);
    assert_eq!(check(&term), Ok(Type::Nat));
    let term = case(10, vec![on(20, "A", num(21)), on(30, "C", num(31)), on(40, "B", num(41))]);
    assert_eq!(check(&term), Ok(Type::Nat));
    let term = case(10, vec![on(20, "B", num(21)), on(30, "A", num(31)), on(40, "C", num(41))]);
    assert_eq!(check(&term), Ok(Type::Nat));
}

#[test]
fn second_arm_for_a_label_is_unreachable() {
    let term = case(10, vec![on(20, "A", num(21)), on(30, "A", num(31))]);
    assert_eq!(check(&term), fails(30, TypeErrorKind::UnreachablePattern));
    let term = case(
        10,
        vec![on(20, "A", num(21)), on(30, "B", num(31)), on(40, "C", num(41)), on(50, "B", num(51))],
    );
    assert_eq!(check(&term), fails(50, TypeErrorKind::UnreachablePattern));
}

#[test]
fn arm_for_an_undeclared_label_is_invalid() {
    let term = case(10, vec![on(20, "A", num(21)), on(30, "D", num(31)), on(40, "C", num(41))]);
    assert_eq!(check(&term), fails(30, TypeErrorKind::InvalidPattern));
    let term = case(10, vec![on(20, "a", num(21))]);
    assert_eq!(check(&term), fails(20, TypeErrorKind::InvalidPattern));
}

#[test]
fn first_arm_out_of_order_decides() {
    let term = case(10, vec![on(20, "A", num(21)), on(30, "A", num(31)), on(40, "D", num(41))]);
    assert_eq!(check(&term), fails(30, TypeErrorKind::UnreachablePattern));
    let term = case(10, vec![on(20, "D", num(21)), on(30, "A", num(31)), on(40, "A", num(41))]);
    assert_eq!(check(&term), fails(20, TypeErrorKind::InvalidPattern));
    let term = case(10, vec![otherwise(20, num(21)), on(30, "D", num(31))]);
    assert_eq!(check(&term), fails(30, TypeErrorKind::InvalidPattern));
    let term = case(10, vec![on(20, "D", num(21)), on(30, "D", num(31))]);
    assert_eq!(check(&term), fails(20, TypeErrorKind::InvalidPattern));
}

#[test]
fn arms_are_judged_before_their_bodies() {
    let term = case(10, vec![on(20, "A", var(21, 9)), on(30, "A", num(31))]);
    assert_eq!(check(&term), fails(30, TypeErrorKind::UnreachablePattern));
    let term = case(10, vec![on(20, "A", var(21, 9))]);
    assert_eq!(check(&term), fails(10, TypeErrorKind::NotExhaustive));
}

#[test]
fn catch_all_covers_the_remaining_labels() {
    let term = case(10, vec![on(20, "A", num(21)), otherwise(30, num(31))]);
    assert_eq!(check(&term), Ok(Type::Nat));
    let term = case(10, vec![otherwise(20, boolean(21))]);
    assert_eq!(check(&term), Ok(Type::Bool));
    let term = case(
        10,
        vec![on(20, "C", num(21)), on(30, "A", num(31)), on(40, "B", num(41)), otherwise(50, num(51))],
    );
    assert_eq!(check(&term), Ok(Type::Nat));
}

#[test]
fn nothing_comes_after_a_catch_all() {
    let term = case(10, vec![otherwise(20, num(21)), on(30, "A", num(31))]);
    assert_eq!(check(&term), fails(30, TypeErrorKind::UnreachablePattern));
    let term = case(10, vec![otherwise(20, num(21)), otherwise(30, num(31))]);
    assert_eq!(check(&term), fails(30, TypeErrorKind::UnreachablePattern));
    let term = case(10, vec![on(20, "A", num(21)), otherwise(30, num(31)), otherwise(40, num(41))]);
    assert_eq!(check(&term), fails(40, TypeErrorKind::UnreachablePattern));
}

#[test]
fn arm_binds_the_payload_of_its_label() {
    let term = case(10, vec![on(20, "A", var(21, 0)), on(30, "B", num(31)), on(40, "C", num(41))]);
    assert_eq!(check(&term), Ok(Type::Nat));
    let term = case(
        10,
        vec![on(20, "A", boolean(21)), on(30, "B", var(31, 0)), on(40, "C", boolean(41))],
    );
    assert_eq!(check(&term), Ok(Type::Bool));
    let term = case(10, vec![on(20, "A", unit(21)), on(30, "B", unit(31)), on(40, "C", var(41, 0))]);
    assert_eq!(check(&term), Ok(Type::Unit));
}

#[test]
fn arm_binds_nothing_but_the_payload() {
    let term = case(10, vec![on(20, "A", var(21, 1)), on(30, "B", num(31)), on(40, "C", num(41))]);
    assert_eq!(check(&term), fails(21, TypeErrorKind::UnboundVariable(1)));
    let term = case(10, vec![on(20, "A", num(21)), otherwise(30, var(31, 0))]);
    assert_eq!(check(&term), fails(31, TypeErrorKind::UnboundVariable(0)));
}

#[test]
fn payload_is_out_of_scope_after_its_arm() {
    let term = at(
        1,
        Kind::Product(vec![
            case(10, vec![on(20, "A", var(21, 0)), otherwise(30, num(31))]),
            var(2, 0),
        ]),
    );
    assert_eq!(check(&term), fails(2, TypeErrorKind::UnboundVariable(0)));
    let term = case(10, vec![on(20, "A", var(21, 0)), on(30, "B", num(31)), on(40, "C", var(41, 1))]);
    assert_eq!(check(&term), fails(41, TypeErrorKind::UnboundVariable(1)));
    let mut ctx = Context::new();
    ctx.push(Type::Bool);
    let term = case(10, vec![on(20, "A", var(21, 1)), otherwise(30, var(31, 0))]);
    assert_eq!(ctx.type_check(&term), Ok(Type::Bool));
    assert_eq!(ctx.find(0), Some(&Type::Bool));
    assert_eq!(ctx.find(1), None);
    let term = case(10, vec![on(20, "A", var(21, 5)), otherwise(30, var(31, 0))]);
    assert_eq!(ctx.type_check(&term), fails(21, TypeErrorKind::UnboundVariable(5)));
    assert_eq!(ctx.find(0), Some(&Type::Bool));
    assert_eq!(ctx.find(1), None);
}

#[test]
fn arms_of_different_types_are_incompatible() {
    let term = case(10, vec![on(20, "A", var(21, 0)), on(30, "B", var(31, 0)), on(40, "C", num(41))]);
    assert_eq!(check(&term), fails(10, TypeErrorKind::IncompatibleArms));
    let term = case(10, vec![on(20, "A", num(21)), otherwise(30, unit(31))]);
    assert_eq!(check(&term), fails(10, TypeErrorKind::IncompatibleArms));
    let term = case(10, vec![on(20, "A", num(21)), on(30, "B", num(31)), on(40, "C", boolean(41))]);
    assert_eq!(check(&term), fails(10, TypeErrorKind::IncompatibleArms));
}

#[test]
fn first_failing_arm_body_decides() {
    let term = case(
        10,
        vec![on(20, "A", num(21)), on(30, "B", var(31, 4)), on(40, "C", var(41, 5))],
    );
    assert_eq!(check(&term), fails(31, TypeErrorKind::UnboundVariable(4)));
    let term = case(10, vec![on(20, "A", boolean(21)), otherwise(30, var(31, 3))]);
    assert_eq!(check(&term), fails(31, TypeErrorKind::UnboundVariable(3)));
}

#[test]
fn case_needs_a_variant_scrutinee() {
    let term = at(10, Kind::Case(Box::new(num(11)), vec![otherwise(20, num(21))]));
    assert_eq!(check(&term), fails(10, TypeErrorKind::NotVariant));
    let term = at(10, Kind::Case(Box::new(num(11)), vec![]));
    assert_eq!(check(&term), fails(10, TypeErrorKind::NotVariant));
    let term = at(10, Kind::Case(Box::new(var(11, 2)), vec![otherwise(20, num(21))]));
    assert_eq!(check(&term), fails(11, TypeErrorKind::UnboundVariable(2)));
}

#[test]
fn case_over_nothing_has_no_type() {
    let mut ctx = Context::new();
    ctx.push(Type::Variant(vec![]));
    let term = at(10, Kind::Case(Box::new(var(11, 0)), vec![]));
    assert_eq!(ctx.type_check(&term), fails(10, TypeErrorKind::IncompatibleArms));
    let term = at(10, Kind::Case(Box::new(var(11, 0)), vec![otherwise(20, num(21))]));
    assert_eq!(ctx.type_check(&term), Ok(Type::Nat));
}

#[test]
fn patterns_are_checked_on_their_own() {
    assert_eq!(patterns(vec![on(1, "A", num(0)), on(2, "B", num(0)), on(3, "C", num(0))]), Ok(()));
    assert_eq!(patterns(vec![on(1, "B", num(0)), on(2, "C", num(0)), on(3, "A", num(0))]), Ok(()));
    assert_eq!(patterns(vec![otherwise(1, num(0))]), Ok(()));
    assert_eq!(
        patterns(vec![on(1, "A", num(0)), on(2, "B", num(0))]),
        broken(0, TypeErrorKind::NotExhaustive)
    );
    assert_eq!(patterns(vec![]), broken(0, TypeErrorKind::NotExhaustive));
    assert_eq!(
        patterns(vec![on(1, "A", num(0)), on(2, "A", num(0))]),
        broken(2, TypeErrorKind::UnreachablePattern)
    );
    assert_eq!(
        patterns(vec![on(1, "A", num(0)), on(2, "Z", num(0))]),
        broken(2, TypeErrorKind::InvalidPattern)
    );
    assert_eq!(
        patterns(vec![otherwise(1, num(0)), otherwise(2, num(0))]),
        broken(2, TypeErrorKind::UnreachablePattern)
    );
    assert_eq!(check_patterns(&vec![], &vec![], sp(4)), Ok(()));
    assert_eq!(
        check_patterns(&vec![], &vec![on(1, "A", num(0))], sp(4)),
        broken(1, TypeErrorKind::InvalidPattern)
    );
}

#[test]
fn variant_field_finds_the_payload_type() {
    let fields = abc();
    assert_eq!(variant_field(&fields, &"A".to_string(), sp(1)), Ok(&Type::Nat));
    assert_eq!(variant_field(&fields, &"B".to_string(), sp(1)), Ok(&Type::Bool));
    assert_eq!(variant_field(&fields, &"C".to_string(), sp(1)), Ok(&Type::Unit));
    assert_eq!(
        variant_field(&fields, &"D".to_string(), sp(7)),
        Err(TypeError { span: sp(7), kind: TypeErrorKind::NotVariant })
    );
    assert_eq!(
        variant_field(&[], &"A".to_string(), sp(7)),
        Err(TypeError { span: sp(7), kind: TypeErrorKind::NotVariant })
    );
    let twice = vec![field("A", Type::Nat), field("A", Type::Bool)];
    assert_eq!(variant_field(&twice, &"A".to_string(), sp(1)), Ok(&Type::Nat));
}
