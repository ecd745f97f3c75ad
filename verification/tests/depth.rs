use typed_lambda::system_f::span::Span;
use typed_lambda::system_f::terms::{Arm, Kind, Literal, Pattern, Term};
use typed_lambda::system_f::types::context::Context;
use typed_lambda::system_f::types::error::{TypeError, TypeErrorKind};
use typed_lambda::system_f::types::{Type, Variant};

fn arrow(a: Type, b: Type) -> Type {
    Type::Arrow(Box::new(a), Box::new(b))
}

fn term(kind: Kind) -> Term {
    Term::new(kind, Span::dummy())
}

fn var(idx: usize) -> Term {
    term(Kind::Var(idx))
}

fn abs(ty: Type, body: Term) -> Term {
    term(Kind::Abs(Box::new(ty), Box::new(body)))
}

fn nested(levels: usize) -> Term {
    let mut t = var(0);
    for _ in 0..levels {
        t = abs(Type::Nat, t);
    }
    t
}

fn nested_type(levels: usize) -> Type {
    let mut t = Type::Nat;
    for _ in 0..levels {
        t = Type::Universal(Box::new(t));
    }
    t
}

#[test]
fn leaf_type_has_depth_one() {
    assert!(!Type::Nat.is_within(0));
    assert!(Type::Nat.is_within(1));
    assert!(Type::Var(9).is_within(1));
    assert!(Type::Alias("T".to_string()).is_within(1));
    assert!(Type::Unit.is_within(usize::MAX));
}

#[test]
fn type_is_one_deeper_than_its_deepest_child() {
    assert!(!arrow(Type::Nat, Type::Nat).is_within(1));
    assert!(arrow(Type::Nat, Type::Nat).is_within(2));
    assert!(!arrow(Type::Nat, arrow(Type::Nat, Type::Nat)).is_within(2));
    assert!(arrow(Type::Nat, arrow(Type::Nat, Type::Nat)).is_within(3));
    assert!(!arrow(arrow(Type::Nat, Type::Nat), Type::Nat).is_within(2));
    assert!(Type::Product(vec![]).is_within(1));
    assert!(!Type::Product(vec![]).is_within(0));
    assert!(Type::Product(vec![Type::Nat, Type::Bool]).is_within(2));
    assert!(!Type::Product(vec![Type::Nat, arrow(Type::Nat, Type::Nat)]).is_within(2));
    let variant = Type::Variant(vec![
        Variant { label: "A".to_string(), ty: Type::Nat },
        Variant { label: "B".to_string(), ty: Type::Rec(Box::new(Type::Var(0))) },
    ]);
    assert!(!variant.is_within(2));
    assert!(variant.is_within(3));
    assert!(nested_type(10).is_within(11));
    assert!(!nested_type(10).is_within(10));
}

#[test]
fn term_counts_its_annotations() {
    assert!(!var(0).is_within(0));
    assert!(var(0).is_within(1));
    assert!(!abs(Type::Nat, var(0)).is_within(1));
    assert!(abs(Type::Nat, var(0)).is_within(2));
    assert!(!abs(arrow(Type::Nat, Type::Nat), var(0)).is_within(2));
    assert!(abs(arrow(Type::Nat, Type::Nat), var(0)).is_within(3));
    assert!(nested(5).is_within(6));
    assert!(!nested(5).is_within(5));
    assert!(term(Kind::Product(vec![])).is_within(1));
    assert!(!term(Kind::Product(vec![var(0), nested(2)])).is_within(3));
    assert!(term(Kind::Product(vec![var(0), nested(2)])).is_within(4));
    let case = term(Kind::Case(
        Box::new(var(0)),
        vec![
            Arm { span: Span::dummy(), pat: Pattern::Any, term: Box::new(nested(1)) },
            Arm {
                span: Span::dummy(),
                pat: Pattern::Constructor("A".to_string()),
                term: Box::new(nested(3)),
            },
        ],
    ));
    assert!(!case.is_within(4));
    assert!(case.is_within(5));
    let unfold = term(Kind::Unfold(Box::new(nested_type(4)), Box::new(var(0))));
    assert!(!unfold.is_within(5));
    assert!(unfold.is_within(6));
}

#[test]
fn bounded_check_refuses_what_is_too_deep() {
    let mut ctx = Context::new();
    assert_eq!(ctx.type_check_bounded(&nested(5), 5), None);
    assert_eq!(ctx.type_check_bounded(&nested(5), 0), None);
    assert_eq!(ctx.find(0), None);
}

#[test]
fn bounded_check_answers_as_the_check_does() {
    let mut ctx = Context::new();
    assert_eq!(
        ctx.type_check_bounded(&nested(2), 3),
        Some(Ok(arrow(Type::Nat, arrow(Type::Nat, Type::Nat))))
    );
    assert_eq!(
        ctx.type_check_bounded(&abs(Type::Nat, var(3)), 2),
        Some(Err(TypeError { span: Span::dummy(), kind: TypeErrorKind::UnboundVariable(3) }))
    );
    assert_eq!(
        ctx.type_check_bounded(&term(Kind::Lit(Literal::Unit)), usize::MAX),
        Some(Ok(Type::Unit))
    );
    assert_eq!(ctx.type_check_bounded(&nested(300), 1000), ctx.type_check_bounded(&nested(300), 301));
    assert_eq!(ctx.find(0), None);
}
