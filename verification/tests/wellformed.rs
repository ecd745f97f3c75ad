use typed_lambda::system_f::types::shift::shift;
use typed_lambda::system_f::types::subst;
use typed_lambda::system_f::types::{Type, Variant};

fn field(label: &str, ty: Type) -> Variant {
    Variant { label: label.to_string(), ty }
}

fn arrow(a: Type, b: Type) -> Type {
    Type::Arrow(Box::new(a), Box::new(b))
}

fn universal(body: Type) -> Type {
    Type::Universal(Box::new(body))
}

fn good() -> Type {
    Type::Variant(vec![field("A", Type::Nat), field("B", Type::Var(0)), field("C", Type::Unit)])
}

fn bad() -> Type {
    Type::Variant(vec![field("A", Type::Nat), field("B", Type::Bool), field("A", Type::Unit)])
}

#[test]
fn variant_with_distinct_labels_is_well_formed() {
    assert!(good().is_well_formed());
    assert!(Type::Variant(vec![]).is_well_formed());
    assert!(Type::Variant(vec![field("A", Type::Nat)]).is_well_formed());
    assert!(Type::Variant(vec![field("A", Type::Nat), field("a", Type::Nat)]).is_well_formed());
}

#[test]
fn variant_with_a_repeated_label_is_not_well_formed() {
    assert!(!bad().is_well_formed());
    assert!(!Type::Variant(vec![field("A", Type::Nat), field("A", Type::Nat)]).is_well_formed());
    assert!(
        !Type::Variant(vec![field("B", Type::Nat), field("A", Type::Nat), field("A", Type::Bool)])
            .is_well_formed()
    );
}

#[test]
fn well_formedness_reaches_every_depth() {
    assert!(arrow(good(), universal(good())).is_well_formed());
    assert!(!arrow(good(), universal(bad())).is_well_formed());
    assert!(!arrow(bad(), good()).is_well_formed());
    assert!(!Type::Product(vec![Type::Nat, good(), bad()]).is_well_formed());
    assert!(Type::Product(vec![Type::Nat, good(), good()]).is_well_formed());
    assert!(!Type::Rec(Box::new(Type::Variant(vec![field("A", bad())]))).is_well_formed());
    assert!(!Type::Existential(Box::new(bad())).is_well_formed());
    assert!(
        !Type::Application(Box::new(Type::Var(0)), Box::new(bad())).is_well_formed()
    );
    assert!(Type::Application(Box::new(Type::Var(0)), Box::new(good())).is_well_formed());
}

#[test]
fn leaves_are_well_formed() {
    assert!(Type::Unit.is_well_formed());
    assert!(Type::Nat.is_well_formed());
    assert!(Type::Bool.is_well_formed());
    assert!(Type::Var(3).is_well_formed());
    assert!(Type::Alias("T".to_string()).is_well_formed());
}

#[test]
fn traversals_keep_well_formedness() {
    assert!(shift(3, &good()).is_well_formed());
    assert!(subst(good(), universal(arrow(Type::Var(1), good()))).is_well_formed());
    assert!(!shift(3, &bad()).is_well_formed());
    assert!(!subst(bad(), Type::Var(0)).is_well_formed());
    assert!(subst(bad(), Type::Var(1)).is_well_formed());
}
