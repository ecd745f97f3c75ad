use typed_lambda::system_f::types::check::unroll;
use typed_lambda::system_f::types::subst;
use typed_lambda::system_f::types::subst::Subst;
use typed_lambda::system_f::types::{Type, Variant};

fn arrow(a: Type, b: Type) -> Type {
    Type::Arrow(Box::new(a), Box::new(b))
}

fn universal(body: Type) -> Type {
    Type::Universal(Box::new(body))
}

fn rec(body: Type) -> Type {
    Type::Rec(Box::new(body))
}

fn field(label: &str, ty: Type) -> Variant {
    Variant { label: label.to_string(), ty }
}

fn nat_list() -> Type {
    rec(Type::Variant(vec![
        field("Nil", Type::Unit),
        field("Cons", Type::Product(vec![Type::Nat, Type::Var(0)])),
    ]))
}

#[test]
fn instantiation_replaces_the_bound_variable() {
    assert_eq!(subst(Type::Nat, arrow(Type::Var(0), Type::Var(0))), arrow(Type::Nat, Type::Nat));
    assert_eq!(subst(Type::Bool, Type::Var(0)), Type::Bool);
    assert_eq!(subst(Type::Bool, Type::Nat), Type::Nat);
}

#[test]
fn instantiation_lowers_the_other_free_variables() {
    assert_eq!(subst(Type::Nat, arrow(Type::Var(0), Type::Var(1))), arrow(Type::Nat, Type::Var(0)));
    assert_eq!(subst(Type::Nat, Type::Var(5)), Type::Var(4));
    assert_eq!(
        subst(Type::Nat, universal(arrow(Type::Var(1), Type::Var(2)))),
        universal(arrow(Type::Nat, Type::Var(1)))
    );
}

#[test]
fn instantiation_reaches_under_binders() {
    assert_eq!(
        subst(Type::Nat, universal(arrow(Type::Var(1), Type::Var(0)))),
        universal(arrow(Type::Nat, Type::Var(0)))
    );
    assert_eq!(
        subst(Type::Bool, universal(universal(Type::Product(vec![Type::Var(0), Type::Var(1), Type::Var(2)])))),
        universal(universal(Type::Product(vec![Type::Var(0), Type::Var(1), Type::Bool])))
    );
}

#[test]
fn free_variables_of_the_argument_are_not_captured() {
    assert_eq!(
        subst(Type::Var(0), universal(arrow(Type::Var(1), Type::Var(0)))),
        universal(arrow(Type::Var(1), Type::Var(0)))
    );
    assert_eq!(subst(Type::Var(2), universal(universal(Type::Var(2)))), universal(universal(Type::Var(4))));
    assert_eq!(subst(Type::Var(0), Type::Var(0)), Type::Var(0));
    assert_eq!(
        subst(arrow(Type::Var(0), Type::Var(3)), rec(Type::Var(1))),
        rec(arrow(Type::Var(1), Type::Var(4)))
    );
}

#[test]
fn argument_at_the_top_of_the_index_range_wraps_around() {
    assert_eq!(subst(Type::Var(usize::MAX), universal(Type::Var(1))), universal(Type::Var(0)));
    assert_eq!(subst(Type::Var(usize::MAX - 1), universal(Type::Var(1))), universal(Type::Var(0)));
    assert_eq!(
        subst(Type::Var(usize::MAX - 2), universal(Type::Var(1))),
        universal(Type::Var(usize::MAX - 1))
    );
    assert_eq!(subst(Type::Var(usize::MAX), Type::Var(0)), Type::Var(usize::MAX));
}

#[test]
fn binders_of_the_argument_keep_their_variables() {
    assert_eq!(
        subst(universal(arrow(Type::Var(0), Type::Var(1))), rec(Type::Var(1))),
        rec(universal(arrow(Type::Var(0), Type::Var(2))))
    );
    assert_eq!(
        subst(universal(Type::Var(0)), universal(Type::Var(1))),
        universal(universal(Type::Var(0)))
    );
}

#[test]
fn substitution_alone_neither_raises_nor_lowers() {
    assert_eq!(
        Subst::new(Type::Nat).visit(&arrow(Type::Var(0), Type::Var(1))),
        arrow(Type::Nat, Type::Var(1))
    );
    assert_eq!(
        Subst::new(Type::Var(0)).visit(&universal(arrow(Type::Var(1), Type::Var(0)))),
        universal(arrow(Type::Var(1), Type::Var(0)))
    );
    assert_eq!(
        Subst::new(Type::Var(3)).visit(&universal(universal(Type::Var(2)))),
        universal(universal(Type::Var(5)))
    );
    assert_eq!(Subst::new(Type::Nat).ty, Type::Nat);
}

#[test]
fn a_recursive_type_unrolls_to_its_body_with_itself() {
    let expected = Type::Variant(vec![
        field("Nil", Type::Unit),
        field("Cons", Type::Product(vec![Type::Nat, nat_list()])),
    ]);
    assert_eq!(unroll(&nat_list()), Some(expected));
    assert_eq!(unroll(&rec(Type::Var(0))), Some(rec(Type::Var(0))));
    assert_eq!(unroll(&rec(Type::Nat)), Some(Type::Nat));
    assert_eq!(unroll(&rec(Type::Var(1))), Some(Type::Var(0)));
}

#[test]
fn nothing_but_a_recursive_type_unrolls() {
    assert_eq!(unroll(&Type::Nat), None);
    assert_eq!(unroll(&universal(Type::Var(0))), None);
    assert_eq!(unroll(&Type::Alias("List".to_string())), None);
}
