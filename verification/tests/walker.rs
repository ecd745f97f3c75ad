use typed_lambda::system_f::types::visit::{walk_ty, Hooks, TypeVisitor};
use typed_lambda::system_f::types::{Type, Variant};

/// Takes a product of one component for the component, and `Nat` for
/// `Bool`; names every free variable by its distance from the binders.
struct Simplify;

impl TypeVisitor for Simplify {
    fn hooks(&self) -> Hooks {
        unreachable!()
    }

    fn visit_var(&self, depth: usize, idx: usize) -> Type {
        Type::Alias(format!("free{}", idx - depth))
    }

    fn visit_alias(&self, name: &String) -> Type {
        Type::Alias(name.to_uppercase())
    }

    fn visit_node(&self, node: Type) -> Type {
        match node {
            Type::Product(mut components) if components.len() == 1 => components.remove(0),
            Type::Nat => Type::Bool,
            other => other,
        }
    }
}

fn arrow(a: Type, b: Type) -> Type {
    Type::Arrow(Box::new(a), Box::new(b))
}

fn universal(body: Type) -> Type {
    Type::Universal(Box::new(body))
}

fn alias(name: &str) -> Type {
    Type::Alias(name.to_string())
}

#[test]
fn node_hook_sees_every_node_rebuilt_from_its_walked_children() {
    let ty = Type::Product(vec![Type::Product(vec![Type::Product(vec![Type::Nat])])]);
    assert_eq!(walk_ty(&Simplify, 0, &ty), Type::Bool);
    let ty = arrow(Type::Product(vec![Type::Nat]), Type::Product(vec![Type::Unit, Type::Nat]));
    assert_eq!(
        walk_ty(&Simplify, 0, &ty),
        arrow(Type::Bool, Type::Product(vec![Type::Unit, Type::Bool]))
    );
}

#[test]
fn changing_one_shape_of_node_leaves_no_subtree_unwalked() {
    let ty = Type::Variant(vec![
        Variant { label: "a".to_string(), ty: universal(Type::Product(vec![Type::Var(1)])) },
        Variant { label: "b".to_string(), ty: Type::Rec(Box::new(arrow(alias("x"), Type::Var(0)))) },
    ]);
    let expected = Type::Variant(vec![
        Variant { label: "a".to_string(), ty: universal(alias("free0")) },
        Variant { label: "b".to_string(), ty: Type::Rec(Box::new(arrow(alias("X"), Type::Var(0)))) },
    ]);
    assert_eq!(walk_ty(&Simplify, 0, &ty), expected);
}

#[test]
fn variable_hook_is_asked_only_where_the_variable_is_free() {
    let ty = universal(universal(Type::Product(vec![Type::Var(0), Type::Var(1), Type::Var(2), Type::Var(5)])));
    assert_eq!(
        walk_ty(&Simplify, 0, &ty),
        universal(universal(Type::Product(vec![
            Type::Var(0),
            Type::Var(1),
            alias("free0"),
            alias("free3")
        ])))
    );
    assert_eq!(walk_ty(&Simplify, 3, &Type::Var(2)), Type::Var(2));
    assert_eq!(walk_ty(&Simplify, 3, &Type::Var(4)), alias("free1"));
}

#[test]
fn what_a_hook_puts_in_is_not_walked_again() {
    assert_eq!(walk_ty(&Simplify, 0, &alias("nat")), alias("NAT"));
    assert_eq!(walk_ty(&Simplify, 0, &Type::Var(0)), alias("free0"));
}
