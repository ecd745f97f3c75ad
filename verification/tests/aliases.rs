use typed_lambda::system_f::span::{Location, Span};
use typed_lambda::system_f::terms::{Arm, Kind, Literal, Pattern, Term};
use typed_lambda::system_f::types::context::Context;
use typed_lambda::system_f::types::error::{TypeError, TypeErrorKind};
use typed_lambda::system_f::types::{Type, Variant};

fn sp(n: u32) -> Span {
    Span::new(Location::new(n, 0, n), Location::new(n, 1, n + 1))
}

fn at(n: u32, kind: Kind) -> Term {
    Term::new(kind, sp(n))
}

fn alias(name: &str) -> Type {
    Type::Alias(name.to_string())
}

fn arrow(a: Type, b: Type) -> Type {
    Type::Arrow(Box::new(a), Box::new(b))
}

fn universal(body: Type) -> Type {
    Type::Universal(Box::new(body))
}

fn rec(body: Type) -> Type {
    Type::Rec(Box::new(body))
}

fn field(label: &str, ty: Type) -> Variant {
    Variant { label: label.to_string(), ty }
}

fn num(n: u32) -> Term {
    at(n, Kind::Lit(Literal::Nat(3)))
}

fn unit(n: u32) -> Term {
    at(n, Kind::Lit(Literal::Unit))
}

fn var(n: u32, idx: usize) -> Term {
    at(n, Kind::Var(idx))
}

fn abs(n: u32, ty: Type, body: Term) -> Term {
    at(n, Kind::Abs(Box::new(ty), Box::new(body)))
}

fn app(n: u32, fun: Term, arg: Term) -> Term {
    at(n, Kind::App(Box::new(fun), Box::new(arg)))
}

fn pair_ty() -> Type {
    Type::Product(vec![Type::Nat, Type::Bool])
}

fn option_ty() -> Type {
    Type::Variant(vec![field("None", Type::Unit), field("Some", Type::Nat)])
}

fn list_ty() -> Type {
    rec(Type::Variant(vec![
        field("Nil", Type::Unit),
        field("Cons", Type::Product(vec![Type::Nat, Type::Var(0)])),
    ]))
}

fn list_unrolled() -> Type {
    Type::Variant(vec![
        field("Nil", Type::Unit),
        field("Cons", Type::Product(vec![Type::Nat, list_ty()])),
    ])
}

fn context() -> Context {
    let mut ctx = Context::new();
    ctx.alias("N".to_string(), Type::Nat);
    ctx.alias("Pair".to_string(), pair_ty());
    ctx.alias("Option".to_string(), option_ty());
    ctx.alias("List".to_string(), list_ty());
    ctx.alias("Outer".to_string(), alias("N"));
    ctx.alias("Open".to_string(), Type::Var(0));
    ctx
}

#[test]
fn known_alias_gives_way_to_its_type() {
    let ctx = context();
    assert_eq!(ctx.resolve(&alias("N")), Type::Nat);
    assert_eq!(ctx.resolve(&alias("Pair")), pair_ty());
    assert_eq!(
        ctx.resolve(&arrow(alias("N"), Type::Product(vec![alias("Pair"), Type::Bool]))),
        arrow(Type::Nat, Type::Product(vec![pair_ty(), Type::Bool]))
    );
    assert_eq!(
        ctx.resolve(&Type::Variant(vec![field("l", alias("N")), field("r", universal(alias("Option")))])),
        Type::Variant(vec![field("l", Type::Nat), field("r", universal(option_ty()))])
    );
    assert_eq!(ctx.aliaser().visit(&rec(alias("N"))), rec(Type::Nat));
}

#[test]
fn unknown_alias_stays() {
    let ctx = context();
    assert_eq!(ctx.resolve(&alias("Missing")), alias("Missing"));
    assert_eq!(ctx.resolve(&arrow(alias("n"), alias("N"))), arrow(alias("n"), Type::Nat));
    assert_eq!(Context::new().resolve(&alias("N")), alias("N"));
}

#[test]
fn resolution_leaves_everything_else() {
    let ctx = context();
    let ty = universal(arrow(Type::Var(0), rec(Type::Product(vec![Type::Var(1), Type::Var(5), Type::Unit]))));
    assert_eq!(ctx.resolve(&ty), ty);
}

#[test]
fn alias_of_an_alias_resolves_in_full() {
    let ctx = context();
    assert_eq!(ctx.resolve(&alias("Outer")), Type::Nat);
    assert_eq!(ctx.resolve(&arrow(alias("Outer"), alias("N"))), arrow(Type::Nat, Type::Nat));
    let mut ctx = context();
    ctx.alias("Deep".to_string(), Type::Product(vec![alias("Outer"), alias("Pair")]));
    ctx.alias("Deeper".to_string(), universal(alias("Deep")));
    assert_eq!(
        ctx.resolve(&alias("Deeper")),
        universal(Type::Product(vec![Type::Nat, pair_ty()]))
    );
}

#[test]
fn alias_defined_before_what_it_mentions_resolves_in_full() {
    let mut ctx = Context::new();
    ctx.alias("A".to_string(), alias("B"));
    assert_eq!(ctx.resolve(&alias("A")), alias("B"));
    ctx.alias("B".to_string(), Type::Nat);
    assert_eq!(ctx.resolve(&alias("A")), Type::Nat);
    assert_eq!(ctx.resolve(&alias("B")), Type::Nat);
    let mut ctx = Context::new();
    ctx.alias("C".to_string(), arrow(alias("B"), alias("A")));
    ctx.alias("B".to_string(), Type::Product(vec![alias("A")]));
    ctx.alias("A".to_string(), Type::Bool);
    assert_eq!(
        ctx.resolve(&alias("C")),
        arrow(Type::Product(vec![Type::Bool]), Type::Bool)
    );
    assert_eq!(ctx.resolve(&alias("B")), Type::Product(vec![Type::Bool]));
}

#[test]
fn resolved_type_mentions_no_defined_alias() {
    let mut ctx = context();
    ctx.alias("Z".to_string(), arrow(alias("Outer"), alias("Later")));
    ctx.alias("Later".to_string(), alias("Pair"));
    let ty = Type::Product(vec![alias("Z"), alias("Outer"), alias("Later"), alias("Missing")]);
    let done = ctx.resolve(&ty);
    assert_eq!(
        done,
        Type::Product(vec![arrow(Type::Nat, pair_ty()), Type::Nat, pair_ty(), alias("Missing")])
    );
    assert_eq!(ctx.resolve(&done), done);
}

#[test]
fn chain_as_long_as_the_table_resolves_in_full() {
    let mut ctx = Context::new();
    ctx.alias("E".to_string(), alias("D"));
    ctx.alias("D".to_string(), arrow(alias("C"), alias("C")));
    ctx.alias("C".to_string(), Type::Product(vec![alias("B")]));
    ctx.alias("B".to_string(), universal(alias("A")));
    ctx.alias("A".to_string(), Type::Nat);
    let c = Type::Product(vec![universal(Type::Nat)]);
    assert_eq!(ctx.resolve(&alias("E")), arrow(c.clone(), c.clone()));
    assert_eq!(ctx.resolve(&alias("A")), Type::Nat);
    assert_eq!(ctx.resolve(&Type::Product(vec![alias("E"), alias("B")])),
        Type::Product(vec![arrow(c.clone(), c), universal(Type::Nat)]));
}

#[test]
fn checker_compares_aliases_of_aliases_resolved() {
    let mut ctx = Context::new();
    ctx.alias("A".to_string(), alias("B"));
    ctx.alias("B".to_string(), Type::Nat);
    assert_eq!(ctx.type_check(&app(1, abs(2, alias("A"), var(3, 0)), num(4))), Ok(Type::Nat));
    assert_eq!(ctx.type_check(&abs(2, alias("A"), var(3, 0))), Ok(arrow(Type::Nat, Type::Nat)));
    let mut ctx = Context::new();
    ctx.alias("B".to_string(), Type::Nat);
    ctx.alias("A".to_string(), alias("B"));
    assert_eq!(ctx.type_check(&app(1, abs(2, alias("A"), var(3, 0)), num(4))), Ok(Type::Nat));
}

#[test]
fn definitions_in_a_circle_end_after_as_many_passes_as_names() {
    let mut ctx = Context::new();
    ctx.alias("T".to_string(), arrow(alias("T"), Type::Nat));
    assert_eq!(ctx.resolve(&alias("T")), arrow(alias("T"), Type::Nat));
    assert_eq!(ctx.resolve(&Type::Bool), Type::Bool);
    let mut ctx = Context::new();
    ctx.alias("A".to_string(), Type::Product(vec![alias("B")]));
    ctx.alias("B".to_string(), arrow(alias("A"), Type::Nat));
    assert_eq!(
        ctx.resolve(&alias("A")),
        Type::Product(vec![arrow(alias("A"), Type::Nat)])
    );
    assert_eq!(
        ctx.resolve(&alias("B")),
        arrow(Type::Product(vec![alias("B")]), Type::Nat)
    );
    ctx.alias("B".to_string(), Type::Bool);
    assert_eq!(ctx.resolve(&alias("A")), Type::Product(vec![Type::Bool]));
    assert_eq!(ctx.resolve(&alias("B")), Type::Bool);
}

#[test]
fn table_holds_each_type_as_it_is_given() {
    let mut ctx = Context::new();
    ctx.alias("N".to_string(), Type::Nat);
    ctx.alias("M".to_string(), alias("N"));
    assert_eq!(ctx.resolve(&alias("M")), Type::Nat);
    ctx.alias("N".to_string(), Type::Bool);
    assert_eq!(ctx.resolve(&alias("M")), Type::Bool);
    assert_eq!(ctx.resolve(&alias("N")), Type::Bool);
    ctx.alias("M".to_string(), Type::Unit);
    assert_eq!(ctx.resolve(&alias("M")), Type::Unit);
    assert_eq!(ctx.resolve(&alias("N")), Type::Bool);
}

#[test]
fn context_copies_with_its_table_and_stack() {
    let mut ctx = context();
    ctx.push(Type::Bool);
    let copy = ctx.clone();
    ctx.alias("N".to_string(), Type::Unit);
    ctx.pop();
    assert_eq!(copy.resolve(&alias("N")), Type::Nat);
    assert_eq!(copy.resolve(&alias("Outer")), Type::Nat);
    assert_eq!(copy.find(0), Some(&Type::Bool));
    assert_eq!(ctx.resolve(&alias("N")), Type::Unit);
    assert_eq!(ctx.find(0), None);
}

#[test]
fn aliased_type_goes_under_binders_as_it_is() {
    let ctx = context();
    assert_eq!(ctx.resolve(&universal(alias("Open"))), universal(Type::Var(0)));
    assert_eq!(ctx.resolve(&universal(universal(alias("Open")))), universal(universal(Type::Var(0))));
}

#[test]
fn later_definition_replaces_the_earlier() {
    let mut ctx = context();
    assert_eq!(ctx.resolve(&alias("N")), Type::Nat);
    ctx.alias("N".to_string(), Type::Bool);
    assert_eq!(ctx.resolve(&alias("N")), Type::Bool);
    assert_eq!(ctx.resolve(&alias("Pair")), pair_ty());
    ctx.alias("N".to_string(), Type::Unit);
    assert_eq!(ctx.resolve(&alias("N")), Type::Unit);
}

#[test]
fn defining_an_alias_leaves_the_stack() {
    let mut ctx = Context::new();
    ctx.push(Type::Nat);
    ctx.alias("B".to_string(), Type::Bool);
    assert_eq!(ctx.find(0), Some(&Type::Nat));
    assert_eq!(ctx.find(1), None);
    ctx.push(alias("B"));
    assert_eq!(ctx.find(0), Some(&alias("B")));
    assert_eq!(ctx.resolve(&alias("B")), Type::Bool);
}

#[test]
fn checker_resolves_annotations_before_comparing() {
    let mut ctx = context();
    assert_eq!(ctx.type_check(&abs(1, alias("N"), var(2, 0))), Ok(arrow(Type::Nat, Type::Nat)));
    assert_eq!(ctx.type_check(&app(1, abs(2, alias("N"), var(3, 0)), num(4))), Ok(Type::Nat));
    assert_eq!(
        ctx.type_check(&app(1, abs(2, alias("Pair"), var(3, 0)), num(4))),
        Err(TypeError {
            span: sp(2),
            kind: TypeErrorKind::ParameterMismatch(Box::new(pair_ty()), Box::new(Type::Nat), sp(4)),
        })
    );
    assert_eq!(
        ctx.type_check(&abs(1, alias("Missing"), var(2, 0))),
        Ok(arrow(alias("Missing"), alias("Missing")))
    );
}

#[test]
fn checker_resolves_every_kind_of_annotation() {
    let mut ctx = context();
    let injection =
        at(1, Kind::Injection("Some".to_string(), Box::new(num(2)), Box::new(alias("Option"))));
    assert_eq!(ctx.type_check(&injection), Ok(option_ty()));
    let poly = at(
        1,
        Kind::TyApp(
            Box::new(at(2, Kind::TyAbs(Box::new(abs(3, Type::Var(0), var(4, 0)))))),
            Box::new(alias("Pair")),
        ),
    );
    assert_eq!(ctx.type_check(&poly), Ok(arrow(pair_ty(), pair_ty())));
    let unfold = at(1, Kind::Unfold(Box::new(alias("List")), Box::new(unit(2))));
    assert_eq!(ctx.type_check(&unfold), Ok(list_unrolled()));
    let nil = at(2, Kind::Injection("Nil".to_string(), Box::new(unit(3)), Box::new(list_unrolled())));
    let fold = at(1, Kind::Fold(Box::new(alias("List")), Box::new(nil)));
    assert_eq!(ctx.type_check(&fold), Ok(list_ty()));
    let not_rec = at(1, Kind::Fold(Box::new(alias("Pair")), Box::new(unit(2))));
    assert_eq!(
        ctx.type_check(&not_rec),
        Err(TypeError { span: sp(1), kind: TypeErrorKind::NotRec })
    );
}

#[test]
fn de_alias_rewrites_every_annotation_in_a_term() {
    let mut ctx = context();
    let mut term = at(
        1,
        Kind::Product(vec![
            abs(2, alias("N"), var(3, 0)),
            at(4, Kind::TyApp(Box::new(var(5, 0)), Box::new(arrow(alias("Pair"), alias("Missing"))))),
            at(6, Kind::Injection("Some".to_string(), Box::new(num(7)), Box::new(alias("Option")))),
            at(8, Kind::Fold(Box::new(alias("List")), Box::new(unit(9)))),
            at(10, Kind::Unfold(Box::new(alias("List")), Box::new(unit(11)))),
        ]),
    );
    ctx.de_alias(&mut term);
    let expected = at(
        1,
        Kind::Product(vec![
            abs(2, Type::Nat, var(3, 0)),
            at(4, Kind::TyApp(Box::new(var(5, 0)), Box::new(arrow(pair_ty(), alias("Missing"))))),
            at(6, Kind::Injection("Some".to_string(), Box::new(num(7)), Box::new(option_ty()))),
            at(8, Kind::Fold(Box::new(list_ty()), Box::new(unit(9)))),
            at(10, Kind::Unfold(Box::new(list_ty()), Box::new(unit(11)))),
        ]),
    );
    assert_eq!(term, expected);
}

#[test]
fn de_alias_reaches_into_every_subterm() {
    let mut ctx = context();
    let inner = |n: u32| abs(n, alias("N"), var(n + 1, 0));
    let plain = |n: u32| abs(n, Type::Nat, var(n + 1, 0));
    let mut term = at(
        1,
        Kind::Case(
            Box::new(at(2, Kind::Fix(Box::new(inner(3))))),
            vec![
                Arm {
                    span: sp(10),
                    pat: Pattern::Constructor("Some".to_string()),
                    term: Box::new(at(
                        11,
                        Kind::Let(Box::new(inner(12)), Box::new(app(14, inner(15), inner(17)))),
                    )),
                },
                Arm {
                    span: sp(20),
                    pat: Pattern::Any,
                    term: Box::new(at(
                        21,
                        Kind::If(
                            Box::new(at(22, Kind::Projection(Box::new(inner(23)), 4))),
                            Box::new(at(25, Kind::TyAbs(Box::new(inner(26))))),
                            Box::new(inner(28)),
                        ),
                    )),
                },
            ],
        ),
    );
    ctx.de_alias(&mut term);
    let expected = at(
        1,
        Kind::Case(
            Box::new(at(2, Kind::Fix(Box::new(plain(3))))),
            vec![
                Arm {
                    span: sp(10),
                    pat: Pattern::Constructor("Some".to_string()),
                    term: Box::new(at(
                        11,
                        Kind::Let(Box::new(plain(12)), Box::new(app(14, plain(15), plain(17)))),
                    )),
                },
                Arm {
                    span: sp(20),
                    pat: Pattern::Any,
                    term: Box::new(at(
                        21,
                        Kind::If(
                            Box::new(at(22, Kind::Projection(Box::new(plain(23)), 4))),
                            Box::new(at(25, Kind::TyAbs(Box::new(plain(26))))),
                            Box::new(plain(28)),
                        ),
                    )),
                },
            ],
        ),
    );
    assert_eq!(term, expected);
}

#[test]
fn de_alias_leaves_the_context_and_plain_terms() {
    let mut ctx = context();
    ctx.push(Type::Bool);
    let mut term = app(1, abs(2, Type::Nat, var(3, 0)), num(4));
    ctx.de_alias(&mut term);
    assert_eq!(term, app(1, abs(2, Type::Nat, var(3, 0)), num(4)));
    assert_eq!(ctx.find(0), Some(&Type::Bool));
    assert_eq!(ctx.find(1), None);
    assert_eq!(ctx.resolve(&alias("N")), Type::Nat);
}

#[test]
fn checking_a_de_aliased_term_gives_the_same_type() {
    let mut ctx = context();
    let mut term = app(1, abs(2, alias("N"), var(3, 0)), num(4));
    let before = ctx.type_check(&term);
    ctx.de_alias(&mut term);
    assert_eq!(ctx.type_check(&term), before);
    assert_eq!(before, Ok(Type::Nat));
}

#[test]
fn patterns_copy_by_value() {
    assert_eq!(Pattern::Any.clone(), Pattern::Any);
    assert_eq!(
        Pattern::Constructor("A".to_string()).duplicate(),
        Pattern::Constructor("A".to_string())
    );
    assert_ne!(Pattern::Constructor("A".to_string()), Pattern::Constructor("B".to_string()));
}

#[test]
fn aliaser_tells_whether_anything_is_left_to_resolve() {
    let ctx = context();
    let aliaser = ctx.aliaser();
    assert!(aliaser.settled(&Type::Nat));
    assert!(aliaser.settled(&alias("Missing")));
    assert!(!aliaser.settled(&alias("N")));
    assert!(!aliaser.settled(&arrow(Type::Nat, Type::Product(vec![Type::Bool, alias("Pair")]))));
    assert!(aliaser.settled(&arrow(Type::Nat, Type::Product(vec![Type::Bool, alias("pair")]))));
    assert!(!aliaser.settled(&Type::Variant(vec![field("l", universal(rec(alias("List"))))])));
    assert!(aliaser.settled(&Type::Variant(vec![field("List", Type::Var(3))])));
    assert!(aliaser.settled(&aliaser.visit(&alias("Outer"))));
}
