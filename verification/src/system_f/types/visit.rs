//! Walking a type: one shared structural recursion, and the traversals built
//! on it.
//!
//! A traversal has three hooks: what stands in place of a free variable, what
//! stands in place of an alias, and what is made of any other node once its
//! children have been walked. The walk does the rest: it goes into every
//! child of every node, rebuilds the node from what came back, and counts the
//! binders it has gone under, so that a traversal is asked about a variable
//! only where that variable is free. A traversal that changes one shape of
//! node in its hook still has every other subtree walked.

use vstd::prelude::*;
use super::{type_views, variant_views, Type, TypeView, Variant, VariantView};

verus! {

/// What a traversal does where the walk hands over to it.
pub struct Hooks {
    /// The type that replaces a free variable: called with the number of
    /// binders above the variable, and its index.
    pub var: spec_fn(nat, usize) -> TypeView,
    /// The type that replaces an alias, by name.
    pub alias: spec_fn(Seq<char>) -> TypeView,
    /// The type that replaces any other node: called with the node rebuilt
    /// from its walked children, whatever its shape. The hook that changes
    /// nothing gives the node back.
    pub node: spec_fn(TypeView) -> TypeView,
}

/// The hook that gives a node back as it is.
pub open spec fn keep_node() -> spec_fn(TypeView) -> TypeView {
    |node: TypeView| node
}

/// What stands for `t`, which stands under `depth` binders, before the hook
/// for nodes has seen it: a free variable or an alias replaced as its hook
/// says, a bound variable as it is, and any other node rebuilt from its
/// walked children.
///
/// A variable is free when its index is at least the number of binders above
/// it; `Universal`, `Existential`, `Abstraction` and `Rec` each bind one
/// variable in their body.
pub open spec fn rebuilt(hooks: Hooks, depth: nat, t: TypeView) -> TypeView
    decreases t,
{
    match t {
        TypeView::Unit => TypeView::Unit,
        TypeView::Nat => TypeView::Nat,
        TypeView::Bool => TypeView::Bool,
        TypeView::Alias(name) => (hooks.alias)(name),
        TypeView::Var(idx) => if idx >= depth {
            (hooks.var)(depth, idx)
        } else {
            TypeView::Var(idx)
        },
        TypeView::Variant(vs) => TypeView::Variant(
            Seq::new(
                vs.len(),
                |i: int|
                    if 0 <= i < vs.len() {
                        VariantView {
                            label: vs[i].label,
                            ty: finished(hooks, vs[i].ty, rebuilt(hooks, depth, vs[i].ty)),
                        }
                    } else {
                        VariantView { label: Seq::empty(), ty: TypeView::Unit }
                    },
            ),
        ),
        TypeView::Product(ts) => TypeView::Product(
            Seq::new(
                ts.len(),
                |i: int|
                    if 0 <= i < ts.len() {
                        finished(hooks, ts[i], rebuilt(hooks, depth, ts[i]))
                    } else {
                        TypeView::Unit
                    },
            ),
        ),
        TypeView::Arrow(a, b) => TypeView::Arrow(
            Box::new(finished(hooks, *a, rebuilt(hooks, depth, *a))),
            Box::new(finished(hooks, *b, rebuilt(hooks, depth, *b))),
        ),
        TypeView::Universal(body) => TypeView::Universal(
            Box::new(finished(hooks, *body, rebuilt(hooks, depth + 1, *body))),
        ),
        TypeView::Existential(body) => TypeView::Existential(
            Box::new(finished(hooks, *body, rebuilt(hooks, depth + 1, *body))),
        ),
        TypeView::Abstraction(kind, body) => TypeView::Abstraction(
            kind,
            Box::new(finished(hooks, *body, rebuilt(hooks, depth + 1, *body))),
        ),
        TypeView::Application(a, b) => TypeView::Application(
            Box::new(finished(hooks, *a, rebuilt(hooks, depth, *a))),
            Box::new(finished(hooks, *b, rebuilt(hooks, depth, *b))),
        ),
        TypeView::Rec(body) => TypeView::Rec(
            Box::new(finished(hooks, *body, rebuilt(hooks, depth + 1, *body))),
        ),
    }
}

/// What the walk makes of `t` once `node` stands for it: a variable or an
/// alias has had its own hook, and any other node goes to the hook for nodes.
pub open spec fn finished(hooks: Hooks, t: TypeView, node: TypeView) -> TypeView {
    if t is Var || t is Alias {
        node
    } else {
        (hooks.node)(node)
    }
}

/// The result of walking `t`, which stands under `depth` binders, with the
/// hooks `hooks`: every free variable and every alias replaced as its hook
/// says, and every other node, innermost first, rebuilt from its walked
/// children and replaced as the hook for nodes says.
pub open spec fn walk(hooks: Hooks, depth: nat, t: TypeView) -> TypeView {
    finished(hooks, t, rebuilt(hooks, depth, t))
}

/// Under more binders than an index can count, no variable is free, and the
/// walk no longer depends on the depth.
pub proof fn lemma_walk_beyond(hooks: Hooks, d1: nat, d2: nat, t: TypeView)
    requires
        d1 > usize::MAX,
        d2 > usize::MAX,
    ensures
        walk(hooks, d1, t) == walk(hooks, d2, t),
    decreases t,
{
    match t {
        TypeView::Variant(vs) => {
            assert forall|i: int| 0 <= i < vs.len() implies walk(hooks, d1, vs[i].ty) == walk(
                hooks,
                d2,
                vs[i].ty,
            ) by {
                lemma_walk_beyond(hooks, d1, d2, vs[i].ty);
            }
            assert(rebuilt(hooks, d1, t)->Variant_0 =~= rebuilt(hooks, d2, t)->Variant_0);
        },
        TypeView::Product(ts) => {
            assert forall|i: int| 0 <= i < ts.len() implies walk(hooks, d1, ts[i]) == walk(
                hooks,
                d2,
                ts[i],
            ) by {
                lemma_walk_beyond(hooks, d1, d2, ts[i]);
            }
            assert(rebuilt(hooks, d1, t)->Product_0 =~= rebuilt(hooks, d2, t)->Product_0);
        },
        TypeView::Arrow(a, b) => {
            lemma_walk_beyond(hooks, d1, d2, *a);
            lemma_walk_beyond(hooks, d1, d2, *b);
        },
        TypeView::Universal(body) => {
            lemma_walk_beyond(hooks, d1 + 1, d2 + 1, *body);
        },
        TypeView::Existential(body) => {
            lemma_walk_beyond(hooks, d1 + 1, d2 + 1, *body);
        },
        TypeView::Abstraction(_, body) => {
            lemma_walk_beyond(hooks, d1 + 1, d2 + 1, *body);
        },
        TypeView::Application(a, b) => {
            lemma_walk_beyond(hooks, d1, d2, *a);
            lemma_walk_beyond(hooks, d1, d2, *b);
        },
        TypeView::Rec(body) => {
            lemma_walk_beyond(hooks, d1 + 1, d2 + 1, *body);
        },
        _ => {},
    }
}

/// A traversal of a type: what to do at a free variable, at an alias, and at
/// any other node once its children have been walked.
pub trait TypeVisitor {
    /// What this traversal does at its hooks.
    spec fn hooks(&self) -> Hooks;

    /// The type that replaces the free variable `idx`, met under `depth`
    /// binders.
    fn visit_var(&self, depth: usize, idx: usize) -> (r: Type)
        requires
            depth <= idx,
        ensures
            r@ == (self.hooks().var)(depth as nat, idx),
    ;

    /// The type that replaces the alias `name`.
    fn visit_alias(&self, name: &String) -> (r: Type)
        ensures
            r@ == (self.hooks().alias)(name@),
    ;

    /// The type that replaces `node`, a node that is no variable and no
    /// alias, rebuilt from its walked children. A traversal that leaves
    /// nodes alone gives `node` back; one that has a mind to a shape of node
    /// matches on it here.
    fn visit_node(&self, node: Type) -> (r: Type)
        ensures
            r@ == (self.hooks().node)(node@),
    ;
}

/// The number of binders that `depth` stands for: `None` is any number that
/// no index reaches.
pub open spec fn depth_of(depth: Option<usize>) -> nat {
    match depth {
        Some(d) => d as nat,
        None => (usize::MAX + 1) as nat,
    }
}

/// The depth one binder further down.
fn deeper(depth: Option<usize>) -> (r: Option<usize>)
    ensures
        depth_of(depth) < usize::MAX ==> depth_of(r) == depth_of(depth) + 1,
        depth_of(depth) >= usize::MAX ==> r.is_none(),
{
    match depth {
        Some(d) => if d < usize::MAX {
            Some(d + 1)
        } else {
            None
        },
        None => None,
    }
}

fn walk_body<V: TypeVisitor>(visitor: &V, depth: Option<usize>, body: &Type) -> (r: Type)
    ensures
        r@ == walk(visitor.hooks(), depth_of(depth) + 1, body@),
    decreases body, 1nat,
{
    let inner = deeper(depth);
    proof {
        if inner.is_none() {
            lemma_walk_beyond(visitor.hooks(), depth_of(inner), depth_of(depth) + 1, body@);
        }
    }
    walk_at(visitor, inner, body)
}

fn walk_types<V: TypeVisitor>(visitor: &V, depth: Option<usize>, ts: &Vec<Type>) -> (r: Vec<Type>)
    ensures
        r.len() == ts.len(),
        forall|i: int|
            0 <= i < ts.len() ==> (#[trigger] r@[i])@ == walk(
                visitor.hooks(),
                depth_of(depth),
                ts@[i]@,
            ),
    decreases ts, 0nat,
{
    let mut out: Vec<Type> = Vec::new();
    let mut i: usize = 0;
    while i < ts.len()
        invariant
            i <= ts.len(),
            out.len() == i,
            forall|j: int|
                0 <= j < i ==> (#[trigger] out@[j])@ == walk(
                    visitor.hooks(),
                    depth_of(depth),
                    ts@[j]@,
                ),
        decreases ts.len() - i,
    {
        let t = walk_at(visitor, depth, &ts[i]);
        out.push(t);
        i += 1;
    }
    out
}

fn walk_variants<V: TypeVisitor>(visitor: &V, depth: Option<usize>, vs: &Vec<Variant>) -> (r: Vec<
    Variant,
>)
    ensures
        r.len() == vs.len(),
        forall|i: int|
            0 <= i < vs.len() ==> (#[trigger] r@[i])@ == (VariantView {
                label: vs@[i].label@,
                ty: walk(visitor.hooks(), depth_of(depth), vs@[i].ty@),
            }),
    decreases vs, 0nat,
{
    let mut out: Vec<Variant> = Vec::new();
    let mut i: usize = 0;
    while i < vs.len()
        invariant
            i <= vs.len(),
            out.len() == i,
            forall|j: int|
                0 <= j < i ==> (#[trigger] out@[j])@ == (VariantView {
                    label: vs@[j].label@,
                    ty: walk(visitor.hooks(), depth_of(depth), vs@[j].ty@),
                }),
        decreases vs.len() - i,
    {
        let ty = walk_at(visitor, depth, &vs[i].ty);
        out.push(Variant { label: vs[i].label.clone(), ty });
        i += 1;
    }
    out
}

fn walk_at<V: TypeVisitor>(visitor: &V, depth: Option<usize>, ty: &Type) -> (r: Type)
    ensures
        r@ == walk(visitor.hooks(), depth_of(depth), ty@),
    decreases ty, 0nat,
{
    let node = match ty {
        Type::Unit => Type::Unit,
        Type::Nat => Type::Nat,
        Type::Bool => Type::Bool,
        Type::Alias(name) => {
            return visitor.visit_alias(name);
        },
        Type::Var(idx) => {
            return match depth {
                Some(d) => if *idx >= d {
                    visitor.visit_var(d, *idx)
                } else {
                    Type::Var(*idx)
                },
                None => Type::Var(*idx),
            };
        },
        Type::Variant(vs) => {
            let out = walk_variants(visitor, depth, vs);
            proof {
                Type::lemma_view_variant(*vs);
                Type::lemma_view_variant(out);
                assert(variant_views(out@) =~= rebuilt(
                    visitor.hooks(),
                    depth_of(depth),
                    ty@,
                )->Variant_0);
            }
            Type::Variant(out)
        },
        Type::Product(ts) => {
            let out = walk_types(visitor, depth, ts);
            proof {
                Type::lemma_view_product(*ts);
                Type::lemma_view_product(out);
                assert(type_views(out@) =~= rebuilt(
                    visitor.hooks(),
                    depth_of(depth),
                    ty@,
                )->Product_0);
            }
            Type::Product(out)
        },
        Type::Arrow(a, b) => Type::Arrow(
            Box::new(walk_at(visitor, depth, a)),
            Box::new(walk_at(visitor, depth, b)),
        ),
        Type::Universal(body) => Type::Universal(Box::new(walk_body(visitor, depth, body))),
        Type::Existential(body) => Type::Existential(Box::new(walk_body(visitor, depth, body))),
        Type::Abstraction(kind, body) => Type::Abstraction(
            kind.duplicate(),
            Box::new(walk_body(visitor, depth, body)),
        ),
        Type::Application(a, b) => Type::Application(
            Box::new(walk_at(visitor, depth, a)),
            Box::new(walk_at(visitor, depth, b)),
        ),
        Type::Rec(body) => Type::Rec(Box::new(walk_body(visitor, depth, body))),
    };
    assert(node@ == rebuilt(visitor.hooks(), depth_of(depth), ty@));
    visitor.visit_node(node)
}

/// Walks `ty`, which stands under `depth` binders, and returns the rewritten
/// type: every free variable and every alias replaced as `visitor` says,
/// and every other node rebuilt from its walked children and handed to
/// `visitor` in its turn.
pub fn walk_ty<V: TypeVisitor>(visitor: &V, depth: usize, ty: &Type) -> (r: Type)
    ensures
        r@ == walk(visitor.hooks(), depth as nat, ty@),
{
    walk_at(visitor, Some(depth), ty)
}

} // verus!
