//! Type aliases: a table from names to types, and the traversal that puts
//! the aliased type in place of each name the table knows.
//!
//! A table holds each type as it was given. A definition may mention other
//! names of the table, so a type is resolved pass by pass: each pass puts the
//! type of every known name in its place, and what was put in is resolved by
//! the next. There are as many passes as the table has names. Where the
//! definitions do not go round in a circle that is enough to resolve a type
//! in full; where they do, resolution ends there all the same.

use vstd::prelude::*;
use crate::system_f::terms::{
    arm_views,
    term_views,
    Arm,
    ArmView,
    Kind,
    KindView,
    Pattern,
    Term,
    TermView,
};
use super::visit::{keep_node, walk, walk_ty, Hooks, TypeVisitor};
use super::{type_views, variant_views, Type, TypeView, Variant};

verus! {

/// One pass of resolution: the traversal that replaces each alias the table
/// knows by the type it stands for. A name the table does not know stays as
/// it is, and what is put in is not walked again in this pass.
pub open spec fn resolve_hooks(aliases: Map<Seq<char>, TypeView>) -> Hooks {
    Hooks {
        var: |depth: nat, idx: usize| TypeView::Var(idx),
        alias: |name: Seq<char>|
            if aliases.dom().contains(name) {
                aliases[name]
            } else {
                TypeView::Alias(name)
            },
        node: keep_node(),
    }
}

/// `t` after one pass: every known alias replaced by the type it stands for,
/// as the table holds it.
pub open spec fn resolved_once(aliases: Map<Seq<char>, TypeView>, t: TypeView) -> TypeView {
    walk(resolve_hooks(aliases), 0, t)
}

/// `t` after `passes` passes.
pub open spec fn resolved_times(
    aliases: Map<Seq<char>, TypeView>,
    passes: nat,
    t: TypeView,
) -> TypeView
    decreases passes,
{
    if passes == 0 {
        t
    } else {
        resolved_times(aliases, (passes - 1) as nat, resolved_once(aliases, t))
    }
}

/// `t` resolved against the table: after as many passes as the table has
/// names. No chain of definitions that does not come back to a name it has
/// been through is longer than that.
pub open spec fn resolved(aliases: Map<Seq<char>, TypeView>, t: TypeView) -> TypeView {
    resolved_times(aliases, aliases.dom().len(), t)
}

/// Whether `t` mentions no alias of the table.
pub open spec fn alias_free(aliases: Map<Seq<char>, TypeView>, t: TypeView) -> bool
    decreases t,
{
    match t {
        TypeView::Alias(name) => !aliases.dom().contains(name),
        TypeView::Variant(vs) => forall|i: int|
            0 <= i < vs.len() ==> alias_free(aliases, (#[trigger] vs[i]).ty),
        TypeView::Product(ts) => forall|i: int|
            0 <= i < ts.len() ==> alias_free(aliases, #[trigger] ts[i]),
        TypeView::Arrow(a, b) => alias_free(aliases, *a) && alias_free(aliases, *b),
        TypeView::Universal(body) => alias_free(aliases, *body),
        TypeView::Existential(body) => alias_free(aliases, *body),
        TypeView::Abstraction(_, body) => alias_free(aliases, *body),
        TypeView::Application(a, b) => alias_free(aliases, *a) && alias_free(aliases, *b),
        TypeView::Rec(body) => alias_free(aliases, *body),
        _ => true,
    }
}

/// Whether no type in the table mentions an alias of the table.
pub open spec fn closed(aliases: Map<Seq<char>, TypeView>) -> bool {
    forall|name: Seq<char>|
        aliases.dom().contains(name) ==> alias_free(aliases, #[trigger] aliases[name])
}

/// Resolution leaves a type that mentions no alias of the table as it is.
pub proof fn lemma_resolve_alias_free(aliases: Map<Seq<char>, TypeView>, depth: nat, t: TypeView)
    requires
        alias_free(aliases, t),
    ensures
        walk(resolve_hooks(aliases), depth, t) == t,
    decreases t,
{
    let hooks = resolve_hooks(aliases);
    match t {
        TypeView::Variant(vs) => {
            assert forall|i: int| 0 <= i < vs.len() implies walk(hooks, depth, vs[i].ty)
                == vs[i].ty by {
                lemma_resolve_alias_free(aliases, depth, vs[i].ty);
            }
            assert(walk(hooks, depth, t)->Variant_0 =~= vs);
        },
        TypeView::Product(ts) => {
            assert forall|i: int| 0 <= i < ts.len() implies walk(hooks, depth, ts[i])
                == ts[i] by {
                lemma_resolve_alias_free(aliases, depth, ts[i]);
            }
            assert(walk(hooks, depth, t)->Product_0 =~= ts);
        },
        TypeView::Arrow(a, b) => {
            lemma_resolve_alias_free(aliases, depth, *a);
            lemma_resolve_alias_free(aliases, depth, *b);
        },
        TypeView::Universal(body) => {
            lemma_resolve_alias_free(aliases, depth + 1, *body);
        },
        TypeView::Existential(body) => {
            lemma_resolve_alias_free(aliases, depth + 1, *body);
        },
        TypeView::Abstraction(_, body) => {
            lemma_resolve_alias_free(aliases, depth + 1, *body);
        },
        TypeView::Application(a, b) => {
            lemma_resolve_alias_free(aliases, depth, *a);
            lemma_resolve_alias_free(aliases, depth, *b);
        },
        TypeView::Rec(body) => {
            lemma_resolve_alias_free(aliases, depth + 1, *body);
        },
        _ => {},
    }
}

/// Passes leave a type that mentions no alias of the table as it is.
pub proof fn lemma_resolved_times_alias_free(
    aliases: Map<Seq<char>, TypeView>,
    passes: nat,
    t: TypeView,
)
    requires
        alias_free(aliases, t),
    ensures
        resolved_times(aliases, passes, t) == t,
    decreases passes,
{
    if passes > 0 {
        lemma_resolve_alias_free(aliases, 0, t);
        lemma_resolved_times_alias_free(aliases, (passes - 1) as nat, t);
    }
}

/// Whether every alias of the table that `t` mentions has a number below
/// `bound`.
pub open spec fn numbered_below(
    aliases: Map<Seq<char>, TypeView>,
    number: spec_fn(Seq<char>) -> nat,
    bound: nat,
    t: TypeView,
) -> bool
    decreases t,
{
    match t {
        TypeView::Alias(name) => aliases.dom().contains(name) ==> number(name) < bound,
        TypeView::Variant(vs) => forall|i: int|
            0 <= i < vs.len() ==> numbered_below(aliases, number, bound, (#[trigger] vs[i]).ty),
        TypeView::Product(ts) => forall|i: int|
            0 <= i < ts.len() ==> numbered_below(aliases, number, bound, #[trigger] ts[i]),
        TypeView::Arrow(a, b) => numbered_below(aliases, number, bound, *a) && numbered_below(
            aliases,
            number,
            bound,
            *b,
        ),
        TypeView::Universal(body) => numbered_below(aliases, number, bound, *body),
        TypeView::Existential(body) => numbered_below(aliases, number, bound, *body),
        TypeView::Abstraction(_, body) => numbered_below(aliases, number, bound, *body),
        TypeView::Application(a, b) => numbered_below(aliases, number, bound, *a)
            && numbered_below(aliases, number, bound, *b),
        TypeView::Rec(body) => numbered_below(aliases, number, bound, *body),
        _ => true,
    }
}

/// Whether `number` numbers the names of the table in the order of their
/// definitions: each name has a number below the count of names, and its
/// type mentions only names of the table with a lower number.
pub open spec fn numbers_definitions(
    aliases: Map<Seq<char>, TypeView>,
    number: spec_fn(Seq<char>) -> nat,
) -> bool {
    forall|name: Seq<char>|
        aliases.dom().contains(name) ==> number(name) < aliases.dom().len() && numbered_below(
            aliases,
            number,
            number(name),
            #[trigger] aliases[name],
        )
}

/// Whether the definitions of the table do not go round in a circle: no
/// alias reaches itself through its definition. That is so exactly when the
/// names can be numbered so that each definition mentions only names of the
/// table with a lower number.
pub open spec fn acyclic(aliases: Map<Seq<char>, TypeView>) -> bool {
    exists|number: spec_fn(Seq<char>) -> nat| numbers_definitions(aliases, number)
}

/// What is numbered below a bound is numbered below any higher bound.
pub proof fn lemma_numbered_below_more(
    aliases: Map<Seq<char>, TypeView>,
    number: spec_fn(Seq<char>) -> nat,
    bound: nat,
    more: nat,
    t: TypeView,
)
    requires
        numbered_below(aliases, number, bound, t),
        bound <= more,
    ensures
        numbered_below(aliases, number, more, t),
    decreases t,
{
    match t {
        TypeView::Variant(vs) => {
            assert forall|i: int| 0 <= i < vs.len() implies numbered_below(
                aliases,
                number,
                more,
                (#[trigger] vs[i]).ty,
            ) by {
                lemma_numbered_below_more(aliases, number, bound, more, vs[i].ty);
            }
        },
        TypeView::Product(ts) => {
            assert forall|i: int| 0 <= i < ts.len() implies numbered_below(
                aliases,
                number,
                more,
                #[trigger] ts[i],
            ) by {
                let components = t->Product_0;
                assert(numbered_below(aliases, number, bound, components[i]));
                lemma_numbered_below_more(aliases, number, bound, more, ts[i]);
            }
        },
        TypeView::Arrow(a, b) => {
            lemma_numbered_below_more(aliases, number, bound, more, *a);
            lemma_numbered_below_more(aliases, number, bound, more, *b);
        },
        TypeView::Universal(body) => {
            lemma_numbered_below_more(aliases, number, bound, more, *body);
        },
        TypeView::Existential(body) => {
            lemma_numbered_below_more(aliases, number, bound, more, *body);
        },
        TypeView::Abstraction(_, body) => {
            lemma_numbered_below_more(aliases, number, bound, more, *body);
        },
        TypeView::Application(a, b) => {
            lemma_numbered_below_more(aliases, number, bound, more, *a);
            lemma_numbered_below_more(aliases, number, bound, more, *b);
        },
        TypeView::Rec(body) => {
            lemma_numbered_below_more(aliases, number, bound, more, *body);
        },
        _ => {},
    }
}

/// A type whose aliases of the table are numbered below zero mentions none,
/// and the other way round.
pub proof fn lemma_numbered_below_zero(
    aliases: Map<Seq<char>, TypeView>,
    number: spec_fn(Seq<char>) -> nat,
    t: TypeView,
)
    ensures
        numbered_below(aliases, number, 0, t) == alias_free(aliases, t),
    decreases t,
{
    match t {
        TypeView::Variant(vs) => {
            assert forall|i: int| 0 <= i < vs.len() implies numbered_below(
                aliases,
                number,
                0,
                (#[trigger] vs[i]).ty,
            ) == alias_free(aliases, vs[i].ty) by {
                lemma_numbered_below_zero(aliases, number, vs[i].ty);
            }
        },
        TypeView::Product(ts) => {
            assert forall|i: int| 0 <= i < ts.len() implies numbered_below(
                aliases,
                number,
                0,
                #[trigger] ts[i],
            ) == alias_free(aliases, ts[i]) by {
                lemma_numbered_below_zero(aliases, number, ts[i]);
            }
            let components = t->Product_0;
            if numbered_below(aliases, number, 0, t) {
                assert forall|i: int| 0 <= i < ts.len() implies alias_free(
                    aliases,
                    #[trigger] ts[i],
                ) by {
                    assert(numbered_below(aliases, number, 0, components[i]));
                }
            }
            if alias_free(aliases, t) {
                assert forall|i: int| 0 <= i < ts.len() implies numbered_below(
                    aliases,
                    number,
                    0,
                    #[trigger] ts[i],
                ) by {
                    assert(alias_free(aliases, components[i]));
                }
            }
        },
        TypeView::Arrow(a, b) => {
            lemma_numbered_below_zero(aliases, number, *a);
            lemma_numbered_below_zero(aliases, number, *b);
        },
        TypeView::Universal(body) => {
            lemma_numbered_below_zero(aliases, number, *body);
        },
        TypeView::Existential(body) => {
            lemma_numbered_below_zero(aliases, number, *body);
        },
        TypeView::Abstraction(_, body) => {
            lemma_numbered_below_zero(aliases, number, *body);
        },
        TypeView::Application(a, b) => {
            lemma_numbered_below_zero(aliases, number, *a);
            lemma_numbered_below_zero(aliases, number, *b);
        },
        TypeView::Rec(body) => {
            lemma_numbered_below_zero(aliases, number, *body);
        },
        _ => {},
    }
}

/// Every type mentions only names of the table numbered below their count.
pub proof fn lemma_numbered_below_count(
    aliases: Map<Seq<char>, TypeView>,
    number: spec_fn(Seq<char>) -> nat,
    t: TypeView,
)
    requires
        numbers_definitions(aliases, number),
    ensures
        numbered_below(aliases, number, aliases.dom().len(), t),
    decreases t,
{
    match t {
        TypeView::Alias(name) => {
            if aliases.dom().contains(name) {
                assert(numbered_below(aliases, number, number(name), aliases[name]));
            }
        },
        TypeView::Variant(vs) => {
            assert forall|i: int| 0 <= i < vs.len() implies numbered_below(
                aliases,
                number,
                aliases.dom().len(),
                (#[trigger] vs[i]).ty,
            ) by {
                lemma_numbered_below_count(aliases, number, vs[i].ty);
            }
        },
        TypeView::Product(ts) => {
            assert forall|i: int| 0 <= i < ts.len() implies numbered_below(
                aliases,
                number,
                aliases.dom().len(),
                #[trigger] ts[i],
            ) by {
                lemma_numbered_below_count(aliases, number, ts[i]);
            }
        },
        TypeView::Arrow(a, b) => {
            lemma_numbered_below_count(aliases, number, *a);
            lemma_numbered_below_count(aliases, number, *b);
        },
        TypeView::Universal(body) => {
            lemma_numbered_below_count(aliases, number, *body);
        },
        TypeView::Existential(body) => {
            lemma_numbered_below_count(aliases, number, *body);
        },
        TypeView::Abstraction(_, body) => {
            lemma_numbered_below_count(aliases, number, *body);
        },
        TypeView::Application(a, b) => {
            lemma_numbered_below_count(aliases, number, *a);
            lemma_numbered_below_count(aliases, number, *b);
        },
        TypeView::Rec(body) => {
            lemma_numbered_below_count(aliases, number, *body);
        },
        _ => {},
    }
}

/// A pass lowers the bound by one: what is put in for a name mentions only
/// names with a lower number.
pub proof fn lemma_pass_lowers(
    aliases: Map<Seq<char>, TypeView>,
    number: spec_fn(Seq<char>) -> nat,
    bound: nat,
    depth: nat,
    t: TypeView,
)
    requires
        numbers_definitions(aliases, number),
        numbered_below(aliases, number, bound + 1, t),
    ensures
        numbered_below(aliases, number, bound, walk(resolve_hooks(aliases), depth, t)),
    decreases t,
{
    let hooks = resolve_hooks(aliases);
    let out = walk(hooks, depth, t);
    match t {
        TypeView::Alias(name) => {
            if aliases.dom().contains(name) {
                assert(numbered_below(aliases, number, number(name), aliases[name]));
                lemma_numbered_below_more(aliases, number, number(name), bound, aliases[name]);
            }
        },
        TypeView::Variant(vs) => {
            let ws = out->Variant_0;
            assert forall|i: int| 0 <= i < ws.len() implies numbered_below(
                aliases,
                number,
                bound,
                (#[trigger] ws[i]).ty,
            ) by {
                assert(numbered_below(aliases, number, bound + 1, vs[i].ty));
                lemma_pass_lowers(aliases, number, bound, depth, vs[i].ty);
            }
        },
        TypeView::Product(ts) => {
            let ws = out->Product_0;
            assert forall|i: int| 0 <= i < ws.len() implies numbered_below(
                aliases,
                number,
                bound,
                #[trigger] ws[i],
            ) by {
                let components = t->Product_0;
                assert(numbered_below(aliases, number, bound + 1, components[i]));
                lemma_pass_lowers(aliases, number, bound, depth, ts[i]);
            }
        },
        TypeView::Arrow(a, b) => {
            lemma_pass_lowers(aliases, number, bound, depth, *a);
            lemma_pass_lowers(aliases, number, bound, depth, *b);
        },
        TypeView::Universal(body) => {
            lemma_pass_lowers(aliases, number, bound, depth + 1, *body);
        },
        TypeView::Existential(body) => {
            lemma_pass_lowers(aliases, number, bound, depth + 1, *body);
        },
        TypeView::Abstraction(_, body) => {
            lemma_pass_lowers(aliases, number, bound, depth + 1, *body);
        },
        TypeView::Application(a, b) => {
            lemma_pass_lowers(aliases, number, bound, depth, *a);
            lemma_pass_lowers(aliases, number, bound, depth, *b);
        },
        TypeView::Rec(body) => {
            lemma_pass_lowers(aliases, number, bound, depth + 1, *body);
        },
        _ => {},
    }
}

/// As many passes as the bound leave no alias of the table.
pub proof fn lemma_passes_settle(
    aliases: Map<Seq<char>, TypeView>,
    number: spec_fn(Seq<char>) -> nat,
    bound: nat,
    passes: nat,
    t: TypeView,
)
    requires
        numbers_definitions(aliases, number),
        numbered_below(aliases, number, bound, t),
        bound <= passes,
    ensures
        alias_free(aliases, resolved_times(aliases, passes, t)),
    decreases passes,
{
    if bound == 0 {
        lemma_numbered_below_zero(aliases, number, t);
        lemma_resolved_times_alias_free(aliases, passes, t);
    } else {
        lemma_pass_lowers(aliases, number, (bound - 1) as nat, 0, t);
        lemma_passes_settle(
            aliases,
            number,
            (bound - 1) as nat,
            (passes - 1) as nat,
            resolved_once(aliases, t),
        );
    }
}

/// Resolution is full where the definitions do not go round in a circle: the
/// resolved type mentions no alias of the table.
pub proof fn resolution_is_full(aliases: Map<Seq<char>, TypeView>, t: TypeView)
    requires
        acyclic(aliases),
    ensures
        alias_free(aliases, resolved(aliases, t)),
{
    let number = choose|number: spec_fn(Seq<char>) -> nat| numbers_definitions(aliases, number);
    lemma_numbered_below_count(aliases, number, t);
    lemma_passes_settle(aliases, number, aliases.dom().len(), aliases.dom().len(), t);
}

/// A table of finitely many names in which no type mentions a name of the
/// table does not go round in a circle.
pub proof fn closed_table_is_acyclic(aliases: Map<Seq<char>, TypeView>)
    requires
        closed(aliases),
        aliases.dom().finite(),
    ensures
        acyclic(aliases),
{
    let number = |name: Seq<char>| 0nat;
    assert forall|name: Seq<char>| aliases.dom().contains(name) implies number(name)
        < aliases.dom().len() && numbered_below(aliases, number, number(name), #[trigger] aliases[name]) by {
        lemma_numbered_below_zero(aliases, number, aliases[name]);
        vstd::set_lib::lemma_set_empty_equivalency_len(aliases.dom());
    }
    assert(numbers_definitions(aliases, number));
}

/// The table that a list of definitions stands for: each name with the type
/// of its latest definition.
pub open spec fn alias_map(entries: Seq<(String, Type)>) -> Map<Seq<char>, TypeView>
    decreases entries.len(),
{
    if entries.len() == 0 {
        Map::empty()
    } else {
        alias_map(entries.drop_last()).insert(entries.last().0@, entries.last().1@)
    }
}

/// A name that no definition has is not in the table.
pub proof fn lemma_alias_map_absent(entries: Seq<(String, Type)>, name: Seq<char>)
    requires
        forall|j: int| 0 <= j < entries.len() ==> (#[trigger] entries[j]).0@ != name,
    ensures
        !alias_map(entries).dom().contains(name),
    decreases entries.len(),
{
    if entries.len() > 0 {
        let rest = entries.drop_last();
        assert forall|j: int| 0 <= j < rest.len() implies (#[trigger] rest[j]).0@ != name by {
            assert(rest[j] == entries[j]);
        }
        lemma_alias_map_absent(rest, name);
        assert(entries[entries.len() - 1].0@ != name);
    }
}

/// A name stands for the type of its last definition.
pub proof fn lemma_alias_map_last(entries: Seq<(String, Type)>, name: Seq<char>, i: int)
    requires
        0 <= i < entries.len(),
        entries[i].0@ == name,
        forall|j: int| i < j < entries.len() ==> (#[trigger] entries[j]).0@ != name,
    ensures
        alias_map(entries).dom().contains(name),
        alias_map(entries)[name] == entries[i].1@,
    decreases entries.len(),
{
    if i < entries.len() - 1 {
        let rest = entries.drop_last();
        assert(rest[i] == entries[i]);
        assert forall|j: int| i < j < rest.len() implies (#[trigger] rest[j]).0@ != name by {
            assert(rest[j] == entries[j]);
        }
        lemma_alias_map_last(rest, name, i);
        assert(entries[entries.len() - 1].0@ != name);
    }
}

/// Two lists of definitions that agree name by name, and in the models of
/// their types, stand for the same table.
pub proof fn lemma_alias_map_by_views(a: Seq<(String, Type)>, b: Seq<(String, Type)>)
    requires
        a.len() == b.len(),
        forall|i: int|
            0 <= i < a.len() ==> (#[trigger] a[i]).0@ == (#[trigger] b[i]).0@ && a[i].1@
                == b[i].1@,
    ensures
        alias_map(a) == alias_map(b),
    decreases a.len(),
{
    if a.len() > 0 {
        assert(a.last().0@ == b.last().0@ && a.last().1@ == b.last().1@) by {
            assert(a[a.len() - 1].0@ == b[a.len() - 1].0@);
        }
        assert forall|i: int| 0 <= i < a.drop_last().len() implies (#[trigger] a.drop_last()[i]).0@
            == (#[trigger] b.drop_last()[i]).0@ && a.drop_last()[i].1@ == b.drop_last()[i].1@ by {
            assert(a[i].0@ == b[i].0@);
        }
        lemma_alias_map_by_views(a.drop_last(), b.drop_last());
    }
}

/// Whether no two definitions in the list have the same name.
pub open spec fn names_distinct(entries: Seq<(String, Type)>) -> bool {
    forall|i: int, j: int|
        0 <= i < j < entries.len() ==> (#[trigger] entries[i]).0@ != (#[trigger] entries[j]).0@
}

/// A list of definitions with distinct names stands for a table of as many
/// names.
pub proof fn lemma_alias_map_count(entries: Seq<(String, Type)>)
    requires
        names_distinct(entries),
    ensures
        alias_map(entries).dom().finite(),
        alias_map(entries).dom().len() == entries.len(),
    decreases entries.len(),
{
    if entries.len() > 0 {
        let rest = entries.drop_last();
        assert forall|i: int, j: int| 0 <= i < j < rest.len() implies (#[trigger] rest[i]).0@ != (
        #[trigger] rest[j]).0@ by {
            assert(rest[i] == entries[i]);
            assert(rest[j] == entries[j]);
        }
        lemma_alias_map_count(rest);
        assert forall|j: int| 0 <= j < rest.len() implies (#[trigger] rest[j]).0@
            != entries.last().0@ by {
            assert(rest[j] == entries[j]);
            assert(entries[j].0@ != entries[entries.len() - 1].0@);
        }
        lemma_alias_map_absent(rest, entries.last().0@);
        assert(alias_map(entries).dom() =~= alias_map(rest).dom().insert(entries.last().0@));
    }
}

/// Putting a definition in the place of the one with the same name is
/// defining the name anew.
pub proof fn lemma_alias_map_update(entries: Seq<(String, Type)>, i: int, entry: (String, Type))
    requires
        names_distinct(entries),
        0 <= i < entries.len(),
        entries[i].0@ == entry.0@,
    ensures
        alias_map(entries.update(i, entry)) == alias_map(entries).insert(entry.0@, entry.1@),
        names_distinct(entries.update(i, entry)),
    decreases entries.len(),
{
    let updated = entries.update(i, entry);
    let rest = entries.drop_last();
    assert forall|a: int, b: int| 0 <= a < b < updated.len() implies (#[trigger] updated[a]).0@ != (
    #[trigger] updated[b]).0@ by {
        assert(entries[a].0@ != entries[b].0@);
    }
    if i == entries.len() - 1 {
        assert(updated.drop_last() =~= rest);
        assert(alias_map(updated) =~= alias_map(entries).insert(entry.0@, entry.1@));
    } else {
        assert forall|a: int, b: int| 0 <= a < b < rest.len() implies (#[trigger] rest[a]).0@ != (
        #[trigger] rest[b]).0@ by {
            assert(rest[a] == entries[a]);
            assert(rest[b] == entries[b]);
        }
        assert(rest[i] == entries[i]);
        lemma_alias_map_update(rest, i, entry);
        assert(updated.drop_last() =~= rest.update(i, entry));
        assert(updated.last() == entries.last());
        assert(entries[i].0@ != entries[entries.len() - 1].0@);
        assert(alias_map(updated) =~= alias_map(entries).insert(entry.0@, entry.1@));
    }
}

/// An alias table: names with the types they stand for, each as it was
/// given.
#[derive(Debug)]
pub struct AliasTable {
    entries: Vec<(String, Type)>,
}

impl AliasTable {
    #[verifier::type_invariant]
    spec fn one_entry_for_a_name(&self) -> bool {
        names_distinct(self.entries@)
    }

    /// The table as a map from names to types.
    pub closed spec fn view(&self) -> Map<Seq<char>, TypeView> {
        alias_map(self.entries@)
    }

    /// The table without a name.
    pub fn new() -> (r: AliasTable)
        ensures
            r@ == Map::<Seq<char>, TypeView>::empty(),
    {
        AliasTable { entries: Vec::new() }
    }

    /// The place of the definition of `name`, if it has one.
    fn position(&self, name: &String) -> (r: Option<usize>)
        ensures
            match r {
                Some(i) => i < self.entries.len() && self.entries@[i as int].0@ == name@,
                None => forall|j: int|
                    0 <= j < self.entries.len() ==> (#[trigger] self.entries@[j]).0@ != name@,
            },
    {
        let mut i: usize = 0;
        while i < self.entries.len()
            invariant
                i <= self.entries.len(),
                forall|j: int| 0 <= j < i ==> (#[trigger] self.entries@[j]).0@ != name@,
            decreases self.entries.len() - i,
        {
            if self.entries[i].0 == *name {
                return Some(i);
            }
            i += 1;
        }
        None
    }

    /// A copy of the definitions.
    fn copy(&self) -> (r: Vec<(String, Type)>)
        ensures
            r.len() == self.entries.len(),
            forall|j: int|
                0 <= j < r.len() ==> (#[trigger] r@[j]).0@ == (#[trigger] self.entries@[j]).0@
                    && r@[j].1@ == self.entries@[j].1@,
    {
        let mut entries: Vec<(String, Type)> = Vec::new();
        let mut k: usize = 0;
        while k < self.entries.len()
            invariant
                k <= self.entries.len(),
                entries.len() == k,
                forall|j: int|
                    0 <= j < k ==> (#[trigger] entries@[j]).0@ == (#[trigger] self.entries@[j]).0@
                        && entries@[j].1@ == self.entries@[j].1@,
            decreases self.entries.len() - k,
        {
            entries.push((self.entries[k].0.clone(), self.entries[k].1.duplicate()));
            k += 1;
        }
        entries
    }

    /// The traversal that resolves aliases against this table.
    pub fn aliaser(&self) -> (r: Aliaser<'_>)
        ensures
            r.table() == self@,
    {
        Aliaser { table: self }
    }

    /// Defines `name` to stand for `ty`, in place of any earlier definition
    /// of that name. The type is kept as it is given, and no other
    /// definition changes.
    pub fn insert(&mut self, name: String, ty: Type)
        ensures
            final(self)@ == old(self)@.insert(name@, ty@),
    {
        proof {
            use_type_invariant(&*self);
        }
        let found = self.position(&name);
        let mut entries = self.copy();
        proof {
            lemma_alias_map_by_views(entries@, self.entries@);
            assert(names_distinct(entries@)) by {
                assert forall|i: int, j: int| 0 <= i < j < entries.len() implies (
                #[trigger] entries@[i]).0@ != (#[trigger] entries@[j]).0@ by {
                    assert(self.entries@[i].0@ != self.entries@[j].0@);
                }
            }
        }
        match found {
            Some(i) => {
                proof {
                    lemma_alias_map_update(entries@, i as int, (name, ty));
                }
                entries.set(i, (name, ty));
            },
            None => {
                let ghost before = entries@;
                entries.push((name, ty));
                proof {
                    assert(entries@.drop_last() =~= before);
                    assert forall|i: int, j: int| 0 <= i < j < entries.len() implies (
                    #[trigger] entries@[i]).0@ != (#[trigger] entries@[j]).0@ by {
                        if j < before.len() {
                            assert(before[i].0@ != before[j].0@);
                        } else {
                            assert(self.entries@[i].0@ != name@);
                        }
                    }
                }
            },
        }
        self.entries = entries;
    }
}

impl Clone for AliasTable {
    fn clone(&self) -> (r: AliasTable)
        ensures
            r@ == self@,
    {
        proof {
            use_type_invariant(self);
        }
        let entries = self.copy();
        proof {
            lemma_alias_map_by_views(entries@, self.entries@);
            assert forall|i: int, j: int| 0 <= i < j < entries.len() implies (
            #[trigger] entries@[i]).0@ != (#[trigger] entries@[j]).0@ by {
                assert(self.entries@[i].0@ != self.entries@[j].0@);
            }
        }
        AliasTable { entries }
    }
}

/// The traversal that resolves aliases against a table.
pub struct Aliaser<'ctx> {
    table: &'ctx AliasTable,
}

impl<'ctx> Aliaser<'ctx> {
    /// The table that this traversal resolves against.
    pub closed spec fn table(&self) -> Map<Seq<char>, TypeView> {
        self.table@
    }

    /// Whether the table has a definition of `name`.
    fn knows(&self, name: &String) -> (r: bool)
        ensures
            r == self.table().dom().contains(name@),
    {
        proof {
            use_type_invariant(self.table);
        }
        match self.table.position(name) {
            Some(i) => {
                proof {
                    assert forall|j: int| i < j < self.table.entries.len() implies (
                    #[trigger] self.table.entries@[j]).0@ != name@ by {
                        assert(self.table.entries@[i as int].0@ != self.table.entries@[j].0@);
                    }
                    lemma_alias_map_last(self.table.entries@, name@, i as int);
                }
                true
            },
            None => {
                proof {
                    lemma_alias_map_absent(self.table.entries@, name@);
                }
                false
            },
        }
    }

    /// Whether none of the types `ts` mentions an alias of the table.
    fn all_settled(&self, ts: &Vec<Type>) -> (r: bool)
        ensures
            r == forall|i: int|
                0 <= i < ts.len() ==> alias_free(self.table(), #[trigger] type_views(ts@)[i]),
        decreases ts,
    {
        let mut i: usize = 0;
        while i < ts.len()
            invariant
                i <= ts.len(),
                forall|j: int|
                    0 <= j < i ==> alias_free(self.table(), #[trigger] type_views(ts@)[j]),
            decreases ts.len() - i,
        {
            if !self.settled(&ts[i]) {
                assert(!alias_free(self.table(), type_views(ts@)[i as int]));
                return false;
            }
            i += 1;
        }
        true
    }

    /// Whether no payload type of the alternatives `vs` mentions an alias of
    /// the table.
    fn all_variants_settled(&self, vs: &Vec<Variant>) -> (r: bool)
        ensures
            r == forall|i: int|
                0 <= i < vs.len() ==> alias_free(
                    self.table(),
                    (#[trigger] variant_views(vs@)[i]).ty,
                ),
        decreases vs,
    {
        let mut i: usize = 0;
        while i < vs.len()
            invariant
                i <= vs.len(),
                forall|j: int|
                    0 <= j < i ==> alias_free(
                        self.table(),
                        (#[trigger] variant_views(vs@)[j]).ty,
                    ),
            decreases vs.len() - i,
        {
            if !self.settled(&vs[i].ty) {
                assert(!alias_free(self.table(), variant_views(vs@)[i as int].ty));
                return false;
            }
            i += 1;
        }
        true
    }

    /// Whether `ty` mentions no alias of the table: whether there is nothing
    /// left in it to resolve.
    pub fn settled(&self, ty: &Type) -> (r: bool)
        ensures
            r == alias_free(self.table(), ty@),
        decreases ty,
    {
        match ty {
            Type::Alias(name) => !self.knows(name),
            Type::Variant(vs) => {
                proof {
                    Type::lemma_view_variant(*vs);
                }
                self.all_variants_settled(vs)
            },
            Type::Product(ts) => {
                proof {
                    Type::lemma_view_product(*ts);
                    let views = type_views(ts@);
                    if alias_free(self.table(), TypeView::Product(views)) {
                        assert forall|i: int| 0 <= i < views.len() implies alias_free(
                            self.table(),
                            #[trigger] views[i],
                        ) by {
                            let components = TypeView::Product(views)->Product_0;
                            assert(alias_free(self.table(), components[i]));
                        }
                    }
                }
                self.all_settled(ts)
            },
            Type::Arrow(a, b) => self.settled(a) && self.settled(b),
            Type::Universal(body) => self.settled(body),
            Type::Existential(body) => self.settled(body),
            Type::Abstraction(_, body) => self.settled(body),
            Type::Application(a, b) => self.settled(a) && self.settled(b),
            Type::Rec(body) => self.settled(body),
            _ => true,
        }
    }

    /// `ty` resolved against the table: pass after pass, until nothing is
    /// left to resolve or as many passes are done as the table has names.
    /// Where the definitions do not go round in a circle, no alias of the
    /// table is left in the result.
    pub fn visit(&self, ty: &Type) -> (r: Type)
        ensures
            r@ == resolved(self.table(), ty@),
            acyclic(self.table()) ==> alias_free(self.table(), r@),
    {
        proof {
            use_type_invariant(self.table);
            lemma_alias_map_count(self.table.entries@);
            if acyclic(self.table()) {
                resolution_is_full(self.table(), ty@);
            }
        }
        let passes: usize = self.table.entries.len();
        let mut out = ty.duplicate();
        let mut done: usize = 0;
        let mut settled = self.settled(&out);
        while done < passes && !settled
            invariant
                done <= passes,
                settled == alias_free(self.table(), out@),
                resolved_times(self.table(), (passes - done) as nat, out@) == resolved_times(
                    self.table(),
                    passes as nat,
                    ty@,
                ),
            decreases passes - done,
        {
            out = walk_ty(self, 0, &out);
            done += 1;
            settled = self.settled(&out);
        }
        proof {
            if settled {
                lemma_resolved_times_alias_free(self.table(), (passes - done) as nat, out@);
            }
        }
        out
    }
}

impl<'ctx> TypeVisitor for Aliaser<'ctx> {
    open spec fn hooks(&self) -> Hooks {
        resolve_hooks(self.table())
    }

    fn visit_var(&self, depth: usize, idx: usize) -> (r: Type) {
        Type::Var(idx)
    }

    fn visit_alias(&self, name: &String) -> (r: Type) {
        let entries = &self.table.entries;
        let mut i: usize = entries.len();
        while i > 0
            invariant
                i <= entries.len(),
                *entries == self.table.entries,
                forall|j: int| i <= j < entries.len() ==> (#[trigger] entries@[j]).0@ != name@,
            decreases i,
        {
            i -= 1;
            if entries[i].0 == *name {
                proof {
                    lemma_alias_map_last(entries@, name@, i as int);
                }
                return entries[i].1.duplicate();
            }
        }
        proof {
            lemma_alias_map_absent(entries@, name@);
        }
        Type::Alias(name.clone())
    }

    fn visit_node(&self, node: Type) -> (r: Type) {
        node
    }
}

/// `term` with every type that it is annotated with resolved: the parameter
/// type of an abstraction, the argument of a type application, the declared
/// type of an injection, the witness of a folding or unfolding. The shape of
/// the term, its labels and its places stay.
pub open spec fn resolved_term(aliases: Map<Seq<char>, TypeView>, term: TermView) -> TermView
    decreases term,
{
    TermView {
        span: term.span,
        kind: match term.kind {
            KindView::Lit(lit) => KindView::Lit(lit),
            KindView::Var(idx) => KindView::Var(idx),
            KindView::Fix(inner) => KindView::Fix(Box::new(resolved_term(aliases, *inner))),
            KindView::Primitive(prim) => KindView::Primitive(prim),
            KindView::Injection(label, payload, ty) => KindView::Injection(
                label,
                Box::new(resolved_term(aliases, *payload)),
                resolved(aliases, ty),
            ),
            KindView::Product(terms) => KindView::Product(
                Seq::new(
                    terms.len(),
                    |i: int|
                        if 0 <= i < terms.len() {
                            resolved_term(aliases, terms[i])
                        } else {
                            arbitrary()
                        },
                ),
            ),
            KindView::Projection(inner, idx) => KindView::Projection(
                Box::new(resolved_term(aliases, *inner)),
                idx,
            ),
            KindView::Case(scrutinee, arms) => KindView::Case(
                Box::new(resolved_term(aliases, *scrutinee)),
                Seq::new(
                    arms.len(),
                    |i: int|
                        if 0 <= i < arms.len() {
                            ArmView {
                                span: arms[i].span,
                                pat: arms[i].pat,
                                term: resolved_term(aliases, arms[i].term),
                            }
                        } else {
                            arbitrary()
                        },
                ),
            ),
            KindView::Let(bound, body) => KindView::Let(
                Box::new(resolved_term(aliases, *bound)),
                Box::new(resolved_term(aliases, *body)),
            ),
            KindView::Abs(ty, body) => KindView::Abs(
                resolved(aliases, ty),
                Box::new(resolved_term(aliases, *body)),
            ),
            KindView::App(fun, arg) => KindView::App(
                Box::new(resolved_term(aliases, *fun)),
                Box::new(resolved_term(aliases, *arg)),
            ),
            KindView::If(guard, csq, alt) => KindView::If(
                Box::new(resolved_term(aliases, *guard)),
                Box::new(resolved_term(aliases, *csq)),
                Box::new(resolved_term(aliases, *alt)),
            ),
            KindView::TyAbs(body) => KindView::TyAbs(Box::new(resolved_term(aliases, *body))),
            KindView::TyApp(inner, ty) => KindView::TyApp(
                Box::new(resolved_term(aliases, *inner)),
                resolved(aliases, ty),
            ),
            KindView::Fold(ty, inner) => KindView::Fold(
                resolved(aliases, ty),
                Box::new(resolved_term(aliases, *inner)),
            ),
            KindView::Unfold(ty, inner) => KindView::Unfold(
                resolved(aliases, ty),
                Box::new(resolved_term(aliases, *inner)),
            ),
        },
    }
}

impl<'ctx> Aliaser<'ctx> {
    /// The terms `terms`, each with its annotations resolved.
    fn visit_terms(&self, terms: &Vec<Term>) -> (r: Vec<Term>)
        ensures
            r.len() == terms.len(),
            forall|i: int|
                0 <= i < terms.len() ==> (#[trigger] r@[i])@ == resolved_term(
                    self.table(),
                    terms@[i]@,
                ),
        decreases terms,
    {
        let mut out: Vec<Term> = Vec::new();
        let mut i: usize = 0;
        while i < terms.len()
            invariant
                i <= terms.len(),
                out.len() == i,
                forall|j: int|
                    0 <= j < i ==> (#[trigger] out@[j])@ == resolved_term(
                        self.table(),
                        terms@[j]@,
                    ),
            decreases terms.len() - i,
        {
            let t = self.visit_term(&terms[i]);
            out.push(t);
            i += 1;
        }
        out
    }

    /// The arms `arms`, each with the annotations of its body resolved.
    fn visit_arms(&self, arms: &Vec<Arm>) -> (r: Vec<Arm>)
        ensures
            r.len() == arms.len(),
            forall|i: int|
                0 <= i < arms.len() ==> (#[trigger] r@[i])@ == (ArmView {
                    span: arms@[i].span,
                    pat: arms@[i].pat@,
                    term: resolved_term(self.table(), arms@[i].term@),
                }),
        decreases arms,
    {
        let mut out: Vec<Arm> = Vec::new();
        let mut i: usize = 0;
        while i < arms.len()
            invariant
                i <= arms.len(),
                out.len() == i,
                forall|j: int|
                    0 <= j < i ==> (#[trigger] out@[j])@ == (ArmView {
                        span: arms@[j].span,
                        pat: arms@[j].pat@,
                        term: resolved_term(self.table(), arms@[j].term@),
                    }),
            decreases arms.len() - i,
        {
            let arm = &arms[i];
            let term = self.visit_term(&arm.term);
            out.push(Arm { span: arm.span, pat: arm.pat.duplicate(), term: Box::new(term) });
            i += 1;
        }
        out
    }

    /// `term` with every type that it is annotated with resolved.
    pub fn visit_term(&self, term: &Term) -> (r: Term)
        ensures
            r@ == resolved_term(self.table(), term@),
        decreases term,
    {
        let ghost aliases = self.table();
        let kind = match &term.kind {
            Kind::Lit(lit) => Kind::Lit(*lit),
            Kind::Var(idx) => Kind::Var(*idx),
            Kind::Fix(inner) => Kind::Fix(Box::new(self.visit_term(inner))),
            Kind::Primitive(prim) => Kind::Primitive(*prim),
            Kind::Injection(label, payload, ty) => Kind::Injection(
                label.clone(),
                Box::new(self.visit_term(payload)),
                Box::new(self.visit(ty)),
            ),
            Kind::Product(terms) => {
                let out = self.visit_terms(terms);
                proof {
                    Kind::lemma_view_product(*terms);
                    Kind::lemma_view_product(out);
                    assert(term_views(out@) =~= resolved_term(
                        aliases,
                        term@,
                    ).kind->Product_0);
                }
                Kind::Product(out)
            },
            Kind::Projection(inner, idx) => Kind::Projection(
                Box::new(self.visit_term(inner)),
                *idx,
            ),
            Kind::Case(scrutinee, arms) => {
                let head = self.visit_term(scrutinee);
                let out = self.visit_arms(arms);
                proof {
                    Kind::lemma_view_case(*scrutinee, *arms);
                    Kind::lemma_view_case(Box::new(head), out);
                    assert(arm_views(out@) =~= resolved_term(aliases, term@).kind->Case_1);
                }
                Kind::Case(Box::new(head), out)
            },
            Kind::Let(bound, body) => Kind::Let(
                Box::new(self.visit_term(bound)),
                Box::new(self.visit_term(body)),
            ),
            Kind::Abs(ty, body) => Kind::Abs(
                Box::new(self.visit(ty)),
                Box::new(self.visit_term(body)),
            ),
            Kind::App(fun, arg) => Kind::App(
                Box::new(self.visit_term(fun)),
                Box::new(self.visit_term(arg)),
            ),
            Kind::If(guard, csq, alt) => Kind::If(
                Box::new(self.visit_term(guard)),
                Box::new(self.visit_term(csq)),
                Box::new(self.visit_term(alt)),
            ),
            Kind::TyAbs(body) => Kind::TyAbs(Box::new(self.visit_term(body))),
            Kind::TyApp(inner, ty) => Kind::TyApp(
                Box::new(self.visit_term(inner)),
                Box::new(self.visit(ty)),
            ),
            Kind::Fold(ty, inner) => Kind::Fold(
                Box::new(self.visit(ty)),
                Box::new(self.visit_term(inner)),
            ),
            Kind::Unfold(ty, inner) => Kind::Unfold(
                Box::new(self.visit(ty)),
                Box::new(self.visit_term(inner)),
            ),
        };
        Term { span: term.span, kind }
    }
}

} // verus!
