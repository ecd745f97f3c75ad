//! Types of the simply typed calculus, its typing context, and its checker.

use vstd::prelude::*;
use vstd::std_specs::cmp::PartialEqSpecImpl;
use std::rc::Rc;
use super::term::{Record, Term};

verus! {

/// A type.
#[derive(Debug, PartialOrd)]
pub enum Type {
    Bool,
    Nat,
    Arrow(Box<Type>, Box<Type>),
    Record(Vec<Type>),
}

/// The model of a [`Type`]: the same tree over sequences. Two types are the
/// same type exactly when their models are equal.
pub enum TypeView {
    Bool,
    Nat,
    Arrow(Box<TypeView>, Box<TypeView>),
    Record(Seq<TypeView>),
}

/// Why a term has no type.
#[derive(Clone, Copy, Debug, PartialEq, Eq, PartialOrd, Structural)]
pub enum TypeError {
    /// The condition of a conditional is not a boolean.
    Guard,
    /// The branches of a conditional differ in type.
    ArmMismatch,
    /// An argument does not have the type that is asked of it.
    ParameterMismatch,
    /// A variable that no binder in scope binds.
    UnknownVariable,
    /// Something applied that is no function.
    ExpectedArrow,
    /// A projection past the last field of a record.
    InvalidProjection,
    /// A projection from something that is no record.
    NotRecordType,
}

/// The models of a sequence of types, in order.
pub open spec fn type_views(ts: Seq<Type>) -> Seq<TypeView> {
    Seq::new(ts.len(), |i: int| ts[i]@)
}

impl Type {
    pub open spec fn view(&self) -> TypeView
        decreases self,
    {
        match self {
            Type::Bool => TypeView::Bool,
            Type::Nat => TypeView::Nat,
            Type::Arrow(a, b) => TypeView::Arrow(Box::new(a@), Box::new(b@)),
            Type::Record(ts) => TypeView::Record(
                Seq::new(
                    ts@.len(),
                    |i: int|
                        if 0 <= i < ts@.len() {
                            ts@[i]@
                        } else {
                            TypeView::Bool
                        },
                ),
            ),
        }
    }

    /// The model of a record type is the sequence of its fields' models.
    pub proof fn lemma_view_record(ts: Vec<Type>)
        ensures
            Type::Record(ts)@ == TypeView::Record(type_views(ts@)),
    {
        assert(Type::Record(ts)@->Record_0 =~= type_views(ts@));
    }

    /// A copy of this type.
    pub fn duplicate(&self) -> (r: Type)
        ensures
            r@ == self@,
        decreases self,
    {
        match self {
            Type::Bool => Type::Bool,
            Type::Nat => Type::Nat,
            Type::Arrow(a, b) => Type::Arrow(Box::new(a.duplicate()), Box::new(b.duplicate())),
            Type::Record(ts) => {
                let out = duplicate_all(ts);
                proof {
                    Type::lemma_view_record(*ts);
                    Type::lemma_view_record(out);
                }
                Type::Record(out)
            },
        }
    }

    /// Structural equality: `true` exactly when both types have the same
    /// model.
    pub fn same(&self, other: &Type) -> (r: bool)
        ensures
            r == (self@ == other@),
        decreases self,
    {
        match self {
            Type::Bool => matches!(other, Type::Bool),
            Type::Nat => matches!(other, Type::Nat),
            Type::Arrow(a1, b1) => match other {
                Type::Arrow(a2, b2) => a1.same(a2) && b1.same(b2),
                _ => false,
            },
            Type::Record(xs) => match other {
                Type::Record(ys) => {
                    proof {
                        Type::lemma_view_record(*xs);
                        Type::lemma_view_record(*ys);
                    }
                    same_all(xs, ys)
                },
                _ => false,
            },
        }
    }
}

/// Copies a sequence of types, one by one.
fn duplicate_all(ts: &Vec<Type>) -> (r: Vec<Type>)
    ensures
        type_views(r@) == type_views(ts@),
    decreases ts,
{
    let mut out: Vec<Type> = Vec::new();
    let mut i: usize = 0;
    while i < ts.len()
        invariant
            i <= ts.len(),
            out.len() == i,
            forall|j: int| 0 <= j < i ==> (#[trigger] out@[j])@ == ts@[j]@,
        decreases ts.len() - i,
    {
        let t = ts[i].duplicate();
        out.push(t);
        i += 1;
    }
    assert(type_views(out@) =~= type_views(ts@));
    out
}

/// Whether two sequences of types agree one by one.
fn same_all(xs: &Vec<Type>, ys: &Vec<Type>) -> (r: bool)
    ensures
        r == (type_views(xs@) == type_views(ys@)),
    decreases xs,
{
    if xs.len() != ys.len() {
        assert(type_views(xs@).len() != type_views(ys@).len());
        return false;
    }
    let mut i: usize = 0;
    while i < xs.len()
        invariant
            i <= xs.len(),
            xs.len() == ys.len(),
            forall|j: int| 0 <= j < i ==> (#[trigger] xs@[j])@ == ys@[j]@,
        decreases xs.len() - i,
    {
        if !xs[i].same(&ys[i]) {
            assert(type_views(xs@)[i as int] != type_views(ys@)[i as int]);
            return false;
        }
        i += 1;
    }
    assert(type_views(xs@) =~= type_views(ys@));
    true
}

impl Clone for Type {
    fn clone(&self) -> (r: Type)
        ensures
            r@ == self@,
    {
        self.duplicate()
    }
}

impl PartialEq for Type {
    fn eq(&self, other: &Type) -> (r: bool) {
        self.same(other)
    }
}

impl PartialEqSpecImpl for Type {
    open spec fn obeys_eq_spec() -> bool {
        true
    }

    open spec fn eq_spec(&self, other: &Type) -> bool {
        self@ == other@
    }
}

/// The answer of the checker, in the model.
pub type Checked = Result<TypeView, TypeError>;

/// The model of a checker's answer.
pub open spec fn result_view(r: Result<Type, TypeError>) -> Checked {
    match r {
        Ok(ty) => Ok(ty@),
        Err(e) => Err(e),
    }
}

/// Whether `i` is the first place where `results` holds a failure.
pub open spec fn is_first_failure(results: Seq<Checked>, i: int) -> bool {
    &&& 0 <= i < results.len()
    &&& results[i] is Err
    &&& forall|j: int| 0 <= j < i ==> (#[trigger] results[j]) is Ok
}

/// The first failure among `results`, if there is one.
pub open spec fn first_failure(results: Seq<Checked>) -> Option<TypeError> {
    if exists|i: int| is_first_failure(results, i) {
        Some(results[choose|i: int| is_first_failure(results, i)]->Err_0)
    } else {
        None
    }
}

/// The types that `results` hold, where none is a failure.
pub open spec fn successes(results: Seq<Checked>) -> Seq<TypeView> {
    Seq::new(results.len(), |i: int| results[i]->Ok_0)
}

/// The answers that hold the types `types`, none of them a failure.
pub open spec fn all_ok(types: Seq<TypeView>) -> Seq<Checked> {
    Seq::new(types.len(), |i: int| Ok(types[i]))
}

/// Answers without a failure hold their types, and no first failure.
pub proof fn lemma_all_ok(types: Seq<TypeView>)
    ensures
        first_failure(all_ok(types)) is None,
        successes(all_ok(types)) == types,
{
    assert(successes(all_ok(types)) =~= types);
}

/// There is one first failure at most.
pub proof fn lemma_first_failure_at(results: Seq<Checked>, i: int)
    requires
        is_first_failure(results, i),
    ensures
        first_failure(results) == Some(results[i]->Err_0),
{
    let c = choose|c: int| is_first_failure(results, c);
    assert(results[c] is Err);
    assert(results[i] is Err);
    if c < i {
        assert(results[c] is Ok);
    }
    if i < c {
        assert(results[i] is Ok);
    }
}

/// A variable has the type that the context holds for it.
pub open spec fn rule_var(stack: Seq<TypeView>, idx: usize) -> Checked {
    if idx < stack.len() {
        Ok(stack[idx as int])
    } else {
        Err(TypeError::UnknownVariable)
    }
}

/// An operator on naturals takes a natural, and gives `result`.
pub open spec fn rule_nat_op(operand: Checked, result: TypeView) -> Checked {
    match operand {
        Ok(TypeView::Nat) => Ok(result),
        Ok(_) => Err(TypeError::ParameterMismatch),
        Err(e) => Err(e),
    }
}

/// An abstraction is a function from its parameter type to the type of its
/// body.
pub open spec fn rule_abs(param: TypeView, body: Checked) -> Checked {
    match body {
        Ok(result) => Ok(TypeView::Arrow(Box::new(param), Box::new(result))),
        Err(e) => Err(e),
    }
}

/// An application has the result type of its function, whose parameter type
/// must be the type of the argument.
pub open spec fn rule_app(fun: Checked, arg: Checked) -> Checked {
    match fun {
        Ok(fun_ty) => match arg {
            Ok(arg_ty) => match fun_ty {
                TypeView::Arrow(dom, cod) => if *dom == arg_ty {
                    Ok(*cod)
                } else {
                    Err(TypeError::ParameterMismatch)
                },
                _ => Err(TypeError::ExpectedArrow),
            },
            Err(e) => Err(e),
        },
        Err(e) => Err(e),
    }
}

/// A conditional has the type of its branches, which must agree; its
/// condition must be a boolean. The branches are looked at only then.
pub open spec fn rule_if(guard: Checked, csq: Checked, alt: Checked) -> Checked {
    match guard {
        Ok(TypeView::Bool) => match csq {
            Ok(first) => match alt {
                Ok(second) => if first == second {
                    Ok(second)
                } else {
                    Err(TypeError::ArmMismatch)
                },
                Err(e) => Err(e),
            },
            Err(e) => Err(e),
        },
        Ok(_) => Err(TypeError::Guard),
        Err(e) => Err(e),
    }
}

/// A record has the record type of its fields' types, in order; the first
/// field that fails decides.
pub open spec fn rule_record(results: Seq<Checked>) -> Checked {
    match first_failure(results) {
        Some(e) => Err(e),
        None => Ok(TypeView::Record(successes(results))),
    }
}

/// A projection has the type of the field it names, which the record must
/// have.
pub open spec fn rule_projection(inner: Checked, idx: usize) -> Checked {
    match inner {
        Ok(TypeView::Record(fields)) => if idx < fields.len() {
            Ok(fields[idx as int])
        } else {
            Err(TypeError::InvalidProjection)
        },
        Ok(_) => Err(TypeError::NotRecordType),
        Err(e) => Err(e),
    }
}

/// The type of `term` where the variables in scope have the types `stack`,
/// innermost first, or the first failure met. Subterms are checked from left
/// to right, and the first failure ends the check.
#[verifier::opaque]
pub open spec fn typing(stack: Seq<TypeView>, term: Term) -> Checked
    decreases term,
{
    match term {
        Term::True => Ok(TypeView::Bool),
        Term::False => Ok(TypeView::Bool),
        Term::Zero => Ok(TypeView::Nat),
        Term::Succ(t) => rule_nat_op(typing(stack, *t), TypeView::Nat),
        Term::Pred(t) => rule_nat_op(typing(stack, *t), TypeView::Nat),
        Term::IsZero(t) => rule_nat_op(typing(stack, *t), TypeView::Bool),
        Term::Var(idx) => rule_var(stack, idx),
        Term::Abs(ty, body) => rule_abs(ty@, typing(seq![ty@] + stack, *body)),
        Term::App(fun, arg) => rule_app(typing(stack, *fun), typing(stack, *arg)),
        Term::If(guard, csq, alt) => rule_if(
            typing(stack, *guard),
            typing(stack, *csq),
            typing(stack, *alt),
        ),
        Term::Let(bound, body) => match typing(stack, *bound) {
            Ok(ty) => typing(seq![ty] + stack, *body),
            Err(e) => Err(e),
        },
        Term::Record(rec) => rule_record(field_results(stack, rec.fields@)),
        Term::Projection(inner, idx) => rule_projection(typing(stack, *inner), idx),
    }
}

/// The answers for the fields of a record, in order.
pub open spec fn field_results(stack: Seq<TypeView>, fields: Seq<Rc<Term>>) -> Seq<Checked>
    decreases fields,
{
    if fields.len() == 0 {
        Seq::empty()
    } else {
        field_results(stack, fields.drop_last()).push(typing(stack, *fields.last()))
    }
}

/// There is one answer for each field of a record: the type of that field.
pub proof fn lemma_field_results(stack: Seq<TypeView>, fields: Seq<Rc<Term>>)
    ensures
        field_results(stack, fields).len() == fields.len(),
        forall|i: int|
            0 <= i < fields.len() ==> #[trigger] field_results(stack, fields)[i] == typing(
                stack,
                *fields[i],
            ),
    decreases fields.len(),
{
    reveal(typing);
    if fields.len() > 0 {
        lemma_field_results(stack, fields.drop_last());
    }
}

/// A typing context, Γ: the types of the variables in scope.
///
/// A context holds the type of the innermost variable and points to the
/// context around it, so that a scope is opened by building a context on the
/// stack and closed by leaving it behind.
#[derive(Debug, PartialEq, PartialOrd)]
pub struct Context<'a> {
    parent: Option<&'a Context<'a>>,
    ty: Option<Type>,
}

impl<'a> Context<'a> {
    /// Only the outermost context may be empty.
    #[verifier::type_invariant]
    spec fn well_formed(&self) -> bool {
        self.ty.is_none() ==> self.parent.is_none()
    }

    /// The types of the variables in scope, innermost first.
    pub closed spec fn bindings(&self) -> Seq<TypeView>
        decreases self,
    {
        let own = match self.ty {
            Some(ty) => seq![ty@],
            None => Seq::empty(),
        };
        match self.parent {
            Some(parent) => own + parent.bindings(),
            None => own,
        }
    }

    /// The context with nothing in scope.
    pub fn new() -> (r: Context<'a>)
        ensures
            r.bindings() == Seq::<TypeView>::empty(),
    {
        Context { parent: None, ty: None }
    }

    /// This context with one more variable in scope, of type `ty`, as the
    /// innermost.
    pub fn add<'ctx>(&'ctx self, ty: Type) -> (r: Context<'ctx>)
        ensures
            r.bindings() == seq![ty@] + self.bindings(),
    {
        proof {
            use_type_invariant(self);
        }
        if self.ty.is_none() {
            let r = Context { parent: self.parent, ty: Some(ty) };
            assert(r.bindings() =~= seq![ty@] + self.bindings());
            r
        } else {
            Context { parent: Some(self), ty: Some(ty) }
        }
    }

    /// The type of the variable `idx`, counted from the innermost binder
    /// outwards, or nothing where fewer variables are in scope.
    pub fn get(&self, idx: usize) -> (r: Option<&Type>)
        ensures
            idx < self.bindings().len() ==> r.is_some() && r.unwrap()@ == self.bindings()[
                idx as int
            ],
            idx >= self.bindings().len() ==> r.is_none(),
        decreases idx,
    {
        proof {
            use_type_invariant(self);
        }
        if idx == 0 {
            self.ty.as_ref()
        } else {
            if let Some(ctx) = self.parent {
                ctx.get(idx - 1)
            } else {
                None
            }
        }
    }
}

/// Applies an operator on naturals to an operand of type `operand`; the
/// operator gives a `result`.
pub fn check_nat_op(operand: Type, result: Type) -> (r: Result<Type, TypeError>)
    ensures
        result_view(r) == rule_nat_op(Ok(operand@), result@),
{
    match operand {
        Type::Nat => Ok(result),
        _ => Err(TypeError::ParameterMismatch),
    }
}

/// Applies a function of type `fun` to an argument of type `arg`.
pub fn check_app(fun: Type, arg: Type) -> (r: Result<Type, TypeError>)
    ensures
        result_view(r) == rule_app(Ok(fun@), Ok(arg@)),
{
    match fun {
        Type::Arrow(dom, cod) => {
            if dom.same(&arg) {
                Ok(*cod)
            } else {
                Err(TypeError::ParameterMismatch)
            }
        },
        _ => Err(TypeError::ExpectedArrow),
    }
}

/// Decides on the branches of a conditional, of types `csq` and `alt`.
pub fn check_branches(csq: Type, alt: Type) -> (r: Result<Type, TypeError>)
    ensures
        result_view(r) == rule_if(Ok(TypeView::Bool), Ok(csq@), Ok(alt@)),
{
    if csq.same(&alt) {
        Ok(alt)
    } else {
        Err(TypeError::ArmMismatch)
    }
}

/// Takes field `idx` of a record of type `inner`.
pub fn check_projection(inner: Type, idx: usize) -> (r: Result<Type, TypeError>)
    ensures
        result_view(r) == rule_projection(Ok(inner@), idx),
{
    match inner {
        Type::Record(fields) => {
            proof {
                Type::lemma_view_record(fields);
            }
            if idx < fields.len() {
                Ok(fields[idx].duplicate())
            } else {
                Err(TypeError::InvalidProjection)
            }
        },
        _ => Err(TypeError::NotRecordType),
    }
}

impl<'a> Context<'a> {
    /// Checks the fields of a record from first to last, up to the first
    /// that fails.
    fn check_fields(&self, fields: &Vec<Rc<Term>>) -> (r: Result<Vec<Type>, TypeError>)
        ensures
            match r {
                Ok(types) => field_results(self.bindings(), fields@) == all_ok(type_views(types@)),
                Err(e) => first_failure(field_results(self.bindings(), fields@)) == Some(e),
            },
        decreases fields,
    {
        let ghost results = field_results(self.bindings(), fields@);
        proof {
            lemma_field_results(self.bindings(), fields@);
        }
        let mut out: Vec<Type> = Vec::new();
        let mut i: usize = 0;
        while i < fields.len()
            invariant
                i <= fields.len(),
                out.len() == i,
                results == field_results(self.bindings(), fields@),
                results.len() == fields.len(),
                forall|j: int|
                    0 <= j < fields.len() ==> #[trigger] results[j] == typing(
                        self.bindings(),
                        *fields@[j],
                    ),
                forall|j: int|
                    0 <= j < i ==> #[trigger] results[j] == Ok::<TypeView, TypeError>(out@[j]@),
            decreases fields.len() - i,
        {
            match self.type_of(&fields[i]) {
                Ok(ty) => {
                    out.push(ty);
                },
                Err(e) => {
                    proof {
                        assert(results[i as int] == Err::<TypeView, TypeError>(e));
                        assert(is_first_failure(results, i as int));
                        lemma_first_failure_at(results, i as int);
                    }
                    return Err(e);
                },
            }
            i += 1;
        }
        proof {
            assert(results =~= all_ok(type_views(out@)));
        }
        Ok(out)
    }

    /// Checks `term` in this context: returns its type, or the first failure
    /// met.
    pub fn type_of(&self, term: &Term) -> (r: Result<Type, TypeError>)
        ensures
            result_view(r) == typing(self.bindings(), *term),
        decreases term,
    {
        let ghost stack = self.bindings();
        match term {
            Term::True => {
                proof {
                    assert(typing(stack, *term) == Ok::<TypeView, TypeError>(TypeView::Bool)) by {
                        reveal(typing);
                    }
                }
                Ok(Type::Bool)
            },
            Term::False => {
                proof {
                    assert(typing(stack, *term) == Ok::<TypeView, TypeError>(TypeView::Bool)) by {
                        reveal(typing);
                    }
                }
                Ok(Type::Bool)
            },
            Term::Zero => {
                proof {
                    assert(typing(stack, *term) == Ok::<TypeView, TypeError>(TypeView::Nat)) by {
                        reveal(typing);
                    }
                }
                Ok(Type::Nat)
            },
            Term::Succ(t) | Term::Pred(t) => {
                proof {
                    assert(typing(stack, *term) == rule_nat_op(typing(stack, **t), TypeView::Nat))
                        by {
                        reveal(typing);
                    }
                }
                match self.type_of(t) {
                    Ok(ty) => check_nat_op(ty, Type::Nat),
                    Err(e) => Err(e),
                }
            },
            Term::IsZero(t) => {
                proof {
                    assert(typing(stack, *term) == rule_nat_op(typing(stack, **t), TypeView::Bool))
                        by {
                        reveal(typing);
                    }
                }
                match self.type_of(t) {
                    Ok(ty) => check_nat_op(ty, Type::Bool),
                    Err(e) => Err(e),
                }
            },
            Term::If(guard, csq, alt) => {
                proof {
                    assert(typing(stack, *term) == rule_if(
                        typing(stack, **guard),
                        typing(stack, **csq),
                        typing(stack, **alt),
                    )) by {
                        reveal(typing);
                    }
                }
                let guard_ty = match self.type_of(guard) {
                    Ok(ty) => ty,
                    Err(e) => {
                        return Err(e);
                    },
                };
                if !matches!(guard_ty, Type::Bool) {
                    return Err(TypeError::Guard);
                }
                let ty1 = match self.type_of(csq) {
                    Ok(ty) => ty,
                    Err(e) => {
                        return Err(e);
                    },
                };
                let ty2 = match self.type_of(alt) {
                    Ok(ty) => ty,
                    Err(e) => {
                        return Err(e);
                    },
                };
                check_branches(ty1, ty2)
            },
            Term::Let(bind, body) => {
                proof {
                    assert(typing(stack, *term) == (match typing(stack, **bind) {
                        Ok(ty) => typing(seq![ty] + stack, **body),
                        Err(e) => Err(e),
                    })) by {
                        reveal(typing);
                    }
                }
                match self.type_of(bind) {
                    Ok(ty) => {
                        let ctx = self.add(ty);
                        ctx.type_of(body)
                    },
                    Err(e) => Err(e),
                }
            },
            Term::Var(s) => {
                proof {
                    assert(typing(stack, *term) == rule_var(stack, *s)) by {
                        reveal(typing);
                    }
                }
                match self.get(*s) {
                    Some(ty) => Ok(ty.duplicate()),
                    None => Err(TypeError::UnknownVariable),
                }
            },
            Term::Abs(ty, body) => {
                proof {
                    assert(typing(stack, *term) == rule_abs(
                        ty@,
                        typing(seq![ty@] + stack, **body),
                    )) by {
                        reveal(typing);
                    }
                }
                let ctx = self.add(ty.duplicate());
                match ctx.type_of(body) {
                    Ok(ty_body) => Ok(Type::Arrow(Box::new(ty.duplicate()), Box::new(ty_body))),
                    Err(e) => Err(e),
                }
            },
            Term::App(t1, t2) => {
                proof {
                    assert(typing(stack, *term) == rule_app(
                        typing(stack, **t1),
                        typing(stack, **t2),
                    )) by {
                        reveal(typing);
                    }
                }
                let ty1 = match self.type_of(t1) {
                    Ok(ty) => ty,
                    Err(e) => {
                        return Err(e);
                    },
                };
                let ty2 = match self.type_of(t2) {
                    Ok(ty) => ty,
                    Err(e) => {
                        return Err(e);
                    },
                };
                check_app(ty1, ty2)
            },
            Term::Record(rec) => {
                proof {
                    assert(typing(stack, *term) == rule_record(
                        field_results(stack, rec.fields@),
                    )) by {
                        reveal(typing);
                    }
                }
                match self.check_fields(&rec.fields) {
                    Ok(tys) => {
                        proof {
                            Type::lemma_view_record(tys);
                            lemma_all_ok(type_views(tys@));
                        }
                        Ok(Type::Record(tys))
                    },
                    Err(e) => Err(e),
                }
            },
            Term::Projection(r, idx) => {
                proof {
                    assert(typing(stack, *term) == rule_projection(typing(stack, **r), *idx)) by {
                        reveal(typing);
                    }
                }
                match self.type_of(r) {
                    Ok(rty) => check_projection(rty, *idx),
                    Err(e) => Err(e),
                }
            },
        }
    }
}

impl<'a> Clone for Context<'a> {
    fn clone(&self) -> (r: Context<'a>)
        ensures
            r.bindings() == self.bindings(),
    {
        proof {
            use_type_invariant(self);
        }
        let ty = match &self.ty {
            Some(ty) => Some(ty.duplicate()),
            None => None,
        };
        Context { parent: self.parent, ty }
    }
}

impl<'a> Default for Context<'a> {
    fn default() -> (r: Context<'a>)
        ensures
            r.bindings() == Seq::<TypeView>::empty(),
    {
        Context::new()
    }
}

} // verus!
