//! What the checker reports when a term has no type.

use vstd::prelude::*;
use crate::system_f::span::Span;
use super::{Type, TypeView};

verus! {

/// Why a term has no type.
#[derive(Clone, Debug, PartialEq, PartialOrd)]
pub enum TypeErrorKind {
    /// A type was expected and another one found, at the given place: the
    /// expected type first, then the one found.
    ParameterMismatch(Box<Type>, Box<Type>, Span),
    /// A projection past the last component of a product.
    InvalidProjection,
    /// A function was needed.
    NotArrow,
    /// A universal type was needed.
    NotUniversal,
    /// A variant type with the given label was needed.
    NotVariant,
    /// A product was needed.
    NotProduct,
    /// A recursive type was needed.
    NotRec,
    /// The arms of a case, or the branches of a conditional, differ in type.
    IncompatibleArms,
    /// An arm names a label that the variant type does not have.
    InvalidPattern,
    /// Some alternative of the variant type has no arm.
    NotExhaustive,
    /// An arm that no value reaches: an earlier arm takes them all.
    UnreachablePattern,
    /// A variable that no binder in scope binds.
    UnboundVariable(usize),
    /// The condition of a conditional is not a boolean.
    Guard,
}

/// An error, with the place of the term that it is about.
#[derive(Clone, Debug, PartialEq, PartialOrd)]
pub struct TypeError {
    pub span: Span,
    pub kind: TypeErrorKind,
}

/// The model of a [`TypeErrorKind`].
pub enum TypeErrorKindView {
    ParameterMismatch(TypeView, TypeView, Span),
    InvalidProjection,
    NotArrow,
    NotUniversal,
    NotVariant,
    NotProduct,
    NotRec,
    IncompatibleArms,
    InvalidPattern,
    NotExhaustive,
    UnreachablePattern,
    UnboundVariable(usize),
    Guard,
}

/// The model of a [`TypeError`].
pub struct TypeErrorView {
    pub span: Span,
    pub kind: TypeErrorKindView,
}

impl TypeErrorKind {
    pub open spec fn view(&self) -> TypeErrorKindView {
        match self {
            TypeErrorKind::ParameterMismatch(expected, actual, span) => {
                TypeErrorKindView::ParameterMismatch(expected@, actual@, *span)
            },
            TypeErrorKind::InvalidProjection => TypeErrorKindView::InvalidProjection,
            TypeErrorKind::NotArrow => TypeErrorKindView::NotArrow,
            TypeErrorKind::NotUniversal => TypeErrorKindView::NotUniversal,
            TypeErrorKind::NotVariant => TypeErrorKindView::NotVariant,
            TypeErrorKind::NotProduct => TypeErrorKindView::NotProduct,
            TypeErrorKind::NotRec => TypeErrorKindView::NotRec,
            TypeErrorKind::IncompatibleArms => TypeErrorKindView::IncompatibleArms,
            TypeErrorKind::InvalidPattern => TypeErrorKindView::InvalidPattern,
            TypeErrorKind::NotExhaustive => TypeErrorKindView::NotExhaustive,
            TypeErrorKind::UnreachablePattern => TypeErrorKindView::UnreachablePattern,
            TypeErrorKind::UnboundVariable(idx) => TypeErrorKindView::UnboundVariable(*idx),
            TypeErrorKind::Guard => TypeErrorKindView::Guard,
        }
    }
}

impl TypeError {
    pub open spec fn view(&self) -> TypeErrorView {
        TypeErrorView { span: self.span, kind: self.kind@ }
    }
}

/// The model of a checker's answer.
pub open spec fn result_view(r: Result<Type, TypeError>) -> Result<TypeView, TypeErrorView> {
    match r {
        Ok(ty) => Ok(ty@),
        Err(e) => Err(e@),
    }
}

/// The failure of kind `kind` at `span`.
pub open spec fn failure(span: Span, kind: TypeErrorKindView) -> Result<TypeView, TypeErrorView> {
    Err(TypeErrorView { span, kind })
}

} // verus!
