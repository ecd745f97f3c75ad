//! Case analysis over a variant type: which arms are in order, and whether
//! together they cover every alternative.

use vstd::prelude::*;
use crate::system_f::span::Span;
use crate::system_f::terms::{arm_views, Arm, ArmView, Pattern, PatternView};
use super::error::{TypeError, TypeErrorKind, TypeErrorKindView, TypeErrorView};
use super::{variant_views, Type, TypeView, Variant, VariantView};

verus! {

/// The payload type of the first alternative labelled `label`, if there is
/// one.
pub open spec fn field_type(fields: Seq<VariantView>, label: Seq<char>) -> Option<TypeView>
    decreases fields.len(),
{
    if fields.len() == 0 {
        None
    } else if fields[0].label == label {
        Some(fields[0].ty)
    } else {
        field_type(fields.drop_first(), label)
    }
}

/// Whether some alternative is labelled `label`.
pub open spec fn declares(fields: Seq<VariantView>, label: Seq<char>) -> bool {
    exists|i: int| 0 <= i < fields.len() && (#[trigger] fields[i]).label == label
}

/// An alternative has a payload type exactly when its label is declared.
pub proof fn lemma_field_type_declared(fields: Seq<VariantView>, label: Seq<char>)
    ensures
        field_type(fields, label).is_some() == declares(fields, label),
    decreases fields.len(),
{
    if fields.len() > 0 {
        if fields[0].label == label {
        } else {
            let rest = fields.drop_first();
            lemma_field_type_declared(rest, label);
            if declares(rest, label) {
                let i = choose|i: int| 0 <= i < rest.len() && (#[trigger] rest[i]).label == label;
                assert(fields[i + 1].label == label);
            }
            if declares(fields, label) {
                let i = choose|i: int|
                    0 <= i < fields.len() && (#[trigger] fields[i]).label == label;
                assert(rest[i - 1].label == label);
            }
        }
    }
}

/// Extracts the payload type of the alternative labelled `label`: of the
/// first one, should the label occur twice. Where no alternative has the
/// label, the failure is `NotVariant` at `span`.
pub fn variant_field<'vs>(var: &'vs [Variant], label: &String, span: Span) -> (r: Result<
    &'vs Type,
    TypeError,
>)
    ensures
        match field_type(variant_views(var@), label@) {
            Some(ty) => r.is_ok() && r.unwrap()@ == ty,
            None => r.is_err() && r.unwrap_err()@ == (TypeErrorView {
                span,
                kind: TypeErrorKindView::NotVariant,
            }),
        },
{
    let ghost fields = variant_views(var@);
    assert(fields.subrange(0, fields.len() as int) =~= fields);
    let mut i: usize = 0;
    while i < var.len()
        invariant
            i <= var.len(),
            fields == variant_views(var@),
            field_type(fields, label@) == field_type(fields.subrange(i as int, fields.len() as int), label@),
        decreases var.len() - i,
    {
        let ghost rest = fields.subrange(i as int, fields.len() as int);
        assert(rest[0] == fields[i as int]);
        if var[i].label == *label {
            return Ok(&var[i].ty);
        }
        assert(rest.drop_first() =~= fields.subrange(i + 1, fields.len() as int));
        i += 1;
    }
    Err(TypeError { span, kind: TypeErrorKind::NotVariant })
}

/// Whether arm `i` names a label that the variant type does not declare.
pub open spec fn arm_invalid(fields: Seq<VariantView>, arms: Seq<ArmView>, i: int) -> bool {
    arms[i].pat matches PatternView::Constructor(label) && !declares(fields, label)
}

/// Whether no value reaches arm `i`: an earlier arm matches anything, or
/// matches the same label.
pub open spec fn arm_unreachable(arms: Seq<ArmView>, i: int) -> bool {
    exists|j: int| 0 <= j < i && is_shadow(arms, j, i)
}

/// Whether arm `j` takes every value that arm `i` could take.
pub open spec fn is_shadow(arms: Seq<ArmView>, j: int, i: int) -> bool {
    arms[j].pat is Any || arms[j].pat == arms[i].pat
}

/// Whether arm `i` is out of order, one way or the other.
pub open spec fn arm_bad(fields: Seq<VariantView>, arms: Seq<ArmView>, i: int) -> bool {
    arm_invalid(fields, arms, i) || arm_unreachable(arms, i)
}

/// Whether arm `i` is the first that is out of order.
pub open spec fn first_bad(fields: Seq<VariantView>, arms: Seq<ArmView>, i: int) -> bool {
    &&& 0 <= i < arms.len()
    &&& arm_bad(fields, arms, i)
    &&& forall|j: int| 0 <= j < i ==> !arm_bad(fields, arms, j)
}

/// Whether some arm matches `pat`.
pub open spec fn has_arm(arms: Seq<ArmView>, pat: PatternView) -> bool {
    exists|j: int| 0 <= j < arms.len() && (#[trigger] arms[j]).pat == pat
}

/// Whether the arms leave no alternative out: one of them matches anything,
/// or each label has its arm.
pub open spec fn covers(fields: Seq<VariantView>, arms: Seq<ArmView>) -> bool {
    has_arm(arms, PatternView::Any) || forall|i: int|
        0 <= i < fields.len() ==> has_arm(
            arms,
            PatternView::Constructor((#[trigger] fields[i]).label),
        )
}

/// What is wrong with the arms of a case over the alternatives `fields`, if
/// anything.
///
/// The arms are judged in order, and the first that is out of order decides:
/// it is an `InvalidPattern` where its label is not declared, and else an
/// `UnreachablePattern`; either is reported at that arm. Where every arm is
/// in order but some alternative is left out, the case as a whole, at `span`,
/// is `NotExhaustive`.
pub open spec fn pattern_error(fields: Seq<VariantView>, arms: Seq<ArmView>, span: Span) -> Option<
    TypeErrorView,
> {
    if exists|i: int| first_bad(fields, arms, i) {
        let i = choose|i: int| first_bad(fields, arms, i);
        Some(
            TypeErrorView {
                span: arms[i].span,
                kind: if arm_invalid(fields, arms, i) {
                    TypeErrorKindView::InvalidPattern
                } else {
                    TypeErrorKindView::UnreachablePattern
                },
            },
        )
    } else if !covers(fields, arms) {
        Some(TypeErrorView { span, kind: TypeErrorKindView::NotExhaustive })
    } else {
        None
    }
}

/// Arms that name each label once, and nothing else, are in order and cover
/// the variant type, in whatever order they come.
pub proof fn each_label_once_covers(fields: Seq<VariantView>, arms: Seq<ArmView>, span: Span)
    requires
        forall|i: int|
            0 <= i < arms.len() ==> (#[trigger] arms[i]).pat is Constructor && declares(
                fields,
                arms[i].pat->Constructor_0,
            ),
        forall|i: int, j: int|
            0 <= j < i < arms.len() ==> (#[trigger] arms[j]).pat != (#[trigger] arms[i]).pat,
        forall|k: int|
            0 <= k < fields.len() ==> has_arm(
                arms,
                PatternView::Constructor((#[trigger] fields[k]).label),
            ),
    ensures
        pattern_error(fields, arms, span) is None,
{
    assert forall|i: int| 0 <= i < arms.len() implies !arm_bad(fields, arms, i) by {
        if arm_unreachable(arms, i) {
            let j = choose|j: int| 0 <= j < i && is_shadow(arms, j, i);
            assert(arms[j].pat is Constructor);
            assert(arms[j].pat != arms[i].pat);
        }
    }
}

/// Arms that are in order but leave a label out, with no arm for anything
/// else, do not cover the variant type.
pub proof fn missing_label_is_not_exhaustive(
    fields: Seq<VariantView>,
    arms: Seq<ArmView>,
    span: Span,
    k: int,
)
    requires
        forall|i: int| 0 <= i < arms.len() ==> !arm_bad(fields, arms, i),
        0 <= k < fields.len(),
        !has_arm(arms, PatternView::Constructor(fields[k].label)),
        !has_arm(arms, PatternView::Any),
    ensures
        pattern_error(fields, arms, span) == Some(
            TypeErrorView { span, kind: TypeErrorKindView::NotExhaustive },
        ),
{
}

/// A second arm for a label is unreachable, and is reported where it stands:
/// at the later of the two arms, where every arm before it is in order.
pub proof fn repeated_label_is_unreachable(
    fields: Seq<VariantView>,
    arms: Seq<ArmView>,
    span: Span,
    first: int,
    second: int,
)
    requires
        0 <= first < second < arms.len(),
        arms[first].pat == arms[second].pat,
        !arm_invalid(fields, arms, second),
        forall|i: int| 0 <= i < second ==> !arm_bad(fields, arms, i),
    ensures
        pattern_error(fields, arms, span) == Some(
            TypeErrorView { span: arms[second].span, kind: TypeErrorKindView::UnreachablePattern },
        ),
{
    assert(is_shadow(arms, first, second));
    assert(first_bad(fields, arms, second));
    let c = choose|i: int| first_bad(fields, arms, i);
    if c < second {
        assert(!arm_bad(fields, arms, c));
    }
    if second < c {
        assert(!arm_bad(fields, arms, second));
    }
}

/// Whether some alternative is labelled `label`.
fn declared(fields: &Vec<Variant>, label: &String) -> (r: bool)
    ensures
        r == declares(variant_views(fields@), label@),
{
    let mut i: usize = 0;
    while i < fields.len()
        invariant
            i <= fields.len(),
            forall|j: int| 0 <= j < i ==> (#[trigger] variant_views(fields@)[j]).label != label@,
        decreases fields.len() - i,
    {
        if fields[i].label == *label {
            assert(variant_views(fields@)[i as int].label == label@);
            return true;
        }
        i += 1;
    }
    false
}

/// Whether one of the first `upto` arms matches `pat`.
fn matched_before(arms: &Vec<Arm>, upto: usize, pat: &Pattern) -> (r: bool)
    requires
        upto <= arms.len(),
    ensures
        r == exists|j: int| 0 <= j < upto && (#[trigger] arm_views(arms@)[j]).pat == pat@,
{
    let mut j: usize = 0;
    while j < upto
        invariant
            j <= upto <= arms.len(),
            forall|k: int| 0 <= k < j ==> (#[trigger] arm_views(arms@)[k]).pat != pat@,
        decreases upto - j,
    {
        let same = match (&arms[j].pat, pat) {
            (Pattern::Any, Pattern::Any) => true,
            (Pattern::Constructor(a), Pattern::Constructor(b)) => *a == *b,
            _ => false,
        };
        if same {
            assert(arm_views(arms@)[j as int].pat == pat@);
            return true;
        }
        j += 1;
    }
    false
}

/// Checks the arms of a case over the alternatives `fields`: that each arm
/// names a declared label, that none comes after an arm that takes its
/// values, and that no alternative is left without an arm.
pub fn check_patterns(fields: &Vec<Variant>, arms: &Vec<Arm>, span: Span) -> (r: Result<
    (),
    TypeError,
>)
    ensures
        match pattern_error(variant_views(fields@), arm_views(arms@), span) {
            Some(e) => r.is_err() && r.unwrap_err()@ == e,
            None => r.is_ok(),
        },
{
    let ghost fs = variant_views(fields@);
    let ghost ars = arm_views(arms@);
    let mut seen_any = false;
    let mut i: usize = 0;
    while i < arms.len()
        invariant
            i <= arms.len(),
            fs == variant_views(fields@),
            ars == arm_views(arms@),
            forall|j: int| 0 <= j < i ==> !arm_bad(fs, ars, j),
            seen_any == exists|j: int| 0 <= j < i && (#[trigger] ars[j]).pat is Any,
        decreases arms.len() - i,
    {
        let any = Pattern::Any;
        let bad = match &arms[i].pat {
            Pattern::Any => {
                if seen_any {
                    Some(TypeErrorKind::UnreachablePattern)
                } else {
                    None
                }
            },
            Pattern::Constructor(label) => {
                if !declared(fields, label) {
                    Some(TypeErrorKind::InvalidPattern)
                } else if seen_any || matched_before(arms, i, &arms[i].pat) {
                    Some(TypeErrorKind::UnreachablePattern)
                } else {
                    None
                }
            },
        };
        proof {
            let unreachable = seen_any || exists|j: int|
                0 <= j < i && (#[trigger] ars[j]).pat == ars[i as int].pat;
            if unreachable {
                let j = choose|j: int|
                    0 <= j < i && ((#[trigger] ars[j]).pat is Any || ars[j].pat == ars[i as int].pat);
                assert(is_shadow(ars, j, i as int));
            }
            if arm_unreachable(ars, i as int) {
                let j = choose|j: int| 0 <= j < i && is_shadow(ars, j, i as int);
                assert(ars[j].pat is Any || ars[j].pat == ars[i as int].pat);
            }
            assert(arm_unreachable(ars, i as int) == unreachable);
        }
        match bad {
            Some(kind) => {
                assert(first_bad(fs, ars, i as int));
                assert forall|k: int| first_bad(fs, ars, k) implies k == i by {}
                return Err(TypeError { span: arms[i].span, kind });
            },
            None => {},
        }
        if matches!(arms[i].pat, Pattern::Any) {
            seen_any = true;
        }
        i += 1;
    }
    assert(!exists|i: int| first_bad(fs, ars, i));
    assert(seen_any == has_arm(ars, PatternView::Any));
    if !seen_any {
        let mut k: usize = 0;
        while k < fields.len()
            invariant
                k <= fields.len(),
                fs == variant_views(fields@),
                ars == arm_views(arms@),
                !has_arm(ars, PatternView::Any),
                !exists|i: int| first_bad(fs, ars, i),
                forall|j: int|
                    0 <= j < k ==> has_arm(ars, PatternView::Constructor((#[trigger] fs[j]).label)),
            decreases fields.len() - k,
        {
            let pat = Pattern::Constructor(fields[k].label.clone());
            if !matched_before(arms, arms.len(), &pat) {
                assert(!has_arm(ars, PatternView::Constructor(fs[k as int].label)));
                return Err(TypeError { span, kind: TypeErrorKind::NotExhaustive });
            }
            k += 1;
        }
    }
    Ok(())
}

} // verus!
