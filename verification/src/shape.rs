//! Recognising the outermost shape of a declared type.
//!
//! Recognition is purely syntactic and looks at one layer only: a type is
//! optional when it is `Option` applied to exactly one argument, a sequence
//! when it is `Vec` applied to exactly one argument, and plain otherwise.

use crate::schema::{TypeExpression, TypeView};
use vstd::prelude::*;
use vstd::string::*;

verus! {

/// The outermost shape of a declared type, borrowing from the type.
#[derive(Debug, PartialEq, Eq)]
pub enum TypeShape<'a> {
    /// Any type that is neither of the two wrappers; holds the whole type.
    Plain(&'a TypeExpression),
    /// `Option<T>`; holds `T`.
    Optional(&'a TypeExpression),
    /// `Vec<T>`; holds `T`.
    Sequence(&'a TypeExpression),
}

pub enum ShapeView {
    Plain(TypeView),
    Optional(TypeView),
    Sequence(TypeView),
}

impl<'a> View for TypeShape<'a> {
    type V = ShapeView;

    open spec fn view(&self) -> ShapeView {
        match self {
            TypeShape::Plain(t) => ShapeView::Plain(t@),
            TypeShape::Optional(t) => ShapeView::Optional(t@),
            TypeShape::Sequence(t) => ShapeView::Sequence(t@),
        }
    }
}

/// The argument of `ty` when `ty` is the type named `wrapper` applied to
/// exactly one argument, whatever path qualifies the name.
pub open spec fn wrapped_type(ty: TypeView, wrapper: Seq<char>) -> Option<TypeView> {
    match ty {
        TypeView::Generic { qualifier, head, arguments } => if head == wrapper && arguments.len()
            == 1 {
            Some(arguments[0])
        } else {
            None
        },
        TypeView::Verbatim { text } => None,
    }
}

/// `T` when `ty` is `Option<T>`.
pub open spec fn optional_inner(ty: TypeView) -> Option<TypeView> {
    wrapped_type(ty, "Option"@)
}

/// `T` when `ty` is `Vec<T>`.
pub open spec fn sequence_element(ty: TypeView) -> Option<TypeView> {
    wrapped_type(ty, "Vec"@)
}

/// The shape of a type. The optional wrapper is looked for first.
pub open spec fn shape_of(ty: TypeView) -> ShapeView {
    match optional_inner(ty) {
        Some(inner) => ShapeView::Optional(inner),
        None => match sequence_element(ty) {
            Some(element) => ShapeView::Sequence(element),
            None => ShapeView::Plain(ty),
        },
    }
}

fn unwrap_type<'a>(ty: &'a TypeExpression, wrapper: &str) -> (inner: Option<&'a TypeExpression>)
    ensures
        match inner {
            Some(t) => wrapped_type(ty@, wrapper@) == Some(t@),
            None => wrapped_type(ty@, wrapper@) is None,
        },
{
    match ty {
        TypeExpression::Generic { qualifier, head, arguments } => {
            if arguments.len() == 1 && *head == String::from_str(wrapper) {
                Some(&arguments[0])
            } else {
                None
            }
        },
        TypeExpression::Verbatim { text } => None,
    }
}

/// The wrapped type of an optional member: `Some(T)` exactly when `ty` is
/// `Option<T>`.
pub fn get_option_type(ty: &TypeExpression) -> (inner: Option<&TypeExpression>)
    ensures
        match inner {
            Some(t) => optional_inner(ty@) == Some(t@),
            None => optional_inner(ty@) is None,
        },
{
    unwrap_type(ty, "Option")
}

/// The element type of a sequence member: `Some(T)` exactly when `ty` is
/// `Vec<T>`.
pub fn get_inside_type(ty: &TypeExpression) -> (element: Option<&TypeExpression>)
    ensures
        match element {
            Some(t) => sequence_element(ty@) == Some(t@),
            None => sequence_element(ty@) is None,
        },
{
    unwrap_type(ty, "Vec")
}

/// Classifies a declared type by its outermost layer.
pub fn shape(ty: &TypeExpression) -> (s: TypeShape<'_>)
    ensures
        s@ == shape_of(ty@),
{
    match get_option_type(ty) {
        Some(inner) => TypeShape::Optional(inner),
        None => match get_inside_type(ty) {
            Some(element) => TypeShape::Sequence(element),
            None => TypeShape::Plain(ty),
        },
    }
}

} // verus!
