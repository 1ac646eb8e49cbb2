//! Positioned diagnostics, built the same way by every part of the crate.

use crate::schema::SourceLocation;
use vstd::prelude::*;
use vstd::string::*;

verus! {

/// What went wrong.
#[derive(Clone, Copy, Debug, PartialEq, Eq, Structural)]
pub enum DiagnosticKind {
    /// An annotation that is not of the form `each = "..."`.
    MalformedAnnotation,
    /// A union variant that stands after one it should precede.
    OutOfOrder,
    /// A declaration that is not a tagged union where one is needed.
    UnsupportedShape,
}

/// A message tied to the place in the source that it is about.
#[derive(Debug, PartialEq, Eq)]
pub struct Diagnostic {
    pub kind: DiagnosticKind,
    pub message: String,
    pub location: SourceLocation,
}

pub struct DiagnosticView {
    pub kind: DiagnosticKind,
    pub message: Seq<char>,
    pub location: SourceLocation,
}

impl View for Diagnostic {
    type V = DiagnosticView;

    open spec fn view(&self) -> DiagnosticView {
        DiagnosticView { kind: self.kind, message: self.message@, location: self.location }
    }
}

impl Clone for Diagnostic {
    fn clone(&self) -> (copy: Self)
        ensures
            copy@ == self@,
    {
        Diagnostic { kind: self.kind, message: self.message.clone(), location: self.location }
    }
}

/// The diagnostic for an annotation that is not understood.
pub open spec fn malformed_annotation(location: SourceLocation) -> DiagnosticView {
    DiagnosticView {
        kind: DiagnosticKind::MalformedAnnotation,
        message: "expected `builder(each = \"...\")`"@,
        location,
    }
}

/// The diagnostic for a variant `found` standing where `earlier` belongs.
pub open spec fn out_of_order(
    earlier: Seq<char>,
    found: Seq<char>,
    location: SourceLocation,
) -> DiagnosticView {
    DiagnosticView {
        kind: DiagnosticKind::OutOfOrder,
        message: earlier + " should sort before "@ + found,
        location,
    }
}

/// The diagnostic for a declaration that is not a tagged union.
pub open spec fn unsupported_shape(location: SourceLocation) -> DiagnosticView {
    DiagnosticView {
        kind: DiagnosticKind::UnsupportedShape,
        message: "expected enum or match expression"@,
        location,
    }
}

impl Diagnostic {
    /// Reports an annotation that is not understood, at the annotation.
    pub fn malformed_annotation(location: SourceLocation) -> (d: Diagnostic)
        ensures
            d@ == malformed_annotation(location),
    {
        Diagnostic {
            kind: DiagnosticKind::MalformedAnnotation,
            message: String::from_str("expected `builder(each = \"...\")`"),
            location,
        }
    }

    /// Reports that `earlier` has to stand before `found`, at `location`.
    pub fn out_of_order(earlier: &str, found: &str, location: SourceLocation) -> (d: Diagnostic)
        ensures
            d@ == out_of_order(earlier@, found@, location),
    {
        let mut message = String::from_str(earlier);
        message.append(" should sort before ");
        message.append(found);
        Diagnostic { kind: DiagnosticKind::OutOfOrder, message, location }
    }

    /// Reports a declaration that is not a tagged union, at the declaration.
    pub fn unsupported_shape(location: SourceLocation) -> (d: Diagnostic)
        ensures
            d@ == unsupported_shape(location),
    {
        Diagnostic {
            kind: DiagnosticKind::UnsupportedShape,
            message: String::from_str("expected enum or match expression"),
            location,
        }
    }
}

} // verus!
