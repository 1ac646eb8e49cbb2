//! The structural description of a declaration: its members, their declared
//! types and the annotations attached to them.
//!
//! Every type here has a mathematical view (`@`) over sequences of
//! characters; contracts elsewhere in the crate are stated over those views.

use vstd::prelude::*;

verus! {

/// A position in the source text that a declaration was read from.
#[derive(Clone, Copy, Debug, PartialEq, Eq, Structural)]
pub struct SourceLocation {
    pub line: usize,
    pub column: usize,
}

/// A key/value directive attached to a member, such as `each = "arg"`.
#[derive(Debug, PartialEq, Eq)]
pub struct Annotation {
    pub key: String,
    pub value: String,
    pub location: SourceLocation,
}

pub struct AnnotationView {
    pub key: Seq<char>,
    pub value: Seq<char>,
    pub location: SourceLocation,
}

impl View for Annotation {
    type V = AnnotationView;

    open spec fn view(&self) -> AnnotationView {
        AnnotationView { key: self.key@, value: self.value@, location: self.location }
    }
}

impl Clone for Annotation {
    fn clone(&self) -> (copy: Self)
        ensures
            copy@ == self@,
    {
        Annotation { key: self.key.clone(), value: self.value.clone(), location: self.location }
    }
}

/// A declared type, as far as its structure matters here.
///
/// `Generic` is a named type applied to zero or more type arguments; the
/// `qualifier` is the path written in front of the head name, kept as text
/// (`"std::option::"` in `std::option::Option<T>`). Every other form of type
/// is `Verbatim` and is only carried along.
#[derive(Debug, PartialEq, Eq)]
pub enum TypeExpression {
    Generic { qualifier: String, head: String, arguments: Vec<TypeExpression> },
    Verbatim { text: String },
}

pub enum TypeView {
    Generic { qualifier: Seq<char>, head: Seq<char>, arguments: Seq<TypeView> },
    Verbatim { text: Seq<char> },
}

impl View for TypeExpression {
    type V = TypeView;

    open spec fn view(&self) -> TypeView
        decreases self,
    {
        match self {
            TypeExpression::Generic { qualifier, head, arguments } => TypeView::Generic {
                qualifier: qualifier@,
                head: head@,
                arguments: Seq::new(
                    arguments@.len(),
                    |i: int|
                        if 0 <= i < arguments@.len() {
                            arguments@[i].view()
                        } else {
                            TypeView::Verbatim { text: Seq::empty() }
                        },
                ),
            },
            TypeExpression::Verbatim { text } => TypeView::Verbatim { text: text@ },
        }
    }
}

impl Clone for TypeExpression {
    fn clone(&self) -> (copy: Self)
        ensures
            copy@ == self@,
        decreases self,
    {
        match self {
            TypeExpression::Generic { qualifier, head, arguments } => {
                let mut copies: Vec<TypeExpression> = Vec::new();
                let mut i: usize = 0;
                while i < arguments.len()
                    invariant
                        i <= arguments.len(),
                        copies.len() == i,
                        *self is Generic,
                        self->arguments == *arguments,
                        forall|k: int| 0 <= k < i ==> copies@[k]@ == arguments@[k]@,
                    decreases arguments.len() - i,
                {
                    copies.push(arguments[i].clone());
                    i += 1;
                }
                let copy = TypeExpression::Generic {
                    qualifier: qualifier.clone(),
                    head: head.clone(),
                    arguments: copies,
                };
                assert(copy@->arguments =~= self@->arguments);
                copy
            },
            TypeExpression::Verbatim { text } => TypeExpression::Verbatim { text: text.clone() },
        }
    }
}

/// One member of a record, or one variant of a union, in declaration order.
#[derive(Debug, PartialEq, Eq)]
pub struct MemberDescriptor {
    pub name: String,
    pub declared_type: TypeExpression,
    pub annotations: Vec<Annotation>,
    pub location: SourceLocation,
}

pub struct MemberView {
    pub name: Seq<char>,
    pub declared_type: TypeView,
    pub annotations: Seq<AnnotationView>,
    pub location: SourceLocation,
}

impl View for MemberDescriptor {
    type V = MemberView;

    open spec fn view(&self) -> MemberView {
        MemberView {
            name: self.name@,
            declared_type: self.declared_type@,
            annotations: self.annotations@.map_values(|a: Annotation| a@),
            location: self.location,
        }
    }
}

impl Clone for MemberDescriptor {
    fn clone(&self) -> (copy: Self)
        ensures
            copy@ == self@,
    {
        let mut annotations: Vec<Annotation> = Vec::new();
        let mut i: usize = 0;
        while i < self.annotations.len()
            invariant
                i <= self.annotations.len(),
                annotations.len() == i,
                forall|k: int|
                    0 <= k < i ==> (#[trigger] annotations@[k])@ == self.annotations@[k]@,
            decreases self.annotations.len() - i,
        {
            annotations.push(self.annotations[i].clone());
            i += 1;
        }
        let copy = MemberDescriptor {
            name: self.name.clone(),
            declared_type: self.declared_type.clone(),
            annotations,
            location: self.location,
        };
        assert(copy@.annotations =~= self@.annotations);
        copy
    }
}

fn clone_members(members: &Vec<MemberDescriptor>) -> (copies: Vec<MemberDescriptor>)
    ensures
        copies@.map_values(|m: MemberDescriptor| m@) == members@.map_values(
            |m: MemberDescriptor| m@,
        ),
{
    let mut copies: Vec<MemberDescriptor> = Vec::new();
    let mut i: usize = 0;
    while i < members.len()
        invariant
            i <= members.len(),
            copies.len() == i,
            forall|k: int| 0 <= k < i ==> (#[trigger] copies@[k])@ == members@[k]@,
        decreases members.len() - i,
    {
        copies.push(members[i].clone());
        i += 1;
    }
    assert(copies@.map_values(|m: MemberDescriptor| m@) =~= members@.map_values(
        |m: MemberDescriptor| m@,
    ));
    copies
}

/// A record declaration: a name and its members in declaration order.
#[derive(Debug, PartialEq, Eq)]
pub struct RecordSchema {
    pub name: String,
    pub members: Vec<MemberDescriptor>,
    pub location: SourceLocation,
}

pub struct RecordView {
    pub name: Seq<char>,
    pub members: Seq<MemberView>,
    pub location: SourceLocation,
}

impl View for RecordSchema {
    type V = RecordView;

    open spec fn view(&self) -> RecordView {
        RecordView {
            name: self.name@,
            members: self.members@.map_values(|m: MemberDescriptor| m@),
            location: self.location,
        }
    }
}

impl Clone for RecordSchema {
    fn clone(&self) -> (copy: Self)
        ensures
            copy@ == self@,
    {
        RecordSchema {
            name: self.name.clone(),
            members: clone_members(&self.members),
            location: self.location,
        }
    }
}

/// A tagged union declaration: a name and its variants in declaration order.
#[derive(Debug, PartialEq, Eq)]
pub struct UnionSchema {
    pub name: String,
    pub variants: Vec<MemberDescriptor>,
    pub location: SourceLocation,
}

pub struct UnionView {
    pub name: Seq<char>,
    pub variants: Seq<MemberView>,
    pub location: SourceLocation,
}

impl View for UnionSchema {
    type V = UnionView;

    open spec fn view(&self) -> UnionView {
        UnionView {
            name: self.name@,
            variants: self.variants@.map_values(|m: MemberDescriptor| m@),
            location: self.location,
        }
    }
}

impl UnionView {
    /// The variant names, in declaration order.
    pub open spec fn names(self) -> Seq<Seq<char>> {
        self.variants.map_values(|m: MemberView| m.name)
    }
}

impl Clone for UnionSchema {
    fn clone(&self) -> (copy: Self)
        ensures
            copy@ == self@,
    {
        UnionSchema {
            name: self.name.clone(),
            variants: clone_members(&self.variants),
            location: self.location,
        }
    }
}

/// A declaration as handed over by whoever read the source.
#[derive(Debug, PartialEq, Eq)]
pub enum Declaration {
    Record(RecordSchema),
    Union(UnionSchema),
}

pub enum DeclarationView {
    Record(RecordView),
    Union(UnionView),
}

impl View for Declaration {
    type V = DeclarationView;

    open spec fn view(&self) -> DeclarationView {
        match self {
            Declaration::Record(r) => DeclarationView::Record(r@),
            Declaration::Union(u) => DeclarationView::Union(u@),
        }
    }
}

impl Clone for Declaration {
    fn clone(&self) -> (copy: Self)
        ensures
            copy@ == self@,
    {
        match self {
            Declaration::Record(r) => Declaration::Record(r.clone()),
            Declaration::Union(u) => Declaration::Union(u.clone()),
        }
    }
}

impl Declaration {
    /// Where the whole declaration stands in the source.
    pub open spec fn spec_location(&self) -> SourceLocation {
        match self {
            Declaration::Record(r) => r.location,
            Declaration::Union(u) => u.location,
        }
    }

    /// Where the whole declaration stands in the source.
    #[verifier::when_used_as_spec(spec_location)]
    pub fn location(&self) -> (loc: SourceLocation)
        ensures
            loc == self.spec_location(),
    {
        match self {
            Declaration::Record(r) => r.location,
            Declaration::Union(u) => u.location,
        }
    }
}

} // verus!
