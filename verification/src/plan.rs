//! Classifying the members of a record: how each one is stored in the
//! builder, how it is set, and how it reaches the finished record.

use crate::annotation::{each_directive, get_user_specified_ident_for_vec};
use crate::diagnostic::{Diagnostic, DiagnosticView};
use crate::schema::{
    MemberDescriptor, MemberView, RecordSchema, RecordView, TypeExpression, TypeView,
};
use crate::shape::{shape, shape_of, ShapeView, TypeShape};
use vstd::prelude::*;
use vstd::string::*;

verus! {

/// What a builder member holds before any setter has run.
#[derive(Clone, Copy, Debug, PartialEq, Eq, Structural)]
pub enum InitValue {
    /// No value (`None`).
    Absent,
    /// The empty sequence.
    Empty,
}

/// What a setter does to the member it belongs to.
#[derive(Clone, Copy, Debug, PartialEq, Eq, Structural)]
pub enum MutationKind {
    /// Stores its argument in place of what was there.
    Replace,
    /// Adds its argument at the end of the sequence.
    Append,
}

/// How a record member is made from its builder member.
#[derive(Clone, Copy, Debug, PartialEq, Eq, Structural)]
pub enum FinalizeExpression {
    /// The stored value as it is.
    Copy,
    /// The value inside the stored option; fails where there is none.
    Unwrap,
}

/// One setter of the builder.
#[derive(Debug, PartialEq, Eq)]
pub struct SetterSpec {
    pub exposed_name: String,
    pub parameter_type: TypeExpression,
    pub mutation_kind: MutationKind,
}

pub struct SetterView {
    pub exposed_name: Seq<char>,
    pub parameter_type: TypeView,
    pub mutation_kind: MutationKind,
}

impl View for SetterSpec {
    type V = SetterView;

    open spec fn view(&self) -> SetterView {
        SetterView {
            exposed_name: self.exposed_name@,
            parameter_type: self.parameter_type@,
            mutation_kind: self.mutation_kind,
        }
    }
}

/// How one member of the record appears in the builder.
#[derive(Debug, PartialEq, Eq)]
pub struct FieldPlan {
    pub name: String,
    pub builder_storage_type: TypeExpression,
    pub init_value: InitValue,
    pub setters: Vec<SetterSpec>,
    pub required: bool,
    pub finalize_expression: FinalizeExpression,
}

pub struct FieldPlanView {
    pub name: Seq<char>,
    pub builder_storage_type: TypeView,
    pub init_value: InitValue,
    pub setters: Seq<SetterView>,
    pub required: bool,
    pub finalize_expression: FinalizeExpression,
}

impl View for FieldPlan {
    type V = FieldPlanView;

    open spec fn view(&self) -> FieldPlanView {
        FieldPlanView {
            name: self.name@,
            builder_storage_type: self.builder_storage_type@,
            init_value: self.init_value,
            setters: self.setters@.map_values(|s: SetterSpec| s@),
            required: self.required,
            finalize_expression: self.finalize_expression,
        }
    }
}

/// The plans for all members of one record, in declaration order.
#[derive(Debug, PartialEq, Eq)]
pub struct BuilderSpec {
    pub record_name: String,
    pub plans: Vec<FieldPlan>,
}

pub struct BuilderSpecView {
    pub record_name: Seq<char>,
    pub plans: Seq<FieldPlanView>,
}

impl View for BuilderSpec {
    type V = BuilderSpecView;

    open spec fn view(&self) -> BuilderSpecView {
        BuilderSpecView {
            record_name: self.record_name@,
            plans: self.plans@.map_values(|p: FieldPlan| p@),
        }
    }
}

/// The type `Option<ty>`.
pub open spec fn option_of(ty: TypeView) -> TypeView {
    TypeView::Generic { qualifier: Seq::empty(), head: "Option"@, arguments: seq![ty] }
}

/// The one setter of a member.
pub open spec fn single_setter(
    exposed_name: Seq<char>,
    parameter_type: TypeView,
    mutation_kind: MutationKind,
) -> Seq<SetterView> {
    seq![SetterView { exposed_name, parameter_type, mutation_kind }]
}

/// The plan for a member with the given name and declared type, where `each`
/// is the setter name that its annotations ask for.
///
/// An optional member keeps its type, starts absent and is copied. A sequence
/// member keeps its type, starts empty and is copied; with `each` its setter
/// takes one element and appends it, under the name that `each` gives, and
/// without `each` it takes a whole sequence. Any other member is stored in an
/// option, starts absent, is required and is unwrapped; `each` has no effect
/// on an optional or a plain member.
pub open spec fn plan_for(name: Seq<char>, ty: TypeView, each: Option<Seq<char>>) -> FieldPlanView {
    match shape_of(ty) {
        ShapeView::Optional(inner) => FieldPlanView {
            name,
            builder_storage_type: ty,
            init_value: InitValue::Absent,
            setters: single_setter(name, inner, MutationKind::Replace),
            required: false,
            finalize_expression: FinalizeExpression::Copy,
        },
        ShapeView::Sequence(element) => FieldPlanView {
            name,
            builder_storage_type: ty,
            init_value: InitValue::Empty,
            setters: match each {
                Some(setter) => single_setter(setter, element, MutationKind::Append),
                None => single_setter(name, ty, MutationKind::Replace),
            },
            required: false,
            finalize_expression: FinalizeExpression::Copy,
        },
        ShapeView::Plain(plain) => FieldPlanView {
            name,
            builder_storage_type: option_of(plain),
            init_value: InitValue::Absent,
            setters: single_setter(name, plain, MutationKind::Replace),
            required: true,
            finalize_expression: FinalizeExpression::Unwrap,
        },
    }
}

/// The plan for one member, or the diagnostic for its first annotation that
/// is not understood.
pub open spec fn classify_spec(member: MemberView) -> Result<FieldPlanView, DiagnosticView> {
    match each_directive(member.annotations) {
        Err(d) => Err(d),
        Ok(each) => Ok(plan_for(member.name, member.declared_type, each)),
    }
}

/// The plans for the given members in order, or the diagnostic of the first
/// member that has one.
pub open spec fn plan_members(members: Seq<MemberView>) -> Result<
    Seq<FieldPlanView>,
    DiagnosticView,
>
    decreases members.len(),
{
    if members.len() == 0 {
        Ok(Seq::empty())
    } else {
        match plan_members(members.drop_last()) {
            Err(d) => Err(d),
            Ok(plans) => match classify_spec(members.last()) {
                Err(d) => Err(d),
                Ok(plan) => Ok(plans.push(plan)),
            },
        }
    }
}

/// The plans for a whole record.
pub open spec fn plan_record(schema: RecordView) -> Result<BuilderSpecView, DiagnosticView> {
    match plan_members(schema.members) {
        Err(d) => Err(d),
        Ok(plans) => Ok(BuilderSpecView { record_name: schema.name, plans }),
    }
}

fn one_setter(
    exposed_name: String,
    parameter_type: TypeExpression,
    mutation_kind: MutationKind,
) -> (setters: Vec<SetterSpec>)
    ensures
        setters@.map_values(|s: SetterSpec| s@) == single_setter(
            exposed_name@,
            parameter_type@,
            mutation_kind,
        ),
{
    let setters = vec![SetterSpec { exposed_name, parameter_type, mutation_kind }];
    assert(setters@.map_values(|s: SetterSpec| s@) =~= single_setter(
        exposed_name@,
        parameter_type@,
        mutation_kind,
    ));
    setters
}

/// Classifies one member of a record.
///
/// Fails exactly where an annotation of the member is not understood, with
/// the diagnostic of the first such annotation.
pub fn classify(member: &MemberDescriptor) -> (r: Result<FieldPlan, Diagnostic>)
    ensures
        match r {
            Ok(plan) => classify_spec(member@) == Ok::<FieldPlanView, DiagnosticView>(plan@),
            Err(d) => classify_spec(member@) == Err::<FieldPlanView, DiagnosticView>(d@),
        },
{
    let each = match get_user_specified_ident_for_vec(member) {
        Ok(each) => each,
        Err(d) => {
            return Err(d);
        },
    };
    let name = member.name.clone();
    let plan = match shape(&member.declared_type) {
        TypeShape::Optional(inner) => FieldPlan {
            name,
            builder_storage_type: member.declared_type.clone(),
            init_value: InitValue::Absent,
            setters: one_setter(member.name.clone(), inner.clone(), MutationKind::Replace),
            required: false,
            finalize_expression: FinalizeExpression::Copy,
        },
        TypeShape::Sequence(element) => FieldPlan {
            name,
            builder_storage_type: member.declared_type.clone(),
            init_value: InitValue::Empty,
            setters: match each {
                Some(setter) => one_setter(setter, element.clone(), MutationKind::Append),
                None => one_setter(
                    member.name.clone(),
                    member.declared_type.clone(),
                    MutationKind::Replace,
                ),
            },
            required: false,
            finalize_expression: FinalizeExpression::Copy,
        },
        TypeShape::Plain(plain) => {
            let storage = TypeExpression::Generic {
                qualifier: String::new(),
                head: String::from_str("Option"),
                arguments: vec![plain.clone()],
            };
            assert(storage@->arguments =~= seq![plain@]);
            FieldPlan {
                name,
                builder_storage_type: storage,
                init_value: InitValue::Absent,
                setters: one_setter(member.name.clone(), plain.clone(), MutationKind::Replace),
                required: true,
                finalize_expression: FinalizeExpression::Unwrap,
            }
        },
    };
    Ok(plan)
}

/// Every plan has exactly one setter, whatever the member.
pub proof fn lemma_plan_has_one_setter(name: Seq<char>, ty: TypeView, each: Option<Seq<char>>)
    ensures
        plan_for(name, ty, each).setters.len() == 1,
        plan_for(name, ty, each).name == name,
{
}

/// What [`plan_members`] gives, member by member: where it succeeds, every
/// member is classified and the plans stand in the order of the members;
/// where it fails, the diagnostic is that of the first member that cannot be
/// classified.
pub proof fn lemma_plan_members(members: Seq<MemberView>)
    ensures
        match plan_members(members) {
            Ok(plans) => {
                &&& plans.len() == members.len()
                &&& forall|i: int|
                    0 <= i < members.len() ==> classify_spec(#[trigger] members[i]) == Ok::<
                        FieldPlanView,
                        DiagnosticView,
                    >(plans[i])
            },
            Err(d) => exists|i: int|
                {
                    &&& 0 <= i < members.len()
                    &&& classify_spec(#[trigger] members[i]) == Err::<
                        FieldPlanView,
                        DiagnosticView,
                    >(d)
                    &&& forall|j: int| 0 <= j < i ==> classify_spec(#[trigger] members[j]) is Ok
                },
        },
    decreases members.len(),
{
    if members.len() > 0 {
        let front = members.drop_last();
        lemma_plan_members(front);
        match plan_members(front) {
            Ok(plans) => {
                assert forall|j: int| 0 <= j < front.len() implies classify_spec(
                    #[trigger] members[j],
                ) is Ok by {
                    assert(members[j] == front[j]);
                }
                match classify_spec(members.last()) {
                    Ok(plan) => {
                        assert forall|i: int| 0 <= i < members.len() implies classify_spec(
                            #[trigger] members[i],
                        ) == Ok::<FieldPlanView, DiagnosticView>(plans.push(plan)[i]) by {
                            if i < front.len() {
                                assert(members[i] == front[i]);
                            }
                        }
                    },
                    Err(d) => {
                        assert(classify_spec(members[members.len() - 1]) == Err::<
                            FieldPlanView,
                            DiagnosticView,
                        >(d));
                    },
                }
            },
            Err(d) => {
                let i = choose|i: int|
                    {
                        &&& 0 <= i < front.len()
                        &&& classify_spec(#[trigger] front[i]) == Err::<
                            FieldPlanView,
                            DiagnosticView,
                        >(d)
                        &&& forall|j: int| 0 <= j < i ==> classify_spec(#[trigger] front[j]) is Ok
                    };
                assert forall|j: int| 0 <= j < i implies classify_spec(
                    #[trigger] members[j],
                ) is Ok by {
                    assert(members[j] == front[j]);
                }
            },
        }
    }
}

/// An error in a prefix of the members is the error of the whole.
pub proof fn lemma_plan_members_prefix_error(members: Seq<MemberView>, k: int)
    requires
        0 <= k <= members.len(),
        plan_members(members.take(k)) is Err,
    ensures
        plan_members(members) == plan_members(members.take(k)),
    decreases members.len() - k,
{
    if k < members.len() {
        assert(members.take(k + 1).drop_last() =~= members.take(k));
        lemma_plan_members_prefix_error(members, k + 1);
    } else {
        assert(members.take(k) =~= members);
    }
}

/// Classifies every member of a record, in declaration order.
///
/// Fails exactly where some member has an annotation that is not understood,
/// with the diagnostic of the first such member.
pub fn plan_builder(schema: &RecordSchema) -> (r: Result<BuilderSpec, Diagnostic>)
    ensures
        match r {
            Ok(spec) => plan_record(schema@) == Ok::<BuilderSpecView, DiagnosticView>(spec@),
            Err(d) => plan_record(schema@) == Err::<BuilderSpecView, DiagnosticView>(d@),
        },
{
    let ghost members = schema@.members;
    let mut plans: Vec<FieldPlan> = Vec::new();
    let mut i: usize = 0;
    proof {
        assert(plans@.map_values(|p: FieldPlan| p@) =~= Seq::<FieldPlanView>::empty());
    }
    while i < schema.members.len()
        invariant
            i <= schema.members.len(),
            members == schema@.members,
            plan_members(members.take(i as int)) == Ok::<Seq<FieldPlanView>, DiagnosticView>(
                plans@.map_values(|p: FieldPlan| p@),
            ),
        decreases schema.members.len() - i,
    {
        proof {
            assert(members.take(i + 1).drop_last() =~= members.take(i as int));
        }
        match classify(&schema.members[i]) {
            Ok(plan) => {
                let ghost before = plans@.map_values(|p: FieldPlan| p@);
                plans.push(plan);
                assert(plans@.map_values(|p: FieldPlan| p@) =~= before.push(plan@));
            },
            Err(d) => {
                proof {
                    lemma_plan_members_prefix_error(members, i + 1);
                }
                return Err(d);
            },
        }
        i += 1;
    }
    proof {
        assert(members.take(i as int) =~= members);
    }
    Ok(BuilderSpec { record_name: schema.name.clone(), plans })
}

} // verus!
