//! Synthesising the builder of a record: the declarations that make up the
//! builder type, its construction, its setters and its finalize operation.

use crate::annotation::{
    each_directive, is_recognized, lemma_each_directive, lemma_each_directive_fails,
    lemma_each_directive_succeeds,
};
use crate::diagnostic::{malformed_annotation, Diagnostic, DiagnosticView};
use crate::plan::{
    classify_spec, lemma_plan_has_one_setter, lemma_plan_members, plan_builder, plan_members,
    plan_record, BuilderSpec, BuilderSpecView, FieldPlan, FieldPlanView, FinalizeExpression,
    InitValue, MutationKind, SetterSpec, SetterView,
};
use crate::schema::{RecordSchema, RecordView, TypeExpression, TypeView};
use crate::search::{least_below, lemma_least_below};
use vstd::prelude::*;
use vstd::string::*;

verus! {

/// One member of the builder type.
#[derive(Debug, PartialEq, Eq)]
pub struct BuilderMember {
    pub name: String,
    pub storage_type: TypeExpression,
}

pub struct BuilderMemberView {
    pub name: Seq<char>,
    pub storage_type: TypeView,
}

impl View for BuilderMember {
    type V = BuilderMemberView;

    open spec fn view(&self) -> BuilderMemberView {
        BuilderMemberView { name: self.name@, storage_type: self.storage_type@ }
    }
}

/// The declaration of the builder type: one member for each member of the
/// record, in the same order.
#[derive(Debug, PartialEq, Eq)]
pub struct BuilderTypeDeclaration {
    pub name: String,
    pub members: Vec<BuilderMember>,
}

pub struct BuilderTypeView {
    pub name: Seq<char>,
    pub members: Seq<BuilderMemberView>,
}

impl View for BuilderTypeDeclaration {
    type V = BuilderTypeView;

    open spec fn view(&self) -> BuilderTypeView {
        BuilderTypeView {
            name: self.name@,
            members: self.members@.map_values(|m: BuilderMember| m@),
        }
    }
}

/// The operation on the record type that makes a fresh builder: it takes no
/// argument and gives every builder member, by position, its initial value.
#[derive(Debug, PartialEq, Eq)]
pub struct ConstructionOperation {
    pub record_name: String,
    pub builder_name: String,
    pub inits: Vec<InitValue>,
}

pub struct ConstructionView {
    pub record_name: Seq<char>,
    pub builder_name: Seq<char>,
    pub inits: Seq<InitValue>,
}

impl View for ConstructionOperation {
    type V = ConstructionView;

    open spec fn view(&self) -> ConstructionView {
        ConstructionView {
            record_name: self.record_name@,
            builder_name: self.builder_name@,
            inits: self.inits@,
        }
    }
}

/// A setter of the builder. It changes the builder member at position
/// `target` and gives back the builder it was called on.
#[derive(Debug, PartialEq, Eq)]
pub struct SetterOperation {
    pub name: String,
    pub target: usize,
    pub parameter_type: TypeExpression,
    pub mutation_kind: MutationKind,
}

pub struct SetterOperationView {
    pub name: Seq<char>,
    pub target: int,
    pub parameter_type: TypeView,
    pub mutation_kind: MutationKind,
}

impl View for SetterOperation {
    type V = SetterOperationView;

    open spec fn view(&self) -> SetterOperationView {
        SetterOperationView {
            name: self.name@,
            target: self.target as int,
            parameter_type: self.parameter_type@,
            mutation_kind: self.mutation_kind,
        }
    }
}

/// The finalize operation: the positions of the members whose presence is
/// checked, in the order of the checks, and how each member of the record is
/// made from the builder member at the same position.
#[derive(Debug, PartialEq, Eq)]
pub struct FinalizeOperation {
    pub record_name: String,
    pub checks: Vec<usize>,
    pub assembly: Vec<FinalizeExpression>,
}

pub struct FinalizeView {
    pub record_name: Seq<char>,
    pub checks: Seq<int>,
    pub assembly: Seq<FinalizeExpression>,
}

impl View for FinalizeOperation {
    type V = FinalizeView;

    open spec fn view(&self) -> FinalizeView {
        FinalizeView {
            record_name: self.record_name@,
            checks: self.checks@.map_values(|c: usize| c as int),
            assembly: self.assembly@,
        }
    }
}

/// Everything that is generated for one record.
#[derive(Debug, PartialEq, Eq)]
pub struct GeneratedDeclarationSet {
    pub builder_type: BuilderTypeDeclaration,
    pub construction: ConstructionOperation,
    pub setters: Vec<SetterOperation>,
    pub finalize: FinalizeOperation,
}

pub struct GeneratedView {
    pub builder_type: BuilderTypeView,
    pub construction: ConstructionView,
    pub setters: Seq<SetterOperationView>,
    pub finalize: FinalizeView,
}

impl View for GeneratedDeclarationSet {
    type V = GeneratedView;

    open spec fn view(&self) -> GeneratedView {
        GeneratedView {
            builder_type: self.builder_type@,
            construction: self.construction@,
            setters: self.setters@.map_values(|s: SetterOperation| s@),
            finalize: self.finalize@,
        }
    }
}

/// Whether the parts of the declarations fit each other: every builder
/// member has its initial value and its way into the record, and setters and
/// checks speak of members that exist.
pub open spec fn well_formed(g: GeneratedView) -> bool {
    let n = g.builder_type.members.len();
    &&& g.construction.inits.len() == n
    &&& g.finalize.assembly.len() == n
    &&& forall|k: int| 0 <= k < g.setters.len() ==> 0 <= (#[trigger] g.setters[k]).target < n
    &&& forall|k: int| 0 <= k < g.finalize.checks.len() ==> 0 <= #[trigger] g.finalize.checks[k] < n
}

/// The name of the builder type of a record.
pub open spec fn builder_name(record_name: Seq<char>) -> Seq<char> {
    record_name + "Builder"@
}

/// The builder member that a plan asks for.
pub open spec fn member_of(plan: FieldPlanView) -> BuilderMemberView {
    BuilderMemberView { name: plan.name, storage_type: plan.builder_storage_type }
}

/// The operation for one setter of the member at position `target`.
pub open spec fn operation_of(setter: SetterView, target: int) -> SetterOperationView {
    SetterOperationView {
        name: setter.exposed_name,
        target,
        parameter_type: setter.parameter_type,
        mutation_kind: setter.mutation_kind,
    }
}

/// The operations for all setters of the member at position `target`.
pub open spec fn operations_of(setters: Seq<SetterView>, target: int) -> Seq<SetterOperationView> {
    Seq::new(setters.len(), |k: int| operation_of(setters[k], target))
}

/// The setters of all members: member by member in declaration order, and
/// for each member in the order of its plan.
pub open spec fn setter_operations(plans: Seq<FieldPlanView>) -> Seq<SetterOperationView>
    decreases plans.len(),
{
    if plans.len() == 0 {
        Seq::empty()
    } else {
        setter_operations(plans.drop_last()) + operations_of(
            plans.last().setters,
            plans.len() - 1,
        )
    }
}

/// The positions of the required members, in declaration order.
pub open spec fn required_members(plans: Seq<FieldPlanView>) -> Seq<int>
    decreases plans.len(),
{
    if plans.len() == 0 {
        Seq::empty()
    } else if plans.last().required {
        required_members(plans.drop_last()).push(plans.len() - 1)
    } else {
        required_members(plans.drop_last())
    }
}

/// The declarations that are generated from the plans of a record.
pub open spec fn synthesize_spec(spec: BuilderSpecView) -> GeneratedView {
    GeneratedView {
        builder_type: BuilderTypeView {
            name: builder_name(spec.record_name),
            members: Seq::new(spec.plans.len(), |i: int| member_of(spec.plans[i])),
        },
        construction: ConstructionView {
            record_name: spec.record_name,
            builder_name: builder_name(spec.record_name),
            inits: Seq::new(spec.plans.len(), |i: int| spec.plans[i].init_value),
        },
        setters: setter_operations(spec.plans),
        finalize: FinalizeView {
            record_name: spec.record_name,
            checks: required_members(spec.plans),
            assembly: Seq::new(spec.plans.len(), |i: int| spec.plans[i].finalize_expression),
        },
    }
}

/// The declarations that are generated for a record, or the diagnostic that
/// stops the synthesis.
pub open spec fn derive_spec(schema: RecordView) -> Result<GeneratedView, DiagnosticView> {
    match plan_record(schema) {
        Err(d) => Err(d),
        Ok(spec) => Ok(synthesize_spec(spec)),
    }
}

/// The view of what [`derive`] gives.
pub open spec fn outcome_view(r: Result<GeneratedDeclarationSet, Diagnostic>) -> Result<
    GeneratedView,
    DiagnosticView,
> {
    match r {
        Ok(g) => Ok(g@),
        Err(d) => Err(d@),
    }
}

/// Whether `outcome` is what is derived for `schema`.
pub open spec fn derived(
    schema: RecordView,
    outcome: Result<GeneratedView, DiagnosticView>,
) -> bool {
    outcome == derive_spec(schema)
}

/// Whether every annotation of every member is recognized.
pub open spec fn all_recognized(schema: RecordView) -> bool {
    forall|i: int, k: int|
        0 <= i < schema.members.len() && 0 <= k < schema.members[i].annotations.len()
            ==> is_recognized(#[trigger] schema.members[i].annotations[k])
}

/// Whether annotation `k` of member `i` is the first that is not
/// recognized, in the order of the members and, within a member, of its
/// annotations.
pub open spec fn first_unrecognized(schema: RecordView, i: int, k: int) -> bool {
    &&& 0 <= i < schema.members.len()
    &&& 0 <= k < schema.members[i].annotations.len()
    &&& !is_recognized(schema.members[i].annotations[k])
    &&& forall|j: int| 0 <= j < k ==> is_recognized(#[trigger] schema.members[i].annotations[j])
    &&& forall|a: int, b: int|
        0 <= a < i && 0 <= b < schema.members[a].annotations.len() ==> is_recognized(
            #[trigger] schema.members[a].annotations[b],
        )
}

fn push_operations(operations: &mut Vec<SetterOperation>, setters: Vec<SetterSpec>, target: usize)
    ensures
        final(operations)@.map_values(|s: SetterOperation| s@) == old(operations)@.map_values(
            |s: SetterOperation| s@,
        ) + operations_of(setters@.map_values(|s: SetterSpec| s@), target as int),
{
    let ghost before = operations@.map_values(|s: SetterOperation| s@);
    let ghost views = setters@.map_values(|s: SetterSpec| s@);
    for setter in it: setters
        invariant
            it.seq() == setters@,
            views == setters@.map_values(|s: SetterSpec| s@),
            operations@.map_values(|s: SetterOperation| s@) == before + operations_of(
                views,
                target as int,
            ).take(it.index()),
    {
        let ghost sofar = operations@.map_values(|s: SetterOperation| s@);
        let SetterSpec { exposed_name, parameter_type, mutation_kind } = setter;
        operations.push(
            SetterOperation { name: exposed_name, target, parameter_type, mutation_kind },
        );
        assert(operations@.map_values(|s: SetterOperation| s@) =~= sofar.push(
            operation_of(views[it.index()], target as int),
        ));
    }
    assert(operations_of(views, target as int).take(views.len() as int) =~= operations_of(
        views,
        target as int,
    ));
}

/// Produces the declarations of the builder from the plans of a record.
pub fn synthesize(spec: BuilderSpec) -> (g: GeneratedDeclarationSet)
    ensures
        g@ == synthesize_spec(spec@),
{
    let ghost plans = spec@.plans;
    let record_name = spec.record_name;
    let mut name = record_name.clone();
    name.append("Builder");
    let mut members: Vec<BuilderMember> = Vec::new();
    let mut inits: Vec<InitValue> = Vec::new();
    let mut setters: Vec<SetterOperation> = Vec::new();
    let mut checks: Vec<usize> = Vec::new();
    let mut assembly: Vec<FinalizeExpression> = Vec::new();
    proof {
        assert(setters@.map_values(|s: SetterOperation| s@) =~= Seq::<
            SetterOperationView,
        >::empty());
    }
    for plan in it: spec.plans
        invariant
            plans == it.seq().map_values(|p: FieldPlan| p@),
            members.len() == it.index(),
            inits.len() == it.index(),
            assembly.len() == it.index(),
            forall|k: int| 0 <= k < it.index() ==> (#[trigger] members@[k])@ == member_of(plans[k]),
            forall|k: int| 0 <= k < it.index() ==> #[trigger] inits@[k] == plans[k].init_value,
            forall|k: int|
                0 <= k < it.index() ==> #[trigger] assembly@[k] == plans[k].finalize_expression,
            setters@.map_values(|s: SetterOperation| s@) == setter_operations(
                plans.take(it.index()),
            ),
            checks@.map_values(|c: usize| c as int) == required_members(plans.take(it.index())),
    {
        let ghost i = it.index();
        proof {
            assert(plans.take(i + 1).drop_last() =~= plans.take(i));
        }
        let FieldPlan {
            name: member_name,
            builder_storage_type,
            init_value,
            setters: member_setters,
            required,
            finalize_expression,
        } = plan;
        let target: usize = members.len();
        members.push(BuilderMember { name: member_name, storage_type: builder_storage_type });
        inits.push(init_value);
        assembly.push(finalize_expression);
        push_operations(&mut setters, member_setters, target);
        if required {
            checks.push(target);
        }
    }
    proof {
        assert(plans.take(plans.len() as int) =~= plans);
    }
    let g = GeneratedDeclarationSet {
        builder_type: BuilderTypeDeclaration { name: name.clone(), members },
        construction: ConstructionOperation {
            record_name: record_name.clone(),
            builder_name: name,
            inits,
        },
        setters,
        finalize: FinalizeOperation { record_name, checks, assembly },
    };
    proof {
        let want = synthesize_spec(spec@);
        assert(g@.builder_type.members =~= want.builder_type.members);
        assert(g@.construction.inits =~= want.construction.inits);
        assert(g@.finalize.assembly =~= want.finalize.assembly);
    }
    g
}

/// Derives the builder of a record.
///
/// Every member is classified in declaration order. The first annotation
/// that is not understood stops the synthesis with its diagnostic, and
/// nothing is generated; otherwise the declarations of the builder follow
/// from the plans of the members.
pub fn derive(schema: &RecordSchema) -> (r: Result<GeneratedDeclarationSet, Diagnostic>)
    ensures
        derived(schema@, outcome_view(r)),
        r is Ok <==> all_recognized(schema@),
        r matches Ok(g) ==> {
            &&& well_formed(g@)
            &&& g@.builder_type.members.len() == schema@.members.len()
            &&& forall|i: int|
                0 <= i < schema@.members.len() ==> (#[trigger] g@.builder_type.members[i]).name
                    == schema@.members[i].name
        },
        r matches Err(d) ==> exists|i: int, k: int|
            first_unrecognized(schema@, i, k) && d@ == malformed_annotation(
                schema@.members[i].annotations[k].location,
            ),
{
    proof {
        lemma_derive_outcome(schema@);
        if derive_spec(schema@) is Ok {
            lemma_derived_members(schema@, derive_spec(schema@)->Ok_0);
        }
    }
    match plan_builder(schema) {
        Ok(spec) => Ok(synthesize(spec)),
        Err(d) => Err(d),
    }
}

impl GeneratedDeclarationSet {
    /// Whether the parts of the declarations fit each other.
    pub fn is_well_formed(&self) -> (r: bool)
        ensures
            r == well_formed(self@),
    {
        let n = self.builder_type.members.len();
        if self.construction.inits.len() != n || self.finalize.assembly.len() != n {
            return false;
        }
        let mut k: usize = 0;
        while k < self.setters.len()
            invariant
                k <= self.setters.len(),
                n == self.builder_type.members.len(),
                forall|j: int| 0 <= j < k ==> 0 <= (#[trigger] self@.setters[j]).target < n,
            decreases self.setters.len() - k,
        {
            if self.setters[k].target >= n {
                assert(!(0 <= self@.setters[k as int].target < n));
                return false;
            }
            k += 1;
        }
        let mut c: usize = 0;
        while c < self.finalize.checks.len()
            invariant
                c <= self.finalize.checks.len(),
                n == self.builder_type.members.len(),
                forall|j: int| 0 <= j < c ==> 0 <= #[trigger] self@.finalize.checks[j] < n,
            decreases self.finalize.checks.len() - c,
        {
            if self.finalize.checks[c] >= n {
                assert(!(0 <= self@.finalize.checks[c as int] < n));
                return false;
            }
            c += 1;
        }
        true
    }

    /// The position of the first setter that goes by `name`, if there is
    /// one.
    pub fn setter_named(&self, name: &str) -> (found: Option<usize>)
        ensures
            match found {
                Some(k) => {
                    &&& k < self@.setters.len()
                    &&& self@.setters[k as int].name == name@
                    &&& forall|j: int| 0 <= j < k ==> (#[trigger] self@.setters[j]).name != name@
                },
                None => forall|j: int|
                    0 <= j < self@.setters.len() ==> (#[trigger] self@.setters[j]).name != name@,
            },
    {
        let wanted = String::from_str(name);
        let mut k: usize = 0;
        while k < self.setters.len()
            invariant
                k <= self.setters.len(),
                wanted@ == name@,
                forall|j: int| 0 <= j < k ==> (#[trigger] self@.setters[j]).name != name@,
            decreases self.setters.len() - k,
        {
            if self.setters[k].name == wanted {
                return Some(k);
            }
            k += 1;
        }
        None
    }
}

/// Where every plan has one setter, the setters stand in the order of the
/// members, one for each.
pub proof fn lemma_setter_operations(plans: Seq<FieldPlanView>)
    requires
        forall|i: int| 0 <= i < plans.len() ==> (#[trigger] plans[i]).setters.len() == 1,
    ensures
        setter_operations(plans).len() == plans.len(),
        forall|i: int|
            0 <= i < plans.len() ==> #[trigger] setter_operations(plans)[i] == operation_of(
                plans[i].setters[0],
                i,
            ),
    decreases plans.len(),
{
    if plans.len() > 0 {
        lemma_setter_operations(plans.drop_last());
    }
}

/// The checks of finalize are the required members and no others, each once
/// and in declaration order.
pub proof fn lemma_required_members(plans: Seq<FieldPlanView>)
    ensures
        forall|k: int|
            0 <= k < required_members(plans).len() ==> 0 <= #[trigger] required_members(plans)[k]
                < plans.len() && plans[required_members(plans)[k]].required,
        forall|a: int, b: int|
            0 <= a < b < required_members(plans).len() ==> required_members(plans)[a]
                < required_members(plans)[b],
        forall|i: int|
            0 <= i < plans.len() && (#[trigger] plans[i]).required ==> required_members(
                plans,
            ).contains(i),
    decreases plans.len(),
{
    if plans.len() > 0 {
        let front = plans.drop_last();
        let found = required_members(front);
        let all = required_members(plans);
        lemma_required_members(front);
        assert forall|k: int| 0 <= k < all.len() implies 0 <= #[trigger] all[k] < plans.len()
            && plans[all[k]].required by {}
        assert forall|i: int|
            0 <= i < plans.len() && (#[trigger] plans[i]).required implies all.contains(i) by {
            if i < front.len() {
                assert(front[i] == plans[i]);
                let k = choose|k: int| 0 <= k < found.len() && found[k] == i;
                assert(all[k] == i);
            } else {
                assert(all[all.len() - 1] == i);
            }
        }
    }
}

/// What is generated for a record, member by member.
///
/// The builder has one member for each member of the record, under the same
/// name and in the same order: none is dropped and none is added. The member
/// at each position has the storage type, the initial value, the one setter
/// and the way into the record that its plan gives, and the parts fit each
/// other.
pub proof fn lemma_derived_members(schema: RecordView, g: GeneratedView)
    requires
        derive_spec(schema) == Ok::<GeneratedView, DiagnosticView>(g),
    ensures
        well_formed(g),
        g.builder_type.name == builder_name(schema.name),
        g.construction.record_name == schema.name,
        g.construction.builder_name == builder_name(schema.name),
        g.finalize.record_name == schema.name,
        g.builder_type.members.len() == schema.members.len(),
        g.setters.len() == schema.members.len(),
        forall|i: int|
            0 <= i < schema.members.len() ==> {
                let plan = classify_spec(#[trigger] schema.members[i])->Ok_0;
                &&& classify_spec(schema.members[i]) is Ok
                &&& plan.setters.len() == 1
                &&& g.builder_type.members[i].name == schema.members[i].name
                &&& g.builder_type.members[i].storage_type == plan.builder_storage_type
                &&& g.construction.inits[i] == plan.init_value
                &&& g.setters[i] == operation_of(plan.setters[0], i)
                &&& g.finalize.assembly[i] == plan.finalize_expression
                &&& plan.required <==> g.finalize.checks.contains(i)
            },
        forall|a: int, b: int|
            0 <= a < b < g.finalize.checks.len() ==> g.finalize.checks[a] < g.finalize.checks[b],
{
    let plans = plan_members(schema.members)->Ok_0;
    lemma_plan_members(schema.members);
    assert forall|i: int| 0 <= i < plans.len() implies (#[trigger] plans[i]).setters.len() == 1 by {
        let m = schema.members[i];
        lemma_plan_has_one_setter(m.name, m.declared_type, each_directive(m.annotations)->Ok_0);
    }
    lemma_setter_operations(plans);
    lemma_required_members(plans);
    assert forall|i: int| 0 <= i < schema.members.len() implies {
        let plan = classify_spec(#[trigger] schema.members[i])->Ok_0;
        &&& classify_spec(schema.members[i]) is Ok
        &&& plan.setters.len() == 1
        &&& g.builder_type.members[i].name == schema.members[i].name
        &&& g.builder_type.members[i].storage_type == plan.builder_storage_type
        &&& g.construction.inits[i] == plan.init_value
        &&& g.setters[i] == operation_of(plan.setters[0], i)
        &&& g.finalize.assembly[i] == plan.finalize_expression
        &&& plan.required <==> g.finalize.checks.contains(i)
    } by {
        let m = schema.members[i];
        lemma_plan_has_one_setter(m.name, m.declared_type, each_directive(m.annotations)->Ok_0);
    }
}

/// An annotation that is not recognized stops the synthesis, wherever it
/// stands.
///
/// For any record in which annotation `k` of member `i` is the first that
/// is not recognized: nothing is generated, and the diagnostic is a
/// malformed-annotation diagnostic at that annotation.
pub proof fn lemma_unrecognized_annotation_stops(schema: RecordView, i: int, k: int)
    requires
        first_unrecognized(schema, i, k),
    ensures
        derive_spec(schema) == Err::<GeneratedView, DiagnosticView>(
            malformed_annotation(schema.members[i].annotations[k].location),
        ),
{
    let members = schema.members;
    lemma_plan_members(members);
    lemma_each_directive_fails(members[i].annotations, k);
    assert forall|a: int| 0 <= a < i implies classify_spec(#[trigger] members[a]) is Ok by {
        lemma_each_directive_succeeds(members[a].annotations);
    }
}

/// Synthesis succeeds exactly where every annotation is recognized, and
/// where it fails the diagnostic is that of the first annotation that is
/// not.
pub proof fn lemma_derive_outcome(schema: RecordView)
    ensures
        derive_spec(schema) is Ok <==> all_recognized(schema),
        derive_spec(schema) matches Err(d) ==> exists|i: int, k: int|
            first_unrecognized(schema, i, k) && d == malformed_annotation(
                schema.members[i].annotations[k].location,
            ),
{
    let members = schema.members;
    lemma_plan_members(members);
    if all_recognized(schema) {
        assert forall|a: int| 0 <= a < members.len() implies classify_spec(
            #[trigger] members[a],
        ) is Ok by {
            lemma_each_directive_succeeds(members[a].annotations);
        }
    }
    match plan_members(members) {
        Ok(plans) => {
            assert forall|a: int, b: int|
                0 <= a < members.len() && 0 <= b < members[a].annotations.len()
                    implies is_recognized(#[trigger] members[a].annotations[b]) by {
                lemma_each_directive(members[a].annotations);
            }
        },
        Err(d) => {
            let i = choose|i: int|
                {
                    &&& 0 <= i < members.len()
                    &&& classify_spec(#[trigger] members[i]) == Err::<
                        FieldPlanView,
                        DiagnosticView,
                    >(d)
                    &&& forall|j: int| 0 <= j < i ==> classify_spec(#[trigger] members[j]) is Ok
                };
            let annotations = members[i].annotations;
            lemma_each_directive(annotations);
            let unrecognized = |j: int|
                0 <= j < annotations.len() && !is_recognized(annotations[j]);
            lemma_least_below(annotations.len() as int, unrecognized);
            let some = choose|j: int| 0 <= j < annotations.len() && !is_recognized(annotations[j]);
            assert(unrecognized(some));
            let k = least_below(annotations.len() as int, unrecognized)->0;
            assert forall|j: int| 0 <= j < k implies is_recognized(#[trigger] annotations[j]) by {
                assert(!unrecognized(j));
            }
            lemma_each_directive_fails(annotations, k);
            assert forall|a: int, b: int|
                0 <= a < i && 0 <= b < members[a].annotations.len() implies is_recognized(
                #[trigger] members[a].annotations[b],
            ) by {
                lemma_each_directive(members[a].annotations);
            }
            assert(first_unrecognized(schema, i, k));
        },
    }
}

/// Deriving twice gives the same: what is generated depends on the record
/// alone.
///
/// For any two records with the same content and any two outcomes of
/// deriving from them: both succeed or both fail, and they give the same
/// declarations or the same diagnostic.
pub proof fn lemma_derive_is_repeatable(
    first: RecordSchema,
    second: RecordSchema,
    once: Result<GeneratedDeclarationSet, Diagnostic>,
    again: Result<GeneratedDeclarationSet, Diagnostic>,
)
    requires
        first@ == second@,
        derived(first@, outcome_view(once)),
        derived(second@, outcome_view(again)),
    ensures
        outcome_view(once) == outcome_view(again),
{
}

} // verus!
