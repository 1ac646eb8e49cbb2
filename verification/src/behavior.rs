//! What holds of every derived builder at run time, whatever the record and
//! whatever calls are made.

use crate::annotation::each_directive;
use crate::builder::{derive_spec, lemma_derived_members, GeneratedView};
use crate::diagnostic::DiagnosticView;
use crate::plan::{classify_spec, FinalizeExpression, MutationKind};
use crate::runtime::{
    apply, assembled, check_fails, finalize, initial_state, reported, run, unwrap_fails,
    ArgumentView, CallView, FieldValueView, MissingFieldView, SlotView,
};
use crate::schema::{MemberView, RecordView};
use crate::search::{least_below, lemma_least_below};
use crate::shape::{shape_of, ShapeView};
use vstd::prelude::*;

verus! {

/// The single value that the setter at position `setter` was last called
/// with, if it was called with one.
pub open spec fn last_value<V>(calls: Seq<CallView<V>>, setter: int) -> Option<V>
    decreases calls.len(),
{
    if calls.len() == 0 {
        None
    } else {
        match calls.last().argument {
            ArgumentView::One(value) if calls.last().setter == setter => Some(value),
            _ => last_value(calls.drop_last(), setter),
        }
    }
}

/// The sequence that the setter at position `setter` was last called with;
/// empty if it was not called with one.
pub open spec fn last_sequence<V>(calls: Seq<CallView<V>>, setter: int) -> Seq<V>
    decreases calls.len(),
{
    if calls.len() == 0 {
        Seq::empty()
    } else {
        match calls.last().argument {
            ArgumentView::Whole(values) if calls.last().setter == setter => values,
            _ => last_sequence(calls.drop_last(), setter),
        }
    }
}

/// The single values that the setter at position `setter` was called with,
/// in the order of the calls.
pub open spec fn appended<V>(calls: Seq<CallView<V>>, setter: int) -> Seq<V>
    decreases calls.len(),
{
    if calls.len() == 0 {
        Seq::empty()
    } else {
        match calls.last().argument {
            ArgumentView::One(value) if calls.last().setter == setter => appended(
                calls.drop_last(),
                setter,
            ).push(value),
            _ => appended(calls.drop_last(), setter),
        }
    }
}

/// Whether the member at position `setter` was set: its setter was called
/// with a single value.
pub open spec fn was_set<V>(calls: Seq<CallView<V>>, setter: int) -> bool {
    last_value(calls, setter) is Some
}

/// What the builder member for `member`, at position `position`, holds after
/// the given calls on a fresh builder.
///
/// A sequence member whose setter is named by an annotation holds the values
/// that the setter was called with, in call order; without an annotation it
/// holds the sequence that the setter was last called with. Any other member
/// holds the value that its setter was last called with, if any.
pub open spec fn held<V>(member: MemberView, calls: Seq<CallView<V>>, position: int) -> SlotView<
    V,
> {
    match shape_of(member.declared_type) {
        ShapeView::Sequence(_) => match each_directive(member.annotations) {
            Ok(Some(_)) => SlotView::Many(appended(calls, position)),
            _ => SlotView::Many(last_sequence(calls, position)),
        },
        _ => SlotView::Single(last_value(calls, position)),
    }
}

/// The value of `member`, at position `position`, in the record that
/// finalize gives after the given calls: what the builder member holds,
/// unwrapped for a plain member and as it is for any other.
pub open spec fn finished<V>(
    member: MemberView,
    calls: Seq<CallView<V>>,
    position: int,
) -> FieldValueView<V> {
    let expression = if shape_of(member.declared_type) is Plain {
        FinalizeExpression::Unwrap
    } else {
        FinalizeExpression::Copy
    };
    assembled(expression, held(member, calls, position))
}

/// The state of a builder after calls on a fresh one.
pub open spec fn state_after<V>(g: GeneratedView, calls: Seq<CallView<V>>) -> Seq<SlotView<V>> {
    run(g, initial_state(g), calls)
}

/// The state of a derived builder follows from the record and the calls
/// alone: after any calls on a fresh one it has one slot for each member of
/// the record, and every slot holds what [`held`] says.
pub proof fn lemma_state_after_calls<V>(
    schema: RecordView,
    g: GeneratedView,
    calls: Seq<CallView<V>>,
)
    requires
        derive_spec(schema) == Ok::<GeneratedView, DiagnosticView>(g),
    ensures
        state_after(g, calls).len() == schema.members.len(),
        forall|i: int|
            0 <= i < schema.members.len() ==> #[trigger] state_after(g, calls)[i] == held(
                schema.members[i],
                calls,
                i,
            ),
    decreases calls.len(),
{
    lemma_derived_members(schema, g);
    if calls.len() > 0 {
        let call = calls.last();
        lemma_state_after_calls(schema, g, calls.drop_last());
        assert forall|i: int| 0 <= i < schema.members.len() implies #[trigger] state_after(
            g,
            calls,
        )[i] == held(schema.members[i], calls, i) by {
            if 0 <= call.setter < schema.members.len() {
                assert(classify_spec(schema.members[call.setter]) is Ok);
            }
        }
    }
}

/// Finalize fails exactly where a plain member was never set, and it reports
/// the first such member in declaration order; otherwise it gives the record
/// with the value of every member.
pub proof fn lemma_finalize_outcome<V>(
    schema: RecordView,
    g: GeneratedView,
    calls: Seq<CallView<V>>,
)
    requires
        derive_spec(schema) == Ok::<GeneratedView, DiagnosticView>(g),
    ensures
        match reported(g, state_after(g, calls)) {
            Some(i) => {
                &&& 0 <= i < schema.members.len()
                &&& shape_of(schema.members[i].declared_type) is Plain
                &&& !was_set(calls, i)
                &&& forall|j: int|
                    0 <= j < i && shape_of((#[trigger] schema.members[j]).declared_type) is Plain
                        ==> was_set(calls, j)
                &&& finalize(g, state_after(g, calls)) == Err::<
                    Seq<FieldValueView<V>>,
                    MissingFieldView,
                >(MissingFieldView { member: schema.members[i].name })
            },
            None => {
                &&& forall|j: int|
                    0 <= j < schema.members.len() && shape_of(
                        (#[trigger] schema.members[j]).declared_type,
                    ) is Plain ==> was_set(calls, j)
                &&& finalize(g, state_after(g, calls)) == Ok::<
                    Seq<FieldValueView<V>>,
                    MissingFieldView,
                >(Seq::new(schema.members.len(), |j: int| finished(schema.members[j], calls, j)))
            },
        },
{
    lemma_derived_members(schema, g);
    lemma_state_after_calls(schema, g, calls);
    let state = state_after(g, calls);
    let checks = g.finalize.checks;
    lemma_least_below(checks.len() as int, check_fails(g, state));
    lemma_least_below(g.finalize.assembly.len() as int, unwrap_fails(g, state));
    match least_below(checks.len() as int, check_fails(g, state)) {
        Some(k) => {
            // Every plain member before the reported one is checked earlier.
            assert forall|j: int|
                0 <= j < checks[k] && shape_of(
                    (#[trigger] schema.members[j]).declared_type,
                ) is Plain implies was_set(calls, j) by {
                let before = choose|before: int| 0 <= before < checks.len() && checks[before] == j;
                assert(!check_fails(g, state)(before));
            }
        },
        None => {
            // Every plain member is checked, and no check fails.
            assert forall|j: int|
                0 <= j < schema.members.len() && shape_of(
                    (#[trigger] schema.members[j]).declared_type,
                ) is Plain implies was_set(calls, j) by {
                let at = choose|at: int| 0 <= at < checks.len() && checks[at] == j;
                assert(!check_fails(g, state)(at));
            }
            assert(finalize(g, state)->Ok_0 =~= Seq::new(
                schema.members.len(),
                |j: int| finished(schema.members[j], calls, j),
            ));
        },
    }
}

/// Finalize reports the first member that was never set.
///
/// For a record whose members are all plain and carry no annotation, and for
/// any calls on a fresh builder that leave at least one member unset:
/// finalize fails, and the error names the first unset member in declaration
/// order.
pub proof fn lemma_first_unset_member_is_reported<V>(
    schema: RecordView,
    g: GeneratedView,
    calls: Seq<CallView<V>>,
    first: int,
)
    requires
        derive_spec(schema) == Ok::<GeneratedView, DiagnosticView>(g),
        forall|i: int|
            0 <= i < schema.members.len() ==> (#[trigger] schema.members[i]).annotations.len() == 0
                && shape_of(schema.members[i].declared_type) is Plain,
        0 <= first < schema.members.len(),
        !was_set(calls, first),
        forall|i: int| 0 <= i < first ==> was_set(calls, i),
    ensures
        finalize(g, state_after(g, calls)) == Err::<Seq<FieldValueView<V>>, MissingFieldView>(
            MissingFieldView { member: schema.members[first].name },
        ),
{
    lemma_finalize_outcome(schema, g, calls);
}

/// An optional member that is never set is not missed.
///
/// For any record with an optional member and any calls on a fresh derived
/// builder that do not set it: the member holds nothing, finalize never
/// reports it, and where finalize succeeds the record has the member unset.
pub proof fn lemma_optional_member_stays_unset<V>(
    schema: RecordView,
    g: GeneratedView,
    calls: Seq<CallView<V>>,
    i: int,
)
    requires
        derive_spec(schema) == Ok::<GeneratedView, DiagnosticView>(g),
        0 <= i < schema.members.len(),
        shape_of(schema.members[i].declared_type) is Optional,
        !was_set(calls, i),
    ensures
        state_after(g, calls)[i] == SlotView::<V>::Single(None),
        reported(g, state_after(g, calls)) != Some(i),
        finalize(g, state_after(g, calls)) matches Ok(record) ==> record[i]
            == FieldValueView::<V>::Optional(None),
{
    lemma_state_after_calls(schema, g, calls);
    lemma_finalize_outcome(schema, g, calls);
}

/// A sequence member with an annotation has one setter, under the name that
/// the annotation gives, and the setter appends.
///
/// For any record with a sequence member whose annotations name a setter:
/// the setter at the member's position has that name, takes one element and
/// appends it, and no other setter changes the member. So where the name
/// differs from the member's, no setter of the member goes by the member's
/// name; and where it is the same, there is that one setter and no second.
/// After any calls on a fresh builder the member holds exactly the values
/// that the setter was called with, in call order, and finalize, where it
/// succeeds, puts exactly those into the record.
pub proof fn lemma_each_setter_appends<V>(
    schema: RecordView,
    g: GeneratedView,
    calls: Seq<CallView<V>>,
    i: int,
    setter: Seq<char>,
)
    requires
        derive_spec(schema) == Ok::<GeneratedView, DiagnosticView>(g),
        0 <= i < schema.members.len(),
        shape_of(schema.members[i].declared_type) is Sequence,
        each_directive(schema.members[i].annotations) == Ok::<Option<Seq<char>>, DiagnosticView>(
            Some(setter),
        ),
    ensures
        g.setters[i].name == setter,
        g.setters[i].target == i,
        g.setters[i].mutation_kind == MutationKind::Append,
        g.setters[i].parameter_type == shape_of(schema.members[i].declared_type)->Sequence_0,
        forall|k: int| 0 <= k < g.setters.len() && (#[trigger] g.setters[k]).target == i ==> k == i,
        setter != schema.members[i].name ==> forall|k: int|
            0 <= k < g.setters.len() && (#[trigger] g.setters[k]).target == i ==> g.setters[k].name
                != schema.members[i].name,
        state_after(g, calls)[i] == SlotView::Many(appended(calls, i)),
        finalize(g, state_after(g, calls)) matches Ok(record) ==> record[i]
            == FieldValueView::Sequence(appended(calls, i)),
{
    lemma_derived_members(schema, g);
    lemma_state_after_calls(schema, g, calls);
    lemma_finalize_outcome(schema, g, calls);
    assert forall|k: int| 0 <= k < g.setters.len() && (#[trigger] g.setters[k]).target
        == i implies k == i by {
        assert(classify_spec(schema.members[k]) is Ok);
    }
}

} // verus!
