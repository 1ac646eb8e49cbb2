//! What the generated declarations do when they run: a builder is made,
//! setters are called on it, and finalize assembles the record or names the
//! member that is missing.
//!
//! The values that pass through a builder are of any type `V`; the builder
//! never looks inside them.

use crate::builder::{well_formed, GeneratedDeclarationSet, GeneratedView};
use crate::plan::{FinalizeExpression, InitValue, MutationKind};
use crate::search::{least_below, lemma_least_below, lemma_least_below_is};
use vstd::prelude::*;
use vstd::string::*;

verus! {

/// What a builder member holds: an optional value or a sequence.
#[derive(Debug, PartialEq, Eq)]
pub enum Slot<V> {
    Single(Option<V>),
    Many(Vec<V>),
}

pub enum SlotView<V> {
    Single(Option<V>),
    Many(Seq<V>),
}

impl<V> View for Slot<V> {
    type V = SlotView<V>;

    open spec fn view(&self) -> SlotView<V> {
        match self {
            Slot::Single(value) => SlotView::Single(*value),
            Slot::Many(values) => SlotView::Many(values@),
        }
    }
}

/// What a setter is called with: one value or a whole sequence.
#[derive(Debug, PartialEq, Eq)]
pub enum Argument<V> {
    One(V),
    Whole(Vec<V>),
}

pub enum ArgumentView<V> {
    One(V),
    Whole(Seq<V>),
}

impl<V> View for Argument<V> {
    type V = ArgumentView<V>;

    open spec fn view(&self) -> ArgumentView<V> {
        match self {
            Argument::One(value) => ArgumentView::One(*value),
            Argument::Whole(values) => ArgumentView::Whole(values@),
        }
    }
}

/// The value of one member of the finished record.
#[derive(Debug, PartialEq, Eq)]
pub enum FieldValue<V> {
    /// A member that had to be set.
    Required(V),
    /// An optional member, set or not.
    Optional(Option<V>),
    /// A sequence member.
    Sequence(Vec<V>),
}

pub enum FieldValueView<V> {
    Required(V),
    Optional(Option<V>),
    Sequence(Seq<V>),
}

impl<V> View for FieldValue<V> {
    type V = FieldValueView<V>;

    open spec fn view(&self) -> FieldValueView<V> {
        match self {
            FieldValue::Required(value) => FieldValueView::Required(*value),
            FieldValue::Optional(value) => FieldValueView::Optional(*value),
            FieldValue::Sequence(values) => FieldValueView::Sequence(values@),
        }
    }
}

/// The error of finalize: a required member was never set.
#[derive(Debug, PartialEq, Eq)]
pub struct MissingField {
    pub member: String,
}

pub struct MissingFieldView {
    pub member: Seq<char>,
}

impl View for MissingField {
    type V = MissingFieldView;

    open spec fn view(&self) -> MissingFieldView {
        MissingFieldView { member: self.member@ }
    }
}

impl Clone for MissingField {
    fn clone(&self) -> (copy: Self)
        ensures
            copy@ == self@,
    {
        MissingField { member: self.member.clone() }
    }
}

impl MissingField {
    /// The message that the error is shown with.
    pub fn message(&self) -> (text: String)
        ensures
            text@ == self.member@ + " field is missing!"@,
    {
        let mut text = self.member.clone();
        text.append(" field is missing!");
        text
    }
}

/// One call of a setter, by the position of the setter among the setters.
pub struct CallView<V> {
    pub setter: int,
    pub argument: ArgumentView<V>,
}

/// What a member holds in a fresh builder.
pub open spec fn initial_slot<V>(init: InitValue) -> SlotView<V> {
    match init {
        InitValue::Absent => SlotView::Single(None),
        InitValue::Empty => SlotView::Many(Seq::empty()),
    }
}

/// The state of a fresh builder.
pub open spec fn initial_state<V>(g: GeneratedView) -> Seq<SlotView<V>> {
    Seq::new(g.construction.inits.len(), |i: int| initial_slot(g.construction.inits[i]))
}

/// What a setter of the given kind makes of a member, or `None` where the
/// argument does not fit: a replacing setter stores one value in an option
/// or a whole sequence in a sequence, an appending setter adds one value to
/// a sequence.
pub open spec fn mutated<V>(
    kind: MutationKind,
    slot: SlotView<V>,
    argument: ArgumentView<V>,
) -> Option<SlotView<V>> {
    match (kind, slot, argument) {
        (MutationKind::Replace, SlotView::Single(_), ArgumentView::One(value)) => Some(
            SlotView::Single(Some(value)),
        ),
        (MutationKind::Replace, SlotView::Many(_), ArgumentView::Whole(values)) => Some(
            SlotView::Many(values),
        ),
        (MutationKind::Append, SlotView::Many(values), ArgumentView::One(value)) => Some(
            SlotView::Many(values.push(value)),
        ),
        _ => None,
    }
}

/// Whether the call is one that the builder takes: the setter exists, its
/// member exists, and the argument fits.
pub open spec fn accepts<V>(g: GeneratedView, state: Seq<SlotView<V>>, call: CallView<V>) -> bool {
    &&& 0 <= call.setter < g.setters.len()
    &&& 0 <= g.setters[call.setter].target < state.len()
    &&& mutated(
        g.setters[call.setter].mutation_kind,
        state[g.setters[call.setter].target],
        call.argument,
    ) is Some
}

/// The state after a call. A call that the builder does not take changes
/// nothing.
pub open spec fn apply<V>(g: GeneratedView, state: Seq<SlotView<V>>, call: CallView<V>) -> Seq<
    SlotView<V>,
> {
    if accepts(g, state, call) {
        let op = g.setters[call.setter];
        state.update(op.target, mutated(op.mutation_kind, state[op.target], call.argument)->0)
    } else {
        state
    }
}

/// The state after a sequence of calls, the first call first.
pub open spec fn run<V>(g: GeneratedView, state: Seq<SlotView<V>>, calls: Seq<CallView<V>>) -> Seq<
    SlotView<V>,
>
    decreases calls.len(),
{
    if calls.len() == 0 {
        state
    } else {
        apply(g, run(g, state, calls.drop_last()), calls.last())
    }
}

/// Whether a member holds no value.
pub open spec fn is_unset<V>(slot: SlotView<V>) -> bool {
    slot == SlotView::<V>::Single(None)
}

/// Whether the check at position `k` of the checks fails.
pub open spec fn check_fails<V>(g: GeneratedView, state: Seq<SlotView<V>>) -> spec_fn(int) -> bool {
    |k: int|
        0 <= k < g.finalize.checks.len() && 0 <= g.finalize.checks[k] < state.len() && is_unset(
            state[g.finalize.checks[k]],
        )
}

/// Whether the member at position `i` cannot be unwrapped.
pub open spec fn unwrap_fails<V>(g: GeneratedView, state: Seq<SlotView<V>>) -> spec_fn(
    int,
) -> bool {
    |i: int|
        0 <= i < g.finalize.assembly.len() && i < state.len() && g.finalize.assembly[i]
            == FinalizeExpression::Unwrap && is_unset(state[i])
}

/// The value of a record member. A sequence is copied; so is an option,
/// unless the expression says to unwrap it and it holds a value. An option
/// that is to be unwrapped and holds nothing is never assembled: finalize
/// fails before.
pub open spec fn assembled<V>(expression: FinalizeExpression, slot: SlotView<V>) -> FieldValueView<
    V,
> {
    match (expression, slot) {
        (_, SlotView::Many(values)) => FieldValueView::Sequence(values),
        (FinalizeExpression::Unwrap, SlotView::Single(Some(value))) => FieldValueView::Required(
            value,
        ),
        (_, SlotView::Single(value)) => FieldValueView::Optional(value),
    }
}

/// The position of the member that finalize reports as missing, if any.
///
/// The checks are made in their order and the first that fails decides.
/// Only where all pass are the members looked at in declaration order; the
/// first that is to be unwrapped and holds nothing is reported in the same
/// way.
pub open spec fn reported<V>(g: GeneratedView, state: Seq<SlotView<V>>) -> Option<int> {
    match least_below(g.finalize.checks.len() as int, check_fails(g, state)) {
        Some(k) => Some(g.finalize.checks[k]),
        None => least_below(g.finalize.assembly.len() as int, unwrap_fails(g, state)),
    }
}

/// What finalize gives in the given state: the error that names the member
/// reported as missing, or the record with every member assembled from the
/// builder member at its position.
pub open spec fn finalize<V>(g: GeneratedView, state: Seq<SlotView<V>>) -> Result<
    Seq<FieldValueView<V>>,
    MissingFieldView,
> {
    match reported(g, state) {
        Some(i) => Err(MissingFieldView { member: g.builder_type.members[i].name }),
        None => Ok(
            Seq::new(
                g.finalize.assembly.len(),
                |i: int| assembled(g.finalize.assembly[i], state[i]),
            ),
        ),
    }
}

/// The view of what [`Builder::build`] gives.
pub open spec fn outcome_view<V>(r: Result<Vec<FieldValue<V>>, MissingField>) -> Result<
    Seq<FieldValueView<V>>,
    MissingFieldView,
> {
    match r {
        Ok(record) => Ok(record@.map_values(|value: FieldValue<V>| value@)),
        Err(e) => Err(e@),
    }
}

/// A builder at run time: the declarations it was generated as, and what its
/// members hold.
pub struct Builder<'a, V> {
    declarations: &'a GeneratedDeclarationSet,
    slots: Vec<Slot<V>>,
}

impl<'a, V> Builder<'a, V> {
    /// The declarations that this builder runs.
    pub closed spec fn declarations(&self) -> GeneratedView {
        self.declarations@
    }

    /// What the members hold, by position.
    pub closed spec fn state(&self) -> Seq<SlotView<V>> {
        self.slots@.map_values(|slot: Slot<V>| slot@)
    }

    /// The invariant of a builder: its declarations fit each other and it
    /// has one slot for each member.
    pub closed spec fn wf(&self) -> bool {
        &&& well_formed(self.declarations@)
        &&& self.slots.len() == self.declarations@.builder_type.members.len()
    }

    /// Makes a fresh builder, as the generated construction operation does.
    ///
    /// Gives `None` exactly where the declarations do not fit each other.
    pub fn new(declarations: &'a GeneratedDeclarationSet) -> (made: Option<Self>)
        ensures
            made is Some <==> well_formed(declarations@),
            made matches Some(b) ==> b.wf() && b.declarations() == declarations@ && b.state()
                == initial_state::<V>(declarations@),
    {
        if !declarations.is_well_formed() {
            return None;
        }
        let mut slots: Vec<Slot<V>> = Vec::new();
        let mut i: usize = 0;
        while i < declarations.construction.inits.len()
            invariant
                i <= declarations.construction.inits.len(),
                slots.len() == i,
                forall|k: int|
                    0 <= k < i ==> (#[trigger] slots@[k])@ == initial_slot::<V>(
                        declarations@.construction.inits[k],
                    ),
            decreases declarations.construction.inits.len() - i,
        {
            match declarations.construction.inits[i] {
                InitValue::Absent => slots.push(Slot::Single(None)),
                InitValue::Empty => slots.push(Slot::Many(Vec::new())),
            }
            i += 1;
        }
        let b = Builder { declarations, slots };
        Some(b)
    }

    /// Whether the builder takes a call of the setter at position `setter`
    /// with `argument`: the setter exists and the argument fits its member.
    pub fn takes(&self, setter: usize, argument: &Argument<V>) -> (taken: bool)
        requires
            self.wf(),
        ensures
            taken == accepts(
                self.declarations(),
                self.state(),
                CallView { setter: setter as int, argument: argument@ },
            ),
    {
        let declarations = self.declarations;
        if setter >= declarations.setters.len() {
            return false;
        }
        let kind = declarations.setters[setter].mutation_kind;
        let target = declarations.setters[setter].target;
        assert(declarations@.setters[setter as int].target == target);
        match (kind, &self.slots[target], argument) {
            (MutationKind::Replace, Slot::Single(_), Argument::One(_)) => true,
            (MutationKind::Replace, Slot::Many(_), Argument::Whole(_)) => true,
            (MutationKind::Append, Slot::Many(_), Argument::One(_)) => true,
            _ => false,
        }
    }

    /// Calls the setter at position `setter` of the setters with `argument`
    /// and gives back the builder that it was called on, so that calls can
    /// be chained.
    ///
    /// A call that the builder does not take changes nothing.
    pub fn call(&mut self, setter: usize, argument: Argument<V>) -> (same: &mut Self)
        requires
            old(self).wf(),
        ensures
            *final(self) == *final(same),
            same.wf(),
            same.declarations() == old(self).declarations(),
            same.state() == apply(
                old(self).declarations(),
                old(self).state(),
                CallView { setter: setter as int, argument: argument@ },
            ),
    {
        let declarations = self.declarations;
        let ghost before = self.state();
        if setter < declarations.setters.len() {
            let kind = declarations.setters[setter].mutation_kind;
            let target = declarations.setters[setter].target;
            assert(declarations@.setters[setter as int].target == target);
            match &mut self.slots[target] {
                Slot::Single(held) => match (kind, argument) {
                    (MutationKind::Replace, Argument::One(value)) => {
                        *held = Some(value);
                    },
                    _ => {},
                },
                Slot::Many(held) => match (kind, argument) {
                    (MutationKind::Replace, Argument::Whole(values)) => {
                        *held = values;
                    },
                    (MutationKind::Append, Argument::One(value)) => {
                        held.push(value);
                    },
                    _ => {},
                },
            }
        }
        assert(self.state() =~= apply(
            declarations@,
            before,
            CallView { setter: setter as int, argument: argument@ },
        ));
        self
    }

    /// Finalizes the builder, as the generated finalize operation does: the
    /// finished record, member by member, or the first member that is
    /// missing.
    #[verifier::loop_isolation(false)]
    pub fn build(self) -> (r: Result<Vec<FieldValue<V>>, MissingField>)
        requires
            self.wf(),
        ensures
            outcome_view(r) == finalize(self.declarations(), self.state()),
    {
        let declarations = self.declarations;
        let ghost g = declarations@;
        let ghost state = self.state();
        let mut k: usize = 0;
        while k < declarations.finalize.checks.len()
            invariant
                k <= declarations.finalize.checks.len(),
                self.wf(),
                g == declarations@,
                declarations == self.declarations,
                state == self.state(),
                forall|j: int| 0 <= j < k ==> !#[trigger] check_fails(g, state)(j),
            decreases declarations.finalize.checks.len() - k,
        {
            let member = declarations.finalize.checks[k];
            assert(g.finalize.checks[k as int] == member);
            let unset = match &self.slots[member] {
                Slot::Single(None) => true,
                _ => false,
            };
            if unset {
                proof {
                    lemma_least_below_is(
                        g.finalize.checks.len() as int,
                        check_fails(g, state),
                        k as int,
                    );
                }
                return Err(
                    MissingField { member: declarations.builder_type.members[member].name.clone() },
                );
            }
            k += 1;
        }
        proof {
            lemma_least_below(g.finalize.checks.len() as int, check_fails(g, state));
        }
        let mut record: Vec<FieldValue<V>> = Vec::new();
        for slot in it: self.slots
            invariant
                g == declarations@,
                well_formed(g),
                it.seq().len() == g.builder_type.members.len(),
                state == it.seq().map_values(|slot: Slot<V>| slot@),
                least_below(g.finalize.checks.len() as int, check_fails(g, state)) is None,
                record.len() == it.index(),
                forall|j: int|
                    0 <= j < it.index() ==> (#[trigger] record@[j])@ == assembled(
                        g.finalize.assembly[j],
                        state[j],
                    ),
                forall|j: int| 0 <= j < it.index() ==> !#[trigger] unwrap_fails(g, state)(j),
        {
            let i: usize = record.len();
            let value = match slot {
                Slot::Single(Some(value)) => match declarations.finalize.assembly[i] {
                    FinalizeExpression::Unwrap => FieldValue::Required(value),
                    FinalizeExpression::Copy => FieldValue::Optional(Some(value)),
                },
                Slot::Single(None) => match declarations.finalize.assembly[i] {
                    FinalizeExpression::Unwrap => {
                        proof {
                            lemma_least_below_is(
                                g.finalize.assembly.len() as int,
                                unwrap_fails(g, state),
                                i as int,
                            );
                        }
                        return Err(
                            MissingField {
                                member: declarations.builder_type.members[i].name.clone(),
                            },
                        );
                    },
                    FinalizeExpression::Copy => FieldValue::Optional(None),
                },
                Slot::Many(values) => FieldValue::Sequence(values),
            };
            record.push(value);
        }
        proof {
            lemma_least_below(g.finalize.assembly.len() as int, unwrap_fails(g, state));
            assert(record@.map_values(|value: FieldValue<V>| value@) =~= Seq::new(
                g.finalize.assembly.len(),
                |i: int| assembled(g.finalize.assembly[i], state[i]),
            ));
        }
        Ok(record)
    }
}

} // verus!
