//! Running a plan: what the generated builders do when they are used.
//!
//! A builder is a state of the plan around the shared storage. Calling a
//! setter consumes the builder, stores the value and hands the storage on to
//! the next state. Building consumes the builder and converts the storage to
//! the record. A call that the state does not offer is one that the
//! generated types leave no way to write down; here it is answered with
//! nothing.

use crate::assembly::{plan_wf, Plan};
use crate::finalizer::{FinalizeAction, FinalizeStep};
use crate::generator::{is_setter, state_ok, BuilderState, Target, Transition};
use crate::identity::well_named;
use crate::laws::lemma_setter_keeps_consistent;
use vstd::prelude::*;

verus! {

/// The shared storage at run time: one slot for each field, absent until
/// the field's setter is called.
#[derive(Debug, PartialEq, Eq)]
pub struct Storage<T> {
    /// The slots, in the order of the record.
    pub slots: Vec<Option<T>>,
}

/// The value of one field of a finished record.
#[derive(Debug, PartialEq, Eq)]
pub enum FieldValue<T> {
    /// The value of a required field.
    Required(T),
    /// The value of an optional field, absent if it was never set.
    Optional(Option<T>),
}

/// A finished record: the values of its fields, in order.
#[derive(Debug, PartialEq, Eq)]
pub struct Record<T> {
    /// The values of the fields.
    pub fields: Vec<FieldValue<T>>,
}

/// The finalizer met a required field whose slot is absent. No sequence of
/// calls that the builders offer leads here.
#[derive(Debug, Clone, Copy, PartialEq, Eq)]
pub struct ProgramInvariantError {
    /// The place of the first required field without a value.
    pub position: usize,
}

/// Why a builder did not build the record.
#[derive(Debug, Clone, Copy, PartialEq, Eq)]
pub enum BuildError {
    /// The state does not offer to build the record: a required field is
    /// still missing.
    NotOffered,
    /// The finalizer failed.
    ProgramInvariant(ProgramInvariantError),
}

/// A builder: a state of the plan around the storage. It is consumed by
/// every call, and cannot be copied.
#[derive(Debug, PartialEq, Eq)]
pub struct Builder<T> {
    at: Target,
    shared: Storage<T>,
}

/// What a builder is: the state it is in and what its slots hold.
pub struct BuilderView<T> {
    /// The state that the builder is in.
    pub at: Target,
    /// The slots of its storage, in the order of the record.
    pub slots: Seq<Option<T>>,
}

impl<T> View for Builder<T> {
    type V = BuilderView<T>;

    closed spec fn view(&self) -> BuilderView<T> {
        BuilderView { at: self.at, slots: self.shared.slots@ }
    }
}

/// The field of the finished record that comes from `slot`.
pub open spec fn finalized<T>(action: FinalizeAction, slot: Option<T>) -> FieldValue<T> {
    match action {
        FinalizeAction::Copy => FieldValue::Optional(slot),
        FinalizeAction::Unwrap => FieldValue::Required(slot->0),
    }
}

/// The fields of the record that the finalizer makes of `slots`.
pub open spec fn record_of<T>(steps: Seq<FinalizeStep>, slots: Seq<Option<T>>) -> Seq<
    FieldValue<T>,
> {
    Seq::new(steps.len(), |i: int| finalized(steps[i].action, slots[i]))
}

/// Whether the slot of every required field holds a value.
pub open spec fn complete<T>(steps: Seq<FinalizeStep>, slots: Seq<Option<T>>) -> bool {
    forall|i: int|
        0 <= i < steps.len() ==> (#[trigger] steps[i]).action == FinalizeAction::Unwrap
            ==> slots[i] is Some
}

/// Whether `k` is the place of the first required field whose slot is absent.
pub open spec fn is_first_missing<T>(
    steps: Seq<FinalizeStep>,
    slots: Seq<Option<T>>,
    k: int,
) -> bool {
    &&& 0 <= k < steps.len()
    &&& steps[k].action == FinalizeAction::Unwrap
    &&& slots[k] is None
    &&& forall|j: int|
        0 <= j < k ==> (#[trigger] steps[j]).action == FinalizeAction::Unwrap ==> slots[j] is Some
}

/// The fields that are still missing in the state `at`.
pub open spec fn fields_at(states: Seq<BuilderState>, at: Target) -> Seq<usize> {
    match at {
        Target::FinalBuilder => Seq::empty(),
        Target::State(i) => states[i as int].fields@,
    }
}

/// Whether the state `at` offers to build the record.
pub open spec fn offers_build(states: Seq<BuilderState>, at: Target) -> bool {
    match at {
        Target::FinalBuilder => true,
        Target::State(i) => states[i as int].can_build,
    }
}

/// Whether the state `at` is a state of the plan.
pub open spec fn is_state_of(states: Seq<BuilderState>, at: Target) -> bool {
    at matches Target::State(i) ==> i < states.len()
}

/// The index of the first setter named `method`, or the number of setters
/// if none has that name.
pub open spec fn first_setter_named(setters: Seq<Transition>, method: Seq<char>) -> int
    decreases setters.len(),
{
    if setters.len() == 0 {
        0
    } else if setters[0].method@ == method {
        0
    } else {
        1 + first_setter_named(setters.drop_first(), method)
    }
}

pub proof fn lemma_first_setter_named_is(
    setters: Seq<Transition>,
    method: Seq<char>,
    k: int,
)
    requires
        0 <= k <= setters.len(),
        k < setters.len() ==> setters[k].method@ == method,
        forall|j: int| 0 <= j < k ==> (#[trigger] setters[j]).method@ != method,
    ensures
        first_setter_named(setters, method) == k,
    decreases setters.len(),
{
    if setters.len() > 0 && k > 0 {
        let rest = setters.drop_first();
        lemma_first_setter_named_is(rest, method, k - 1);
    }
}

/// The builder that the `j`-th setter of the builder's state returns when it
/// is given `value`: the setter's target, around the storage with the value
/// in the slot of the setter's field.
pub open spec fn after_setter<T>(
    states: Seq<BuilderState>,
    builder: BuilderView<T>,
    j: int,
    value: T,
) -> BuilderView<T> {
    let setter = states[builder.at->0 as int].transitions@[j];
    BuilderView { at: setter.target, slots: builder.slots.update(setter.field as int, Some(value)) }
}

/// What calling the setter named `method` with `value` gives: the next
/// builder, or nothing where the builder's state has no setter of that name.
pub open spec fn call_view<T>(
    states: Seq<BuilderState>,
    builder: BuilderView<T>,
    method: Seq<char>,
    value: T,
) -> Option<BuilderView<T>> {
    match builder.at {
        Target::FinalBuilder => None,
        Target::State(i) => {
            let setters = states[i as int].transitions@;
            let j = first_setter_named(setters, method);
            if j < setters.len() {
                Some(after_setter(states, builder, j, value))
            } else {
                None
            }
        },
    }
}

/// The builder that the record's entry point returns: the entry state
/// around a storage with every slot absent.
pub open spec fn entry_view<T>(plan: Plan) -> BuilderView<T> {
    BuilderView { at: plan.entry, slots: Seq::new(plan.specs@.len(), |i: int| None::<T>) }
}

/// Whether the builder belongs to the plan: it is in a state of the plan
/// and has one slot for each field.
pub open spec fn fits<T>(plan: Plan, builder: BuilderView<T>) -> bool {
    &&& is_state_of(plan.states@, builder.at)
    &&& builder.slots.len() == plan.specs@.len()
}

/// Whether the builder's slots agree with its state: a slot is absent
/// exactly when its field is still missing.
pub open spec fn consistent<T>(plan: Plan, builder: BuilderView<T>) -> bool {
    &&& fits(plan, builder)
    &&& forall|p: usize|
        p < builder.slots.len() ==> (builder.slots[p as int] is None <==> #[trigger] fields_at(
            plan.states@,
            builder.at,
        ).contains(p))
}

/// In a state that offers to build the record, consistent slots hold a
/// value for every required field.
pub proof fn lemma_consistent_is_complete<T>(plan: Plan, builder: BuilderView<T>)
    requires
        plan_wf(plan),
        consistent(plan, builder),
        offers_build(plan.states@, builder.at),
    ensures
        complete(plan.final_builder.steps@, builder.slots),
{
    let steps = plan.final_builder.steps@;
    let missing = fields_at(plan.states@, builder.at);
    assert forall|i: int|
        0 <= i < steps.len() && (#[trigger] steps[i]).action
            == FinalizeAction::Unwrap implies builder.slots[i] is Some by {
        let p = i as usize;
        if builder.slots[i] is None {
            assert(missing.contains(p));
        }
    }
}

/// Converts the storage to the record: the slot of an optional field is
/// copied as it is, the value of a required field is taken out of its slot.
///
/// This fails only where the slot of a required field is absent, and names
/// the first such field.
pub fn finalize<T>(steps: &Vec<FinalizeStep>, storage: Storage<T>) -> (result: Result<
    Record<T>,
    ProgramInvariantError,
>)
    requires
        storage.slots@.len() == steps@.len(),
    ensures
        match result {
            Ok(record) => complete(steps@, storage.slots@) && record.fields@ == record_of(
                steps@,
                storage.slots@,
            ),
            Err(e) => is_first_missing(steps@, storage.slots@, e.position as int),
        },
{
    let n: usize = steps.len();
    let mut k: usize = 0;
    while k < n
        invariant
            k <= n,
            n == steps@.len(),
            storage.slots@.len() == n,
            forall|j: int|
                0 <= j < k ==> (#[trigger] steps@[j]).action == FinalizeAction::Unwrap
                    ==> storage.slots@[j] is Some,
        decreases n - k,
    {
        let required = match steps[k].action {
            FinalizeAction::Copy => false,
            FinalizeAction::Unwrap => true,
        };
        if required && storage.slots[k].is_none() {
            return Err(ProgramInvariantError { position: k });
        }
        k += 1;
    }
    let ghost given = storage.slots@;
    let mut slots = storage.slots;
    let mut fields: Vec<FieldValue<T>> = Vec::new();
    while slots.len() > 0
        invariant
            n == steps@.len(),
            given.len() == n,
            complete(steps@, given),
            fields@.len() + slots@.len() == n,
            slots@ == given.skip(fields@.len() as int),
            forall|i: int|
                0 <= i < fields@.len() ==> #[trigger] fields@[i] == finalized(
                    steps@[i].action,
                    given[i],
                ),
        decreases slots@.len(),
    {
        let i: usize = fields.len();
        let slot = slots.remove(0);
        let field = match steps[i].action {
            FinalizeAction::Copy => FieldValue::Optional(slot),
            FinalizeAction::Unwrap => FieldValue::Required(slot.unwrap()),
        };
        fields.push(field);
    }
    Ok(Record { fields })
}

impl Plan {
    /// The record's entry point: the entry state around a fresh storage.
    pub fn builder<T>(&self) -> (builder: Builder<T>)
        ensures
            builder@ == entry_view::<T>(*self),
    {
        let n: usize = self.specs.len();
        let mut slots: Vec<Option<T>> = Vec::new();
        let mut i: usize = 0;
        while i < n
            invariant
                i <= n,
                slots@.len() == i,
                forall|k: int| 0 <= k < i ==> (#[trigger] slots@[k]) is None,
            decreases n - i,
        {
            slots.push(None);
            i += 1;
        }
        let builder = Builder { at: self.entry, shared: Storage { slots } };
        assert(builder@.slots == entry_view::<T>(*self).slots);
        builder
    }

    /// Calls the setter named `method` with `value`.
    ///
    /// Where the builder's state offers that setter, the value is stored in
    /// the slot of the setter's field and the next builder is returned.
    /// Where it does not, there is no next builder.
    pub fn call<T>(&self, builder: Builder<T>, method: &str, value: T) -> (next: Option<
        Builder<T>,
    >)
        requires
            plan_wf(*self),
            fits(*self, builder@),
        ensures
            match next {
                Some(b) => {
                    &&& call_view(self.states@, builder@, method@, value) == Some(b@)
                    &&& fits(*self, b@)
                    &&& well_named(self.specs@) && consistent(*self, builder@) ==> consistent(
                        *self,
                        b@,
                    )
                },
                None => call_view(self.states@, builder@, method@, value) is None,
            },
    {
        let i: usize = match builder.at {
            Target::FinalBuilder => {
                return None;
            },
            Target::State(i) => i,
        };
        let state = &self.states[i];
        let wanted = String::from_str(method);
        let mut j: usize = 0;
        while j < state.transitions.len() && !(state.transitions[j].method == wanted)
            invariant
                j <= state.transitions@.len(),
                wanted@ == method@,
                forall|k: int| 0 <= k < j ==> (#[trigger] state.transitions@[k]).method@ != method@,
            decreases state.transitions@.len() - j,
        {
            j += 1;
        }
        proof {
            lemma_first_setter_named_is(state.transitions@, method@, j as int);
        }
        if j == state.transitions.len() {
            return None;
        }
        assert(state_ok(self.states@, self.record@, self.specs@, i as int));
        let setter = &state.transitions[j];
        assert(is_setter(
            self.states@,
            self.specs@,
            state.fields@,
            j as int,
            i as int,
            *setter,
        ));
        proof {
            if well_named(self.specs@) && consistent(*self, builder@) {
                lemma_setter_keeps_consistent(*self, builder@, j as int, value);
            }
        }
        let at = setter.target;
        let mut shared = builder.shared;
        shared.slots.set(setter.field, Some(value));
        Some(Builder { at, shared })
    }

    /// Whether the builder's state offers to build the record.
    pub fn can_build<T>(&self, builder: &Builder<T>) -> (offered: bool)
        requires
            fits(*self, builder@),
        ensures
            offered == offers_build(self.states@, builder@.at),
    {
        match builder.at {
            Target::FinalBuilder => true,
            Target::State(i) => self.states[i].can_build,
        }
    }

    /// Builds the record.
    ///
    /// A state that does not offer it answers with `NotOffered`. One that
    /// does runs the finalizer. From a builder whose slots agree with its
    /// state the finalizer always succeeds.
    pub fn build<T>(&self, builder: Builder<T>) -> (result: Result<Record<T>, BuildError>)
        requires
            plan_wf(*self),
            fits(*self, builder@),
        ensures
            match result {
                Ok(record) => {
                    &&& offers_build(self.states@, builder@.at)
                    &&& complete(self.final_builder.steps@, builder@.slots)
                    &&& record.fields@ == record_of(self.final_builder.steps@, builder@.slots)
                },
                Err(BuildError::NotOffered) => !offers_build(self.states@, builder@.at),
                Err(BuildError::ProgramInvariant(e)) => {
                    &&& offers_build(self.states@, builder@.at)
                    &&& is_first_missing(
                        self.final_builder.steps@,
                        builder@.slots,
                        e.position as int,
                    )
                },
            },
            consistent(*self, builder@) && offers_build(self.states@, builder@.at) ==> result is Ok,
    {
        if !self.can_build(&builder) {
            return Err(BuildError::NotOffered);
        }
        proof {
            if consistent(*self, builder@) {
                lemma_consistent_is_complete(*self, builder@);
            }
        }
        match finalize(&self.final_builder.steps, builder.shared) {
            Ok(record) => Ok(record),
            Err(e) => Err(BuildError::ProgramInvariant(e)),
        }
    }
}

} // verus!
