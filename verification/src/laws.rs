//! What holds of every run of the generated builders.
//!
//! A run starts at the record's entry point and calls setters one after
//! another. The laws below speak of the plan of a well-named record, and of
//! runs in which every call is one that the state at hand offers.

use crate::assembly::{plan_wf, Plan};
use crate::counting::{lemma_state_masks_differ, state_masks};
use crate::field_set::{
    is_field_set, lemma_field_set_ext, lemma_full_set, lemma_remove_is_field_set,
};
use crate::finalizer::is_step_of;
use crate::generator::{state_ok, BuilderState, Target};
use crate::identity::{lemma_entry_fields, lemma_setter_target_fields, well_named};
use crate::naming::setter_name_of;
use crate::runtime::{
    after_setter, call_view, complete, consistent, entry_view, fields_at, fits, is_state_of,
    lemma_consistent_is_complete, lemma_first_setter_named_is, offers_build, record_of,
    BuilderView, FieldValue,
};
use vstd::prelude::*;

verus! {

/// What supplying the field at `position` with `value` gives: the builder
/// behind the setter of that field, or nothing where the field is not
/// missing any more.
pub open spec fn set_field<T>(
    states: Seq<BuilderState>,
    builder: BuilderView<T>,
    position: usize,
    value: T,
) -> Option<BuilderView<T>> {
    let missing = fields_at(states, builder.at);
    if missing.contains(position) {
        Some(after_setter(states, builder, missing.index_of(position), value))
    } else {
        None
    }
}

/// The builder after the calls `calls`, each a field's place and a value,
/// made one after another from `start`; nothing if one of them is not
/// offered.
pub open spec fn run<T>(
    states: Seq<BuilderState>,
    start: BuilderView<T>,
    calls: Seq<(usize, T)>,
) -> Option<BuilderView<T>>
    decreases calls.len(),
{
    if calls.len() == 0 {
        Some(start)
    } else {
        match run(states, start, calls.drop_last()) {
            Some(builder) => set_field(states, builder, calls.last().0, calls.last().1),
            None => None,
        }
    }
}

/// The value that the last call for the field at `position` supplied, if
/// there was such a call.
pub open spec fn supplied<T>(calls: Seq<(usize, T)>, position: usize) -> Option<T>
    decreases calls.len(),
{
    if calls.len() == 0 {
        None
    } else if calls.last().0 == position {
        Some(calls.last().1)
    } else {
        supplied(calls.drop_last(), position)
    }
}

/// A setter keeps the slots in agreement with the state: the slot of its
/// field is filled, and its target misses that field no more.
pub proof fn lemma_setter_keeps_consistent<T>(plan: Plan, builder: BuilderView<T>, j: int, value: T)
    requires
        plan_wf(plan),
        well_named(plan.specs@),
        consistent(plan, builder),
        builder.at is State,
        0 <= j < fields_at(plan.states@, builder.at).len(),
    ensures
        consistent(plan, after_setter(plan.states@, builder, j, value)),
{
    let states = plan.states@;
    let i = builder.at->0 as int;
    let missing = states[i].fields@;
    let next = after_setter(states, builder, j, value);
    assert(state_ok(states, plan.record@, plan.specs@, i));
    lemma_setter_target_fields(plan, i, j);
    lemma_remove_is_field_set(plan.specs@.len(), missing, j);
    let rest = missing.remove(j);
    assert forall|p: usize| p < next.slots.len() implies (next.slots[p as int] is None
        <==> #[trigger] rest.contains(p)) by {
        if p != missing[j] && missing.contains(p) {
            let k = choose|k: int| 0 <= k < missing.len() && missing[k] == p;
            if k < j {
                assert(rest[k] == missing[k]);
            } else {
                assert(rest[k - 1] == missing[k]);
            }
        }
    }
}

/// Calling a field's setter by its name supplies that field: the names of
/// the setters of a state tell its missing fields apart.
pub proof fn law_call_by_name_supplies_the_field<T>(
    plan: Plan,
    builder: BuilderView<T>,
    position: usize,
    value: T,
)
    requires
        plan_wf(plan),
        well_named(plan.specs@),
        fits(plan, builder),
        position < plan.specs@.len(),
    ensures
        call_view(
            plan.states@,
            builder,
            setter_name_of(plan.specs@[position as int].name@),
            value,
        ) == set_field(plan.states@, builder, position, value),
{
    let states = plan.states@;
    let specs = plan.specs@;
    let wanted = setter_name_of(specs[position as int].name@);
    match builder.at {
        Target::FinalBuilder => {},
        Target::State(i) => {
            let s = states[i as int];
            let missing = s.fields@;
            let setters = s.transitions@;
            assert(state_ok(states, plan.record@, specs, i as int));
            assert forall|j: int| 0 <= j < setters.len() implies ((#[trigger] setters[j]).method@
                == wanted <==> missing[j] == position) by {
                let a = specs[missing[j] as int].name@;
                let b = specs[position as int].name@;
                if setters[j].method@ == wanted {
                    assert(("with_"@ + a).skip("with_"@.len() as int) == a);
                    assert(("with_"@ + b).skip("with_"@.len() as int) == b);
                }
            }
            if missing.contains(position) {
                let j = missing.index_of(position);
                lemma_first_setter_named_is(setters, wanted, j);
            } else {
                lemma_first_setter_named_is(setters, wanted, setters.len() as int);
            }
        },
    }
}

/// At the entry point the slots agree with the state: every slot is absent
/// and every field is missing.
pub proof fn lemma_entry_consistent<T>(plan: Plan)
    requires
        plan_wf(plan),
        well_named(plan.specs@),
    ensures
        consistent(plan, entry_view::<T>(plan)),
{
    lemma_entry_fields(plan);
    assert(plan.specs@.len() == plan.specs.len());
    lemma_full_set(plan.specs@.len());
}

/// Supplying a missing field keeps the slots in agreement with the state.
pub proof fn lemma_set_field_keeps_consistent<T>(
    plan: Plan,
    builder: BuilderView<T>,
    position: usize,
    value: T,
)
    requires
        plan_wf(plan),
        well_named(plan.specs@),
        consistent(plan, builder),
        set_field(plan.states@, builder, position, value) is Some,
    ensures
        consistent(plan, set_field(plan.states@, builder, position, value)->0),
{
    let missing = fields_at(plan.states@, builder.at);
    let j = missing.index_of(position);
    lemma_setter_keeps_consistent(plan, builder, j, value);
}

/// Throughout a run the slots agree with the state: a slot is absent
/// exactly when its field is still missing.
pub proof fn law_run_keeps_consistent<T>(plan: Plan, calls: Seq<(usize, T)>)
    requires
        plan_wf(plan),
        well_named(plan.specs@),
        run(plan.states@, entry_view::<T>(plan), calls) is Some,
    ensures
        consistent(plan, run(plan.states@, entry_view::<T>(plan), calls)->0),
    decreases calls.len(),
{
    if calls.len() == 0 {
        lemma_entry_consistent::<T>(plan);
    } else {
        law_run_keeps_consistent(plan, calls.drop_last());
        let before = run(plan.states@, entry_view::<T>(plan), calls.drop_last())->0;
        lemma_set_field_keeps_consistent(plan, before, calls.last().0, calls.last().1);
    }
}

/// The finalizer cannot fail: wherever a run ends in a state that offers to
/// build the record, the slot of every required field holds a value.
pub proof fn law_finalizer_never_fails<T>(plan: Plan, calls: Seq<(usize, T)>)
    requires
        plan_wf(plan),
        well_named(plan.specs@),
        run(plan.states@, entry_view::<T>(plan), calls) is Some,
        offers_build(plan.states@, run(plan.states@, entry_view::<T>(plan), calls)->0.at),
    ensures
        complete(
            plan.final_builder.steps@,
            run(plan.states@, entry_view::<T>(plan), calls)->0.slots,
        ),
{
    law_run_keeps_consistent(plan, calls);
    lemma_consistent_is_complete(plan, run(plan.states@, entry_view::<T>(plan), calls)->0);
}

/// Whether some call of `calls` supplies the field at `position`.
pub open spec fn calls_field<T>(calls: Seq<(usize, T)>, position: usize) -> bool {
    exists|k: int| 0 <= k < calls.len() && (#[trigger] calls[k]).0 == position
}

/// Whether no field is supplied twice, and every call names a field of a
/// record of `n` fields.
pub open spec fn calls_once<T>(n: nat, calls: Seq<(usize, T)>) -> bool {
    &&& forall|k: int| 0 <= k < calls.len() ==> (#[trigger] calls[k]).0 < n
    &&& forall|a: int, b: int|
        0 <= a < b < calls.len() ==> (#[trigger] calls[a]).0 != (#[trigger] calls[b]).0
}

/// A field has a supplied value exactly when some call supplies it.
pub proof fn lemma_supplied_is_some<T>(calls: Seq<(usize, T)>, position: usize)
    ensures
        supplied(calls, position) is Some <==> calls_field(calls, position),
    decreases calls.len(),
{
    if calls.len() > 0 {
        let front = calls.drop_last();
        lemma_supplied_is_some(front, position);
        if calls.last().0 != position {
            if calls_field(front, position) {
                let k = choose|k: int| 0 <= k < front.len() && (#[trigger] front[k]).0 == position;
                assert(calls[k].0 == position);
            }
            if calls_field(calls, position) {
                let k = choose|k: int| 0 <= k < calls.len() && (#[trigger] calls[k]).0 == position;
                assert(front[k].0 == position);
            }
        }
    }
}

/// Where no field is supplied twice, the supplied value of a call's field
/// is the value of that call.
pub proof fn lemma_supplied_by<T>(n: nat, calls: Seq<(usize, T)>, k: int)
    requires
        calls_once(n, calls),
        0 <= k < calls.len(),
    ensures
        supplied(calls, calls[k].0) == Some(calls[k].1),
    decreases calls.len(),
{
    if k < calls.len() - 1 {
        lemma_supplied_by(n, calls.drop_last(), k);
    }
}

/// After a run every slot holds what the calls supplied for its field, and
/// is absent where no call supplied it.
pub proof fn law_slots_hold_what_was_supplied<T>(plan: Plan, calls: Seq<(usize, T)>)
    requires
        plan_wf(plan),
        well_named(plan.specs@),
        run(plan.states@, entry_view::<T>(plan), calls) is Some,
    ensures
        ({
            let end = run(plan.states@, entry_view::<T>(plan), calls)->0;
            &&& end.slots.len() == plan.specs@.len()
            &&& forall|p: usize|
                p < end.slots.len() ==> end.slots[p as int] == #[trigger] supplied(calls, p)
        }),
    decreases calls.len(),
{
    let states = plan.states@;
    if calls.len() > 0 {
        let front = calls.drop_last();
        law_slots_hold_what_was_supplied(plan, front);
        law_run_keeps_consistent(plan, front);
        let before = run(states, entry_view::<T>(plan), front)->0;
        let position = calls.last().0;
        let missing = fields_at(states, before.at);
        let j = missing.index_of(position);
        let i = before.at->0 as int;
        lemma_setter_target_fields(plan, i, j);
        let end = run(states, entry_view::<T>(plan), calls)->0;
        assert(state_ok(states, plan.record@, plan.specs@, i));
        assert forall|p: usize| p < end.slots.len() implies end.slots[p as int]
            == #[trigger] supplied(calls, p) by {
            if p != position {
                assert(before.slots[p as int] == supplied(front, p));
            }
        }
    }
}

/// No run supplies a field twice: once a field is supplied, no later state
/// offers its setter.
pub proof fn law_no_field_is_set_twice<T>(plan: Plan, calls: Seq<(usize, T)>)
    requires
        plan_wf(plan),
        well_named(plan.specs@),
        run(plan.states@, entry_view::<T>(plan), calls) is Some,
    ensures
        calls_once(plan.specs@.len(), calls),
    decreases calls.len(),
{
    let states = plan.states@;
    if calls.len() > 0 {
        let front = calls.drop_last();
        law_no_field_is_set_twice(plan, front);
        law_slots_hold_what_was_supplied(plan, front);
        law_run_keeps_consistent(plan, front);
        let before = run(states, entry_view::<T>(plan), front)->0;
        let position = calls.last().0;
        let i = before.at->0 as int;
        assert(state_ok(states, plan.record@, plan.specs@, i));
        lemma_supplied_is_some(front, position);
        assert forall|a: int, b: int| 0 <= a < b < calls.len() implies (#[trigger] calls[a]).0 != (
        #[trigger] calls[b]).0 by {
            if b < calls.len() - 1 {
                assert(front[a] == calls[a] && front[b] == calls[b]);
            } else {
                assert(front[a] == calls[a]);
            }
        }
        assert forall|k: int| 0 <= k < calls.len() implies (#[trigger] calls[k]).0
            < plan.specs@.len() by {
            if k < calls.len() - 1 {
                assert(front[k] == calls[k]);
            }
        }
    }
}

/// Setters may be called in any order: calls that supply fields of the
/// record, none of them twice, are all offered.
pub proof fn law_every_order_runs<T>(plan: Plan, calls: Seq<(usize, T)>)
    requires
        plan_wf(plan),
        well_named(plan.specs@),
        calls_once(plan.specs@.len(), calls),
    ensures
        run(plan.states@, entry_view::<T>(plan), calls) is Some,
    decreases calls.len(),
{
    if calls.len() > 0 {
        let front = calls.drop_last();
        law_every_order_runs(plan, front);
        law_slots_hold_what_was_supplied(plan, front);
        law_run_keeps_consistent(plan, front);
        let position = calls.last().0;
        lemma_supplied_is_some(front, position);
    }
}

/// The missing fields of a state of the plan are a field set.
pub proof fn lemma_fields_at_is_field_set(plan: Plan, at: Target)
    requires
        plan_wf(plan),
        is_state_of(plan.states@, at),
    ensures
        is_field_set(plan.specs@.len(), fields_at(plan.states@, at)),
        at is State ==> fields_at(plan.states@, at).len() > 0,
{
    match at {
        Target::FinalBuilder => {},
        Target::State(i) => {
            assert(state_ok(plan.states@, plan.record@, plan.specs@, i as int));
        },
    }
}

/// Runs that supply the same fields end in the same state, whatever the
/// order of their calls: there is one state for each set of missing fields.
pub proof fn law_paths_converge<T>(plan: Plan, first: Seq<(usize, T)>, second: Seq<(usize, T)>)
    requires
        plan_wf(plan),
        well_named(plan.specs@),
        run(plan.states@, entry_view::<T>(plan), first) is Some,
        run(plan.states@, entry_view::<T>(plan), second) is Some,
        forall|p: usize| #[trigger] calls_field(first, p) <==> calls_field(second, p),
    ensures
        run(plan.states@, entry_view::<T>(plan), first)->0.at == run(
            plan.states@,
            entry_view::<T>(plan),
            second,
        )->0.at,
{
    let states = plan.states@;
    let n = plan.specs@.len();
    let b1 = run(states, entry_view::<T>(plan), first)->0;
    let b2 = run(states, entry_view::<T>(plan), second)->0;
    law_run_keeps_consistent(plan, first);
    law_run_keeps_consistent(plan, second);
    law_slots_hold_what_was_supplied(plan, first);
    law_slots_hold_what_was_supplied(plan, second);
    lemma_fields_at_is_field_set(plan, b1.at);
    lemma_fields_at_is_field_set(plan, b2.at);
    let f1 = fields_at(states, b1.at);
    let f2 = fields_at(states, b2.at);
    assert forall|p: usize| #[trigger] f1.contains(p) <==> f2.contains(p) by {
        lemma_supplied_is_some(first, p);
        lemma_supplied_is_some(second, p);
    }
    lemma_field_set_ext(n, f1, f2);
    match (b1.at, b2.at) {
        (Target::State(i1), Target::State(i2)) => {
            assert(state_ok(states, plan.record@, plan.specs@, i1 as int));
            assert(state_ok(states, plan.record@, plan.specs@, i2 as int));
        },
        _ => {},
    }
}

/// Runs that supply the same values to the same fields end in the same
/// builder: the same state around the same storage.
pub proof fn law_same_supplies_same_builder<T>(
    plan: Plan,
    first: Seq<(usize, T)>,
    second: Seq<(usize, T)>,
)
    requires
        plan_wf(plan),
        well_named(plan.specs@),
        run(plan.states@, entry_view::<T>(plan), first) is Some,
        run(plan.states@, entry_view::<T>(plan), second) is Some,
        forall|p: usize| #[trigger] supplied(first, p) == supplied(second, p),
    ensures
        run(plan.states@, entry_view::<T>(plan), first) == run(
            plan.states@,
            entry_view::<T>(plan),
            second,
        ),
{
    let states = plan.states@;
    let b1 = run(states, entry_view::<T>(plan), first)->0;
    let b2 = run(states, entry_view::<T>(plan), second)->0;
    assert forall|p: usize| #[trigger] calls_field(first, p) <==> calls_field(second, p) by {
        lemma_supplied_is_some(first, p);
        lemma_supplied_is_some(second, p);
    }
    law_paths_converge(plan, first, second);
    law_slots_hold_what_was_supplied(plan, first);
    law_slots_hold_what_was_supplied(plan, second);
    assert(plan.specs@.len() == plan.specs.len());
    assert forall|i: int| 0 <= i < b1.slots.len() implies b1.slots[i] == b2.slots[i] by {
        let p = i as usize;
        assert(b1.slots[p as int] == supplied(first, p));
    }
    assert(b1.slots =~= b2.slots);
}

/// Whether `order` lists the numbers below `n`, each once.
pub open spec fn is_permutation(order: Seq<int>, n: nat) -> bool {
    &&& order.len() == n
    &&& forall|k: int| 0 <= k < order.len() ==> 0 <= #[trigger] order[k] < n
    &&& forall|a: int, b: int| 0 <= a < b < order.len() ==> order[a] != order[b]
}

/// The calls `calls`, made in the order `order`.
pub open spec fn reordered<T>(calls: Seq<(usize, T)>, order: Seq<int>) -> Seq<(usize, T)> {
    Seq::new(order.len(), |k: int| calls[order[k]])
}

/// A permutation of the numbers below `n` reaches each of them.
pub proof fn lemma_permutation_onto(order: Seq<int>, n: nat, m: int)
    requires
        is_permutation(order, n),
        0 <= m < n,
    ensures
        exists|k: int| 0 <= k < order.len() && order[k] == m,
{
    order.unique_seq_to_set();
    vstd::set_lib::lemma_int_range(0, n as int);
    let range = vstd::set_lib::set_int_range(0, n as int);
    assert(order.to_set().subset_of(range));
    vstd::set_lib::lemma_len_subset(order.to_set(), range);
    vstd::set_lib::lemma_subset_equality(order.to_set(), range);
    assert(range.contains(m));
}

/// The order of the calls does not matter: where a run is offered, so is
/// the run that makes the same calls in any other order, and both end in
/// the same builder. What is built from them is therefore the same.
pub proof fn law_order_independence<T>(plan: Plan, calls: Seq<(usize, T)>, order: Seq<int>)
    requires
        plan_wf(plan),
        well_named(plan.specs@),
        run(plan.states@, entry_view::<T>(plan), calls) is Some,
        is_permutation(order, calls.len()),
    ensures
        run(plan.states@, entry_view::<T>(plan), reordered(calls, order)) == run(
            plan.states@,
            entry_view::<T>(plan),
            calls,
        ),
{
    let n = plan.specs@.len();
    let other = reordered(calls, order);
    law_no_field_is_set_twice(plan, calls);
    assert(calls_once(n, other));
    law_every_order_runs(plan, other);
    assert forall|p: usize| #[trigger] supplied(other, p) == supplied(calls, p) by {
        lemma_supplied_is_some(other, p);
        lemma_supplied_is_some(calls, p);
        if calls_field(other, p) {
            let k = choose|k: int| 0 <= k < other.len() && (#[trigger] other[k]).0 == p;
            lemma_supplied_by(n, other, k);
            lemma_supplied_by(n, calls, order[k]);
        } else if calls_field(calls, p) {
            let m = choose|m: int| 0 <= m < calls.len() && (#[trigger] calls[m]).0 == p;
            lemma_permutation_onto(order, calls.len(), m);
            let k = choose|k: int| 0 <= k < order.len() && order[k] == m;
            assert(other[k].0 == p);
        }
    }
    law_same_supplies_same_builder(plan, other, calls);
}

/// A record without required fields can be built at once: the entry state
/// offers it, and every field of the record built there is absent.
pub proof fn law_all_optional_builds_at_entry<T>(plan: Plan)
    requires
        plan_wf(plan),
        forall|i: int| 0 <= i < plan.specs@.len() ==> (#[trigger] plan.specs@[i]).optional,
    ensures
        offers_build(plan.states@, plan.entry),
        complete(plan.final_builder.steps@, entry_view::<T>(plan).slots),
        forall|i: int|
            0 <= i < plan.specs@.len() ==> #[trigger] record_of(
                plan.final_builder.steps@,
                entry_view::<T>(plan).slots,
            )[i] == FieldValue::Optional(None::<T>),
{
    match plan.entry {
        Target::FinalBuilder => {},
        Target::State(k) => {
            assert(state_ok(plan.states@, plan.record@, plan.specs@, k as int));
        },
    }
}

/// Once every required field is supplied, the record can be built.
pub proof fn law_required_supplied_offers_build<T>(plan: Plan, calls: Seq<(usize, T)>)
    requires
        plan_wf(plan),
        well_named(plan.specs@),
        run(plan.states@, entry_view::<T>(plan), calls) is Some,
        forall|p: usize|
            p < plan.specs@.len() && !plan.specs@[p as int].optional ==> #[trigger] calls_field(
                calls,
                p,
            ),
    ensures
        offers_build(plan.states@, run(plan.states@, entry_view::<T>(plan), calls)->0.at),
{
    let states = plan.states@;
    let end = run(states, entry_view::<T>(plan), calls)->0;
    law_run_keeps_consistent(plan, calls);
    law_slots_hold_what_was_supplied(plan, calls);
    match end.at {
        Target::FinalBuilder => {},
        Target::State(i) => {
            assert(state_ok(states, plan.record@, plan.specs@, i as int));
            let missing = states[i as int].fields@;
            assert forall|k: int| 0 <= k < missing.len() implies plan.specs@[(
            #[trigger] missing[k]) as int].optional by {
                let p = missing[k];
                assert(fields_at(states, end.at).contains(p));
                lemma_supplied_is_some(calls, p);
            }
        },
    }
}

/// The field of a record that is built when `value` was supplied for it, or
/// nothing was.
pub open spec fn built_from<T>(optional: bool, value: Option<T>) -> FieldValue<T> {
    if optional {
        FieldValue::Optional(value)
    } else {
        FieldValue::Required(value->0)
    }
}

/// What is built after a run: an optional field holds what was supplied
/// for it, and is absent if nothing was; a required field holds the value
/// that was supplied for it. An optional field that was never set cannot be
/// told from one that does not exist in the storage.
pub proof fn law_record_holds_what_was_supplied<T>(plan: Plan, calls: Seq<(usize, T)>)
    requires
        plan_wf(plan),
        well_named(plan.specs@),
        run(plan.states@, entry_view::<T>(plan), calls) is Some,
        offers_build(plan.states@, run(plan.states@, entry_view::<T>(plan), calls)->0.at),
    ensures
        ({
            let end = run(plan.states@, entry_view::<T>(plan), calls)->0;
            let record = record_of(plan.final_builder.steps@, end.slots);
            &&& record.len() == plan.specs@.len()
            &&& forall|p: usize|
                p < plan.specs@.len() ==> #[trigger] record[p as int] == built_from(
                    plan.specs@[p as int].optional,
                    supplied(calls, p),
                )
            &&& forall|p: usize|
                p < plan.specs@.len() && !plan.specs@[p as int].optional ==> #[trigger] calls_field(
                    calls,
                    p,
                )
        }),
{
    let steps = plan.final_builder.steps@;
    law_finalizer_never_fails(plan, calls);
    law_slots_hold_what_was_supplied(plan, calls);
    assert forall|p: usize|
        p < plan.specs@.len() && !plan.specs@[p as int].optional implies #[trigger] calls_field(
        calls,
        p,
    ) by {
        assert(is_step_of(steps[p as int], plan.specs@[p as int], p as int));
        lemma_supplied_is_some(calls, p);
    }
}

/// Calls that supply, in rising order, every field below `n` that is not in
/// `fields`.
pub open spec fn calls_for_the_others(fields: Seq<usize>, n: nat) -> Seq<(usize, ())>
    decreases n,
{
    if n == 0 {
        Seq::empty()
    } else {
        let before = calls_for_the_others(fields, (n - 1) as nat);
        if fields.contains((n - 1) as usize) {
            before
        } else {
            before.push(((n - 1) as usize, ()))
        }
    }
}

proof fn lemma_calls_for_the_others(fields: Seq<usize>, n: nat)
    requires
        n <= usize::MAX,
    ensures
        calls_once(n, calls_for_the_others(fields, n)),
        forall|p: usize|
            #[trigger] calls_field(calls_for_the_others(fields, n), p) <==> p < n
                && !fields.contains(p),
    decreases n,
{
    let calls = calls_for_the_others(fields, n);
    if n > 0 {
        let m = (n - 1) as nat;
        let top = m as usize;
        let before = calls_for_the_others(fields, m);
        lemma_calls_for_the_others(fields, m);
        assert forall|p: usize| #[trigger] calls_field(calls, p) <==> p < n && !fields.contains(
            p,
        ) by {
            if calls_field(before, p) {
                let k = choose|k: int| 0 <= k < before.len() && (#[trigger] before[k]).0 == p;
                assert(calls[k].0 == p);
            }
            if p == top && !fields.contains(p) {
                assert(calls[calls.len() - 1].0 == p);
            }
        }
    }
}

/// There is one state for every set of missing fields: each field set of
/// the record that is not empty is the field set of a state, and of no
/// second one.
pub proof fn law_one_state_for_each_field_set(plan: Plan, fields: Seq<usize>)
    requires
        plan_wf(plan),
        well_named(plan.specs@),
        is_field_set(plan.specs@.len(), fields),
        fields.len() > 0,
    ensures
        exists|i: int|
            0 <= i < plan.states@.len() && (#[trigger] plan.states@[i]).fields@ == fields,
        forall|i: int, j: int|
            0 <= i < plan.states@.len() && 0 <= j < plan.states@.len() && (
            #[trigger] plan.states@[i]).fields@ == (#[trigger] plan.states@[j]).fields@ ==> i == j,
{
    let states = plan.states@;
    let n = plan.specs@.len();
    assert(n == plan.specs.len());
    let calls = calls_for_the_others(fields, n);
    lemma_calls_for_the_others(fields, n);
    law_every_order_runs(plan, calls);
    law_run_keeps_consistent(plan, calls);
    law_slots_hold_what_was_supplied(plan, calls);
    let end = run(states, entry_view::<()>(plan), calls)->0;
    let missing = fields_at(states, end.at);
    lemma_fields_at_is_field_set(plan, end.at);
    assert forall|p: usize| #[trigger] missing.contains(p) <==> fields.contains(p) by {
        lemma_supplied_is_some(calls, p);
    }
    lemma_field_set_ext(n, missing, fields);
    assert forall|i: int, j: int|
        0 <= i < states.len() && 0 <= j < states.len() && (#[trigger] states[i]).fields@ == (
        #[trigger] states[j]).fields@ implies i == j by {
        assert(state_ok(states, plan.record@, plan.specs@, i));
        assert(state_ok(states, plan.record@, plan.specs@, j));
    }
}

/// Whether the state `i` of `first` and the state `j` of `second` are the
/// same but for their names: they miss the same fields, offer the same
/// setters, each leading to a state that misses the same fields, and agree
/// on whether the record may be built.
pub open spec fn same_state(first: Plan, i: int, second: Plan, j: int) -> bool {
    let x = first.states@[i];
    let y = second.states@[j];
    &&& x.fields@ == y.fields@
    &&& x.key@ == y.key@
    &&& x.can_build == y.can_build
    &&& x.transitions@.len() == y.transitions@.len()
    &&& forall|k: int|
        0 <= k < x.transitions@.len() ==> {
            &&& (#[trigger] x.transitions@[k]).field == y.transitions@[k].field
            &&& x.transitions@[k].method@ == y.transitions@[k].method@
            &&& fields_at(first.states@, x.transitions@[k].target) == fields_at(
                second.states@,
                y.transitions@[k].target,
            )
        }
}

/// Whether some state of `second` is the same as the state `i` of `first`
/// but for its name.
pub open spec fn has_its_like(first: Plan, i: int, second: Plan) -> bool {
    exists|j: int| 0 <= j < second.states@.len() && #[trigger] same_state(first, i, second, j)
}

/// Every state of `first` has its like in `second`.
proof fn lemma_states_have_their_like(first: Plan, second: Plan, i: int)
    requires
        plan_wf(first),
        plan_wf(second),
        well_named(first.specs@),
        first.specs@ == second.specs@,
        0 <= i < first.states@.len(),
    ensures
        has_its_like(first, i, second),
{
    let specs = first.specs@;
    let x = first.states@[i];
    assert(state_ok(first.states@, first.record@, specs, i));
    law_one_state_for_each_field_set(second, x.fields@);
    let j = choose|j: int|
        0 <= j < second.states@.len() && (#[trigger] second.states@[j]).fields@ == x.fields@;
    let y = second.states@[j];
    assert(state_ok(second.states@, second.record@, specs, j));
    assert forall|k: int| 0 <= k < x.transitions@.len() implies {
        &&& (#[trigger] x.transitions@[k]).field == y.transitions@[k].field
        &&& x.transitions@[k].method@ == y.transitions@[k].method@
        &&& fields_at(first.states@, x.transitions@[k].target) == fields_at(
            second.states@,
            y.transitions@[k].target,
        )
    } by {
        lemma_setter_target_fields(first, i, k);
        lemma_setter_target_fields(second, j, k);
    }
    assert(same_state(first, i, second, j));
}

/// Generation is determined by the record: two plans of one record hold the
/// same states and the same setters. Only the order of the states and their
/// names may differ.
pub proof fn law_one_record_one_graph(first: Plan, second: Plan)
    requires
        plan_wf(first),
        plan_wf(second),
        well_named(first.specs@),
        first.specs@ == second.specs@,
    ensures
        first.states@.len() == second.states@.len(),
        fields_at(first.states@, first.entry) == fields_at(second.states@, second.entry),
        forall|i: int| 0 <= i < first.states@.len() ==> #[trigger] has_its_like(first, i, second),
{
    let specs = first.specs@;
    lemma_entry_fields(first);
    lemma_entry_fields(second);
    assert forall|i: int| 0 <= i < first.states@.len() implies #[trigger] has_its_like(
        first,
        i,
        second,
    ) by {
        lemma_states_have_their_like(first, second, i);
    }
    let xs = state_masks(first.states@);
    let ys = state_masks(second.states@);
    lemma_state_masks_differ(first.states@, first.record@, specs);
    lemma_state_masks_differ(second.states@, second.record@, specs);
    assert forall|m: int| xs.to_set().contains(m) <==> ys.to_set().contains(m) by {
        if xs.to_set().contains(m) {
            let i = choose|i: int| 0 <= i < xs.len() && xs[i] == m;
            assert(state_ok(first.states@, first.record@, specs, i));
            law_one_state_for_each_field_set(second, first.states@[i].fields@);
            let j = choose|j: int|
                0 <= j < second.states@.len() && (#[trigger] second.states@[j]).fields@
                    == first.states@[i].fields@;
            assert(ys[j] == m);
        }
        if ys.to_set().contains(m) {
            let j = choose|j: int| 0 <= j < ys.len() && ys[j] == m;
            assert(state_ok(second.states@, second.record@, specs, j));
            law_one_state_for_each_field_set(first, second.states@[j].fields@);
            let i = choose|i: int|
                0 <= i < first.states@.len() && (#[trigger] first.states@[i]).fields@
                    == second.states@[j].fields@;
            assert(xs[i] == m);
        }
    }
    assert(xs.to_set() =~= ys.to_set());
}

} // verus!
