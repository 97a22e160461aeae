//! How many builder states there can be.
//!
//! Every state stands for a set of missing fields of its own, so a record
//! of `n` fields has fewer than `2^n` states in which a field is missing,
//! and at most `2^n` with the final builder.

use crate::assembly::{plan_wf, Plan};
use crate::field::FieldSpec;
use crate::field_set::is_field_set;
use crate::generator::{cache_wf, state_ok, BuilderState};
use vstd::arithmetic::power2::{
    lemma_pow2_pos, lemma_pow2_strictly_increases, lemma_pow2_unfold, pow2,
};
use vstd::prelude::*;

verus! {

/// The number whose binary digits mark the places of the field set.
pub open spec fn mask(fields: Seq<usize>) -> nat
    decreases fields.len(),
{
    if fields.len() == 0 {
        0
    } else {
        mask(fields.drop_last()) + pow2(fields.last() as nat)
    }
}

proof fn lemma_drop_last_is_field_set(n: nat, fields: Seq<usize>)
    requires
        is_field_set(n, fields),
        fields.len() > 0,
    ensures
        is_field_set(fields.last() as nat, fields.drop_last()),
        fields.last() < n,
{
}

/// The mask of a field set of places below `n` is below `2^n`.
pub proof fn lemma_mask_below(n: nat, fields: Seq<usize>)
    requires
        is_field_set(n, fields),
    ensures
        mask(fields) < pow2(n),
        fields.len() > 0 ==> pow2(fields.last() as nat) <= mask(fields) < pow2(
            (fields.last() + 1) as nat,
        ),
    decreases fields.len(),
{
    lemma_pow2_pos(n);
    if fields.len() > 0 {
        let top = fields.last() as nat;
        lemma_drop_last_is_field_set(n, fields);
        lemma_mask_below(top, fields.drop_last());
        lemma_pow2_unfold(top + 1);
        if top + 1 < n {
            lemma_pow2_strictly_increases(top + 1, n);
        }
    }
}

/// Field sets with one mask are one set.
pub proof fn lemma_mask_injective(n: nat, a: Seq<usize>, b: Seq<usize>)
    requires
        is_field_set(n, a),
        is_field_set(n, b),
        mask(a) == mask(b),
    ensures
        a == b,
    decreases a.len(),
{
    lemma_mask_below(n, a);
    lemma_mask_below(n, b);
    if a.len() == 0 || b.len() == 0 {
        if a.len() > 0 {
            lemma_pow2_pos(a.last() as nat);
        }
        if b.len() > 0 {
            lemma_pow2_pos(b.last() as nat);
        }
    } else {
        let x = a.last() as nat;
        let y = b.last() as nat;
        if x < y {
            if x + 1 < y {
                lemma_pow2_strictly_increases(x + 1, y);
            }
        } else if y < x {
            if y + 1 < x {
                lemma_pow2_strictly_increases(y + 1, x);
            }
        } else {
            lemma_drop_last_is_field_set(n, a);
            lemma_drop_last_is_field_set(n, b);
            lemma_mask_injective(x, a.drop_last(), b.drop_last());
            assert(a =~= a.drop_last().push(a.last()));
        }
    }
}

/// The masks of the field sets of the states, in the order of the states.
pub open spec fn state_masks(states: Seq<BuilderState>) -> Seq<int> {
    Seq::new(states.len(), |i: int| mask(states[i].fields@) as int)
}

/// No two states of a sound cache have one mask.
pub proof fn lemma_state_masks_differ(
    states: Seq<BuilderState>,
    struct_name: Seq<char>,
    specs: Seq<FieldSpec>,
)
    requires
        cache_wf(states, struct_name, specs),
    ensures
        state_masks(states).no_duplicates(),
        state_masks(states).to_set().finite(),
        state_masks(states).to_set().len() == states.len(),
{
    let n = specs.len();
    let masks = state_masks(states);
    assert forall|i: int, j: int|
        0 <= i < masks.len() && 0 <= j < masks.len() && i != j implies masks[i] != masks[j] by {
        assert(state_ok(states, struct_name, specs, i));
        assert(state_ok(states, struct_name, specs, j));
        if masks[i] == masks[j] {
            lemma_mask_injective(n, states[i].fields@, states[j].fields@);
        }
    }
    masks.unique_seq_to_set();
    vstd::seq_lib::seq_to_set_is_finite(masks);
}

/// A sound cache for a record of `n` fields holds fewer than `2^n` states.
pub proof fn lemma_cache_size(
    states: Seq<BuilderState>,
    struct_name: Seq<char>,
    specs: Seq<FieldSpec>,
)
    requires
        cache_wf(states, struct_name, specs),
    ensures
        states.len() < pow2(specs.len()),
{
    let n = specs.len();
    let masks = state_masks(states);
    lemma_pow2_pos(n);
    lemma_state_masks_differ(states, struct_name, specs);
    let range = vstd::set_lib::set_int_range(1, pow2(n) as int);
    vstd::set_lib::lemma_int_range(1, pow2(n) as int);
    assert(masks.to_set().subset_of(range)) by {
        assert forall|x: int| masks.to_set().contains(x) implies range.contains(x) by {
            let k = choose|k: int| 0 <= k < masks.len() && masks[k] == x;
            assert(state_ok(states, struct_name, specs, k));
            lemma_mask_below(n, states[k].fields@);
            lemma_pow2_pos(states[k].fields@.last() as nat);
        }
    }
    vstd::set_lib::lemma_len_subset(masks.to_set(), range);
}

/// The number of generated states, the final builder among them, is at most
/// `2^n` for a record of `n` fields.
pub proof fn law_state_count(plan: Plan)
    requires
        plan_wf(plan),
    ensures
        plan.states@.len() + 1 <= pow2(plan.specs@.len()),
{
    lemma_cache_size(plan.states@, plan.record@, plan.specs@);
}

} // verus!
