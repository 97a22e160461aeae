//! Field sets and their cache keys name each other.
//!
//! Where the names of a record's fields are distinct and free of the
//! separator of cache keys, two field sets with one cache key are one set.
//! Then every setter leads to the state whose missing fields are exactly
//! those of its own state without the setter's field.

use crate::assembly::{plan_wf, Plan};
use crate::field::FieldSpec;
use crate::field_set::{
    cache_key, full_set, is_field_set, join_names, lemma_full_set, lemma_remove_is_field_set,
    names_of,
};
use crate::generator::{state_ok, Target};
use crate::runtime::{fields_at, is_state_of};
use vstd::prelude::*;

verus! {

/// Whether `name` holds no colon.
pub open spec fn colon_free(name: Seq<char>) -> bool {
    forall|k: int| 0 <= k < name.len() ==> #[trigger] name[k] != ':'
}

/// Whether the names of the fields are those of a record: no two fields
/// share a name, and no name holds a colon.
pub open spec fn well_named(specs: Seq<FieldSpec>) -> bool {
    &&& forall|a: int, b: int|
        0 <= a < b < specs.len() ==> (#[trigger] specs[a]).name@ != (#[trigger] specs[b]).name@
    &&& forall|i: int| 0 <= i < specs.len() ==> colon_free((#[trigger] specs[i]).name@)
}

/// Whether `name` holds no colon.
pub fn is_colon_free(name: &str) -> (free: bool)
    ensures
        free == colon_free(name@),
{
    let n: usize = name.unicode_len();
    let mut k: usize = 0;
    while k < n
        invariant
            k <= n,
            n == name@.len(),
            forall|j: int| 0 <= j < k ==> #[trigger] name@[j] != ':',
        decreases n - k,
    {
        if name.get_char(k) == ':' {
            return false;
        }
        k += 1;
    }
    true
}

/// Whether the fields are named as those of a record are: no two alike, and
/// none with a colon in its name.
pub fn is_well_named(specs: &Vec<FieldSpec>) -> (well: bool)
    ensures
        well == well_named(specs@),
{
    let n: usize = specs.len();
    let mut i: usize = 0;
    while i < n
        invariant
            i <= n,
            n == specs@.len(),
            forall|a: int, b: int|
                0 <= a < b < i ==> (#[trigger] specs@[a]).name@ != (#[trigger] specs@[b]).name@,
            forall|k: int| 0 <= k < i ==> colon_free((#[trigger] specs@[k]).name@),
        decreases n - i,
    {
        if !is_colon_free(specs[i].name.as_str()) {
            return false;
        }
        let mut j: usize = 0;
        while j < i
            invariant
                j <= i,
                i < n,
                n == specs@.len(),
                forall|a: int|
                    0 <= a < j ==> (#[trigger] specs@[a]).name@ != specs@[i as int].name@,
            decreases i - j,
        {
            if specs[j].name == specs[i].name {
                return false;
            }
            j += 1;
        }
        i += 1;
    }
    true
}

/// Names without colons can be read back from their joined text.
pub proof fn lemma_join_names_injective(xs: Seq<Seq<char>>, ys: Seq<Seq<char>>)
    requires
        xs.len() > 0,
        ys.len() > 0,
        forall|i: int| 0 <= i < xs.len() ==> colon_free(#[trigger] xs[i]),
        forall|i: int| 0 <= i < ys.len() ==> colon_free(#[trigger] ys[i]),
        join_names(xs) == join_names(ys),
    ensures
        xs == ys,
    decreases xs.len(),
{
    reveal_strlit("::");
    let w = join_names(xs);
    let x = xs.last();
    let y = ys.last();
    if xs.len() == 1 && ys.len() == 1 {
    } else if xs.len() == 1 {
        // The text of two or more names holds a colon; a single name does not.
        let b = join_names(ys.drop_last());
        assert(w[b.len() as int] == ':');
    } else if ys.len() == 1 {
        let a = join_names(xs.drop_last());
        assert(w[a.len() as int] == ':');
    } else {
        let a = join_names(xs.drop_last());
        let b = join_names(ys.drop_last());
        assert(w == a + "::"@ + x);
        if x.len() < y.len() {
            // The colon before `x` would lie inside `y`.
            let at = w.len() - x.len() - 1;
            assert(w[at] == (a + "::"@ + x)[at]);
        } else if y.len() < x.len() {
            let at = w.len() - y.len() - 1;
            assert(w[at] == (b + "::"@ + y)[at]);
        } else {
            assert(a =~= b) by {
                assert forall|k: int| 0 <= k < a.len() implies a[k] == b[k] by {
                    assert(w[k] == (a + "::"@ + x)[k]);
                }
            }
            assert(x =~= y) by {
                assert forall|k: int| 0 <= k < x.len() implies x[k] == y[k] by {
                    assert(w[a.len() + 2 + k] == (a + "::"@ + x)[a.len() + 2 + k]);
                }
            }
            lemma_join_names_injective(xs.drop_last(), ys.drop_last());
            assert(xs =~= xs.drop_last().push(x));
        }
    }
}

/// Two field sets of a well-named record that have one cache key are one
/// set.
pub proof fn lemma_cache_key_injective(specs: Seq<FieldSpec>, a: Seq<usize>, b: Seq<usize>)
    requires
        well_named(specs),
        is_field_set(specs.len(), a),
        is_field_set(specs.len(), b),
        a.len() > 0,
        b.len() > 0,
        cache_key(specs, a) == cache_key(specs, b),
    ensures
        a == b,
{
    let xs = names_of(specs, a);
    let ys = names_of(specs, b);
    lemma_join_names_injective(xs, ys);
    assert forall|k: int| 0 <= k < a.len() implies a[k] == b[k] by {
        assert(xs[k] == ys[k]);
    }
}

/// In the plan of a well-named record, a setter leads to the state whose
/// missing fields are those of the setter's own state without its field.
pub proof fn lemma_setter_target_fields(plan: Plan, i: int, j: int)
    requires
        plan_wf(plan),
        well_named(plan.specs@),
        0 <= i < plan.states@.len(),
        0 <= j < plan.states@[i].fields@.len(),
    ensures
        fields_at(plan.states@, plan.states@[i].transitions@[j].target)
            == plan.states@[i].fields@.remove(j),
        plan.states@[i].transitions@[j].field == plan.states@[i].fields@[j],
        is_state_of(plan.states@, plan.states@[i].transitions@[j].target),
{
    let states = plan.states@;
    let specs = plan.specs@;
    let s = states[i];
    let t = s.transitions@[j];
    assert(state_ok(states, plan.record@, specs, i));
    let rest = s.fields@.remove(j);
    lemma_remove_is_field_set(specs.len(), s.fields@, j);
    match t.target {
        Target::FinalBuilder => {},
        Target::State(k) => {
            assert(state_ok(states, plan.record@, specs, k as int));
            lemma_cache_key_injective(specs, states[k as int].fields@, rest);
        },
    }
}

/// In the plan of a well-named record with fields, the entry state misses
/// every field.
pub proof fn lemma_entry_fields(plan: Plan)
    requires
        plan_wf(plan),
        well_named(plan.specs@),
    ensures
        fields_at(plan.states@, plan.entry) == full_set(plan.specs@.len()),
        is_state_of(plan.states@, plan.entry),
{
    let full = full_set(plan.specs@.len());
    assert(plan.specs@.len() == plan.specs.len());
    lemma_full_set(plan.specs@.len());
    match plan.entry {
        Target::FinalBuilder => {},
        Target::State(k) => {
            assert(state_ok(plan.states@, plan.record@, plan.specs@, k as int));
            lemma_cache_key_injective(plan.specs@, plan.states@[k as int].fields@, full);
        },
    }
}

} // verus!
