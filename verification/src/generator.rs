//! The builder state generator.
//!
//! Starting from a set of missing fields, the generator takes out one field
//! after another and generates one builder state for every distinct set it
//! meets. States are kept in a cache by the cache key of their field set, so
//! that a set met again along another order of the same fields is resolved to
//! the state that exists already.

use crate::field::FieldSpec;
use crate::field_set::{
    all_fields_optional, all_optional, cache_key, forge_cache_key, is_field_set,
    lemma_all_optional_within, lemma_cache_key_remove_shorter, lemma_cache_key_within_shorter,
    lemma_remove_is_field_set, lemma_within_trans, within, without,
};
use crate::naming::{fresh_state_name, is_state_name, setter_name, setter_name_of};
use vstd::prelude::*;

verus! {

/// Where a setter leads.
#[derive(Debug, Clone, Copy, PartialEq, Eq)]
pub enum Target {
    /// The final builder: no field is missing.
    FinalBuilder,
    /// The builder state at this index of the cache.
    State(usize),
}

/// One setter of a builder state. It stores the value of `field` and hands
/// the storage on to `target`.
#[derive(Debug, PartialEq, Eq)]
pub struct Transition {
    /// The place of the field that the setter supplies.
    pub field: usize,
    /// The name of the setter.
    pub method: String,
    /// The state that the setter returns.
    pub target: Target,
}

/// A builder state: the fields that are still missing, one setter for each
/// of them, and whether the record may be built from here.
#[derive(Debug, PartialEq, Eq)]
pub struct BuilderState {
    /// The name of the generated type.
    pub name: String,
    /// The cache key of `fields`.
    pub key: String,
    /// The places of the fields that are still missing, in rising order.
    pub fields: Vec<usize>,
    /// The setters, one for each missing field, in the order of `fields`.
    pub transitions: Vec<Transition>,
    /// Whether this state offers to build the record.
    pub can_build: bool,
}

/// The states generated so far, in the order of their completion: a state
/// stands behind every state that its setters lead to.
#[derive(Debug, PartialEq, Eq)]
pub struct Cache {
    /// The generated states.
    pub states: Vec<BuilderState>,
}

/// Whether `target` stands for the field set `fields`: the final builder for
/// the empty set, else a state of `states` with the cache key of `fields`.
pub open spec fn resolves(
    states: Seq<BuilderState>,
    specs: Seq<FieldSpec>,
    fields: Seq<usize>,
    target: Target,
) -> bool {
    match target {
        Target::FinalBuilder => fields.len() == 0,
        Target::State(k) => fields.len() > 0 && k < states.len() && states[k as int].key@
            == cache_key(specs, fields),
    }
}

/// Whether `t` is the setter for the `j`-th field of `fields`, leading to
/// what stands, among the first `below` states, for `fields` without it.
pub open spec fn is_setter(
    states: Seq<BuilderState>,
    specs: Seq<FieldSpec>,
    fields: Seq<usize>,
    j: int,
    below: int,
    t: Transition,
) -> bool {
    &&& t.field == fields[j]
    &&& t.method@ == setter_name_of(specs[t.field as int].name@)
    &&& resolves(states, specs, fields.remove(j), t.target)
    &&& t.target matches Target::State(k) ==> k < below
}

/// Whether the state at index `i` is sound in itself: it holds a field set
/// that is not empty, under the cache key of that set, with one setter for
/// each field, each leading to a state before it or to the final builder.
pub open spec fn state_ok(
    states: Seq<BuilderState>,
    struct_name: Seq<char>,
    specs: Seq<FieldSpec>,
    i: int,
) -> bool {
    let s = states[i];
    &&& s.fields@.len() > 0
    &&& is_field_set(specs.len(), s.fields@)
    &&& s.key@ == cache_key(specs, s.fields@)
    &&& is_state_name(struct_name, s.name@)
    &&& s.transitions@.len() == s.fields@.len()
    &&& forall|j: int|
        0 <= j < s.fields@.len() ==> is_setter(
            states,
            specs,
            s.fields@,
            j,
            i,
            #[trigger] s.transitions@[j],
        )
}

/// Whether the states form a sound cache for the record: each is sound in
/// itself, and no cache key occurs twice.
pub open spec fn cache_wf(
    states: Seq<BuilderState>,
    struct_name: Seq<char>,
    specs: Seq<FieldSpec>,
) -> bool {
    &&& forall|i: int| 0 <= i < states.len() ==> #[trigger] state_ok(states, struct_name, specs, i)
    &&& forall|a: int, b: int|
        0 <= a < b < states.len() ==> (#[trigger] states[a]).key@ != (#[trigger] states[b]).key@
}

/// Whether `after` holds the states of `before`, unchanged and in place,
/// and perhaps more behind them.
pub open spec fn extends(before: Seq<BuilderState>, after: Seq<BuilderState>) -> bool {
    &&& before.len() <= after.len()
    &&& forall|i: int| 0 <= i < before.len() ==> #[trigger] after[i] == before[i]
}

/// Whether no state of `states` has the cache key `key`.
pub open spec fn key_absent(states: Seq<BuilderState>, key: Seq<char>) -> bool {
    forall|i: int| 0 <= i < states.len() ==> (#[trigger] states[i]).key@ != key
}

/// What holds of a state that was generated on the way down from `fields`:
/// its fields are among `fields`, and it offers to build the record exactly
/// when that was asked for or none of its own fields is required.
pub open spec fn generated_below(
    state: BuilderState,
    specs: Seq<FieldSpec>,
    fields: Seq<usize>,
    include_build: bool,
) -> bool {
    &&& within(state.fields@, fields)
    &&& state.can_build == (include_build || all_optional(specs, state.fields@))
}

proof fn lemma_state_ok_extends(
    before: Seq<BuilderState>,
    after: Seq<BuilderState>,
    struct_name: Seq<char>,
    specs: Seq<FieldSpec>,
    i: int,
)
    requires
        extends(before, after),
        0 <= i < before.len(),
        state_ok(before, struct_name, specs, i),
    ensures
        state_ok(after, struct_name, specs, i),
{
}

impl Cache {
    /// A cache that holds no state.
    pub fn new() -> (cache: Cache)
        ensures
            cache.states@.len() == 0,
    {
        Cache { states: Vec::new() }
    }

    /// The number of states in the cache.
    pub fn len(&self) -> (n: usize)
        ensures
            n == self.states@.len(),
    {
        self.states.len()
    }

    /// The index of the first state with the cache key `key`, if there is
    /// one.
    pub fn lookup(&self, key: &String) -> (found: Option<usize>)
        ensures
            match found {
                Some(i) => i < self.states@.len() && self.states@[i as int].key@ == key@
                    && key_absent(self.states@.take(i as int), key@),
                None => key_absent(self.states@, key@),
            },
    {
        let mut i: usize = 0;
        while i < self.states.len()
            invariant
                i <= self.states@.len(),
                key_absent(self.states@.take(i as int), key@),
            decreases self.states@.len() - i,
        {
            if self.states[i].key == *key {
                return Some(i);
            }
            i += 1;
        }
        assert(self.states@.take(i as int) == self.states@);
        None
    }
}

/// Resolves the builder state for the field set `fields`, generating it and
/// every state below it as far as the cache does not hold them yet.
///
/// The empty set resolves to the final builder. A set whose cache key is in
/// the cache resolves to the state found there, and the cache is left as it
/// is. Otherwise one setter is generated for each field of the set, leading
/// to what the set without that field resolves to, and the new state is put
/// into the cache behind everything its setters lead to.
///
/// A new state offers to build the record when `include_build` asks for it
/// or when none of its fields is required. What is generated below a set of
/// optional fields is always asked to offer it.
pub fn generate_builder(
    struct_name: &str,
    specs: &Vec<FieldSpec>,
    fields: Vec<usize>,
    include_build: bool,
    cache: &mut Cache,
) -> (target: Target)
    requires
        is_field_set(specs@.len() as nat, fields@),
        cache_wf(old(cache).states@, struct_name@, specs@),
    ensures
        cache_wf(final(cache).states@, struct_name@, specs@),
        extends(old(cache).states@, final(cache).states@),
        resolves(final(cache).states@, specs@, fields@, target),
        !key_absent(old(cache).states@, cache_key(specs@, fields@)) || fields@.len() == 0
            ==> final(cache).states@ == old(cache).states@,
        key_absent(old(cache).states@, cache_key(specs@, fields@)) && fields@.len() > 0
            ==> final(cache).states@.len() > old(cache).states@.len() && target == Target::State(
            (final(cache).states@.len() - 1) as usize,
        ),
        forall|k: int|
            old(cache).states@.len() <= k < final(cache).states@.len() ==> generated_below(
                #[trigger] final(cache).states@[k],
                specs@,
                fields@,
                include_build,
            ),
    decreases fields@.len(),
{
    let n: usize = fields.len();
    if n == 0 {
        return Target::FinalBuilder;
    }
    let key = forge_cache_key(specs, &fields);
    if let Some(found) = cache.lookup(&key) {
        return Target::State(found);
    }
    let name = fresh_state_name(struct_name);
    let can_build = include_build || all_fields_optional(specs, &fields);
    let mut transitions: Vec<Transition> = Vec::new();
    let mut index: usize = 0;
    while index < n
        invariant
            index <= n,
            n == fields@.len(),
            is_field_set(specs@.len() as nat, fields@),
            key@ == cache_key(specs@, fields@),
            cache_wf(cache.states@, struct_name@, specs@),
            extends(old(cache).states@, cache.states@),
            key_absent(cache.states@, key@),
            transitions@.len() == index,
            forall|j: int|
                0 <= j < index ==> is_setter(
                    cache.states@,
                    specs@,
                    fields@,
                    j,
                    cache.states@.len() as int,
                    #[trigger] transitions@[j],
                ),
            forall|k: int|
                old(cache).states@.len() <= k < cache.states@.len() ==> generated_below(
                    #[trigger] cache.states@[k],
                    specs@,
                    fields@,
                    include_build,
                ),
        decreases n - index,
    {
        let rest = without(&fields, index);
        let ghost before = cache.states@;
        proof {
            lemma_remove_is_field_set(specs@.len() as nat, fields@, index as int);
        }
        let target = if rest.len() == 0 {
            Target::FinalBuilder
        } else if all_fields_optional(specs, &rest) {
            generate_builder(struct_name, specs, rest, true, cache)
        } else {
            generate_builder(struct_name, specs, rest, include_build, cache)
        };
        proof {
            let after = cache.states@;
            let rest_set = fields@.remove(index as int);
            if rest_set.len() > 0 {
                lemma_cache_key_remove_shorter(specs@, fields@, index as int);
            }
            assert forall|k: int| before.len() <= k < after.len() implies generated_below(
                #[trigger] after[k],
                specs@,
                fields@,
                include_build,
            ) && after[k].key@ != key@ by {
                lemma_within_trans(after[k].fields@, rest_set, fields@);
                if all_optional(specs@, rest_set) {
                    lemma_all_optional_within(specs@, after[k].fields@, rest_set);
                }
                assert(state_ok(after, struct_name@, specs@, k));
                lemma_cache_key_within_shorter(
                    specs@,
                    specs@.len() as nat,
                    after[k].fields@,
                    rest_set,
                );
            }
        }
        let position: usize = fields[index];
        let method = setter_name(specs[position].name.as_str());
        transitions.push(Transition { field: position, method, target });
        index += 1;
    }
    let ghost before = cache.states@;
    let state = BuilderState { name, key, fields, transitions, can_build };
    cache.states.push(state);
    proof {
        let after = cache.states@;
        assert forall|i: int| 0 <= i < after.len() implies #[trigger] state_ok(
            after,
            struct_name@,
            specs@,
            i,
        ) by {
            if i < before.len() {
                lemma_state_ok_extends(before, after, struct_name@, specs@, i);
            }
        }
    }
    Target::State(cache.states.len() - 1)
}

} // verus!
