//! Assembly: from the declared fields of a record to the whole plan of its
//! builders.

use crate::field::{
    classifies, classify, first_unnamed, specs_wf, FieldSpec, InvalidShapeError, RawField,
};
use crate::field_set::{all_fields, all_optional, full_set};
use crate::finalizer::{generate_final_builder, is_finalizer_of, FinalBuilder};
use crate::generator::{cache_wf, generate_builder, resolves, BuilderState, Cache, Target};
use crate::naming::{container_name_of, final_builder_name, final_builder_name_of};
use crate::storage::{generate_container, is_container_of, Container};
use vstd::prelude::*;

verus! {

/// Everything that is generated for one record.
#[derive(Debug, PartialEq, Eq)]
pub struct Plan {
    /// The name of the record.
    pub record: String,
    /// The classified fields of the record, in order.
    pub specs: Vec<FieldSpec>,
    /// The storage type.
    pub container: Container,
    /// The final builder, with the finalizer.
    pub final_builder: FinalBuilder,
    /// The builder states in which a field is still missing.
    pub states: Vec<BuilderState>,
    /// The state that the record's entry point returns, around a fresh
    /// storage.
    pub entry: Target,
}

/// Whether the plan is the plan of its record: the storage and the finalizer
/// are those of its fields, the states form a sound cache, the entry stands
/// for the set of all fields, and a state offers to build the record exactly
/// when none of its missing fields is required.
pub open spec fn plan_wf(plan: Plan) -> bool {
    &&& specs_wf(plan.specs@)
    &&& is_container_of(plan.container, plan.record@, plan.specs@)
    &&& plan.final_builder.name@ == final_builder_name_of(plan.record@)
    &&& plan.final_builder.record@ == plan.record@
    &&& plan.final_builder.storage@ == container_name_of(plan.record@)
    &&& is_finalizer_of(plan.final_builder.steps@, plan.specs@)
    &&& cache_wf(plan.states@, plan.record@, plan.specs@)
    &&& resolves(plan.states@, plan.specs@, full_set(plan.specs@.len()), plan.entry)
    &&& forall|i: int|
        0 <= i < plan.states@.len() ==> (#[trigger] plan.states@[i]).can_build == all_optional(
            plan.specs@,
            plan.states@[i].fields@,
        )
}

/// Plans the builders of the record `struct_name` with the declared fields
/// `fields`.
///
/// A record with a field that has no name is rejected. Otherwise the fields
/// are classified, the storage and the final builder are laid out, and the
/// builder states are generated from the set of all fields downwards. A
/// record without fields starts at the final builder.
pub fn nicer_builder(struct_name: &str, fields: Vec<RawField>) -> (result: Result<
    Plan,
    InvalidShapeError,
>)
    ensures
        match result {
            Ok(plan) => {
                &&& first_unnamed(fields@) == fields@.len()
                &&& plan.record@ == struct_name@
                &&& plan.specs@.len() == fields@.len()
                &&& forall|i: int|
                    0 <= i < fields@.len() ==> classifies(fields@[i], i, #[trigger] plan.specs@[i])
                &&& plan_wf(plan)
            },
            Err(e) => e.position < fields@.len() && e.position == first_unnamed(fields@),
        },
{
    let specs = match classify(fields) {
        Ok(specs) => specs,
        Err(e) => {
            return Err(e);
        },
    };
    let container = generate_container(struct_name, &specs);
    let final_name = final_builder_name(struct_name);
    let final_builder = generate_final_builder(
        struct_name,
        final_name.as_str(),
        container.name.as_str(),
        &specs,
    );
    let mut cache = Cache::new();
    let everything = all_fields(specs.len());
    let entry = generate_builder(struct_name, &specs, everything, false, &mut cache);
    Ok(
        Plan {
            record: String::from_str(struct_name),
            specs,
            container,
            final_builder,
            states: cache.states,
            entry,
        },
    )
}

} // verus!
