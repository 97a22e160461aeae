//! The finalizer: the conversion from the shared storage to the finished
//! record. The final builder offers it, and so does every builder state from
//! which the record may be built.

use crate::field::FieldSpec;
use crate::type_expr::{extract_from_option_type, is_optional, TypeExpr};
use vstd::prelude::*;

verus! {

/// What the finalizer does with one slot.
#[derive(Debug, Clone, Copy, PartialEq, Eq)]
pub enum FinalizeAction {
    /// The field is optional: the slot is copied as it is, set or not.
    Copy,
    /// The field is required: the value is taken out of the slot.
    Unwrap,
}

/// One field of the finished record, and how it is filled.
#[derive(Debug, PartialEq, Eq)]
pub struct FinalizeStep {
    /// The name of the field.
    pub name: String,
    /// The place of the field in the record.
    pub position: usize,
    /// What is done with the slot of the field.
    pub action: FinalizeAction,
}

/// The final builder: the state in which no field is missing.
#[derive(Debug, PartialEq, Eq)]
pub struct FinalBuilder {
    /// The name of the generated type.
    pub name: String,
    /// The name of the record that it builds.
    pub record: String,
    /// The name of the storage type that it carries.
    pub storage: String,
    /// The finalizer, one step for each field, in the order of the record.
    pub steps: Vec<FinalizeStep>,
}

/// What the finalizer does with the slot of a field declared as `ty`.
pub open spec fn finalize_action_of(ty: TypeExpr) -> FinalizeAction {
    if is_optional(ty) {
        FinalizeAction::Copy
    } else {
        FinalizeAction::Unwrap
    }
}

/// Whether `step` is the finalizer's step for the field `spec` at place
/// `position`.
pub open spec fn is_step_of(step: FinalizeStep, spec: FieldSpec, position: int) -> bool {
    &&& step.name@ == spec.name@
    &&& step.position == position
    &&& step.action == finalize_action_of(spec.declared)
}

/// Whether `steps` is the finalizer of a record with the fields `specs`.
pub open spec fn is_finalizer_of(steps: Seq<FinalizeStep>, specs: Seq<FieldSpec>) -> bool {
    &&& steps.len() == specs.len()
    &&& forall|i: int| 0 <= i < specs.len() ==> is_step_of(#[trigger] steps[i], specs[i], i)
}

/// The final builder of a record: it carries the storage and converts it
/// to the record, copying the slots of optional fields and taking the values
/// out of the slots of required ones.
pub fn generate_final_builder(
    struct_name: &str,
    builder_name: &str,
    shared_builder_name: &str,
    specs: &Vec<FieldSpec>,
) -> (builder: FinalBuilder)
    ensures
        builder.name@ == builder_name@,
        builder.record@ == struct_name@,
        builder.storage@ == shared_builder_name@,
        is_finalizer_of(builder.steps@, specs@),
{
    let mut steps: Vec<FinalizeStep> = Vec::new();
    let mut i: usize = 0;
    while i < specs.len()
        invariant
            i <= specs@.len(),
            steps@.len() == i,
            forall|k: int| 0 <= k < i ==> is_step_of(#[trigger] steps@[k], specs@[k], k),
        decreases specs@.len() - i,
    {
        let action = if extract_from_option_type(&specs[i].declared).is_some() {
            FinalizeAction::Copy
        } else {
            FinalizeAction::Unwrap
        };
        steps.push(FinalizeStep { name: specs[i].name.clone(), position: i, action });
        i += 1;
    }
    FinalBuilder {
        name: String::from_str(builder_name),
        record: String::from_str(struct_name),
        storage: String::from_str(shared_builder_name),
        steps,
    }
}

} // verus!
