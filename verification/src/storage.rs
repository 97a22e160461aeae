//! The shared storage: one aggregate with one slot for every field of the
//! record. Every builder state carries this same storage; the states differ
//! in the setters they offer, not in what they hold.

use crate::field::FieldSpec;
use crate::naming::{container_name, container_name_of};
use crate::type_expr::{extract_from_option_type, is_optional, TypeExpr};
use vstd::prelude::*;

verus! {

/// How the type of a slot comes from the declared type of its field. Either
/// way the slot holds an optional value of the field's effective type.
#[derive(Debug, Clone, Copy, PartialEq, Eq)]
pub enum SlotShape {
    /// The declared type is the optional wrapper already: the slot has the
    /// declared type.
    Declared,
    /// The slot has the declared type, wrapped in the optional wrapper.
    Wrapped,
}

/// One slot of the storage.
#[derive(Debug, PartialEq, Eq)]
pub struct Slot {
    /// The name of the slot, which is the name of its field.
    pub name: String,
    /// The place of the field in the record.
    pub position: usize,
    /// The type of the slot, in terms of the field's declared type.
    pub shape: SlotShape,
}

/// The storage type. A fresh storage has every slot absent.
#[derive(Debug, PartialEq, Eq)]
pub struct Container {
    /// The name of the storage type.
    pub name: String,
    /// The slots, one for each field, in the order of the record.
    pub slots: Vec<Slot>,
}

/// The shape of the slot for a field declared as `ty`.
pub open spec fn slot_shape_of(ty: TypeExpr) -> SlotShape {
    if is_optional(ty) {
        SlotShape::Declared
    } else {
        SlotShape::Wrapped
    }
}

/// Whether `slot` is the slot of the field `spec` at place `position`.
pub open spec fn is_slot_of(slot: Slot, spec: FieldSpec, position: int) -> bool {
    &&& slot.name@ == spec.name@
    &&& slot.position == position
    &&& slot.shape == slot_shape_of(spec.declared)
}

/// Whether `container` is the storage type of the record `struct_name` with
/// the fields `specs`.
pub open spec fn is_container_of(
    container: Container,
    struct_name: Seq<char>,
    specs: Seq<FieldSpec>,
) -> bool {
    &&& container.name@ == container_name_of(struct_name)
    &&& container.slots@.len() == specs.len()
    &&& forall|i: int|
        0 <= i < specs.len() ==> is_slot_of(#[trigger] container.slots@[i], specs[i], i)
}

/// Decides the type of the slot for a field declared as `ty`: the declared
/// type where that is optional already, else the declared type wrapped.
pub fn generate_maybe_wrapped_with_option(ty: &TypeExpr) -> (shape: SlotShape)
    ensures
        shape == slot_shape_of(*ty),
{
    if extract_from_option_type(ty).is_some() {
        return SlotShape::Declared;
    }
    SlotShape::Wrapped
}

/// The slots of the storage: one for each field, under the field's name.
pub fn generate_container_fields(specs: &Vec<FieldSpec>) -> (slots: Vec<Slot>)
    ensures
        slots@.len() == specs@.len(),
        forall|i: int| 0 <= i < specs@.len() ==> is_slot_of(#[trigger] slots@[i], specs@[i], i),
{
    let mut slots: Vec<Slot> = Vec::new();
    let mut i: usize = 0;
    while i < specs.len()
        invariant
            i <= specs@.len(),
            slots@.len() == i,
            forall|k: int| 0 <= k < i ==> is_slot_of(#[trigger] slots@[k], specs@[k], k),
        decreases specs@.len() - i,
    {
        let shape = generate_maybe_wrapped_with_option(&specs[i].declared);
        slots.push(Slot { name: specs[i].name.clone(), position: i, shape });
        i += 1;
    }
    slots
}

/// The storage type of a record: named after the record, with one slot for
/// each field.
pub fn generate_container(struct_name: &str, specs: &Vec<FieldSpec>) -> (container: Container)
    ensures
        is_container_of(container, struct_name@, specs@),
{
    let slots = generate_container_fields(specs);
    let name = container_name(struct_name);
    Container { name, slots }
}

} // verus!
