//! Fields of a record, and their classification as required or optional.

use crate::type_expr::{effective_type, extract_from_option_type, is_optional, TypeExpr};
use vstd::prelude::*;

verus! {

/// A field as it was declared: its name, if it has one, and its type.
#[derive(Debug, PartialEq, Eq)]
pub struct RawField {
    /// The name of the field. Positional fields have none.
    pub name: Option<String>,
    /// The declared type of the field.
    pub declared: TypeExpr,
}

/// A classified field.
#[derive(Debug, PartialEq, Eq)]
pub struct FieldSpec {
    /// The name of the field.
    pub name: String,
    /// The type of the field as it was declared.
    pub declared: TypeExpr,
    /// Whether the field may be left unset.
    pub optional: bool,
    /// The place of the field in the record, counted from zero.
    pub position: usize,
}

/// A record holds a field that has no name. Such a record is rejected as a
/// whole.
#[derive(Debug, Clone, Copy, PartialEq, Eq)]
pub struct InvalidShapeError {
    /// The place of the first field without a name.
    pub position: usize,
}

/// Whether `spec` is the classification of `raw` at place `position`.
pub open spec fn classifies(raw: RawField, position: int, spec: FieldSpec) -> bool {
    &&& raw.name == Some(spec.name)
    &&& spec.declared == raw.declared
    &&& spec.optional == is_optional(raw.declared)
    &&& spec.position == position
}

/// Whether every field of `specs` knows its own place and is marked optional
/// exactly when its declared type is the optional wrapper.
pub open spec fn specs_wf(specs: Seq<FieldSpec>) -> bool {
    forall|i: int|
        0 <= i < specs.len() ==> (#[trigger] specs[i]).position == i && specs[i].optional
            == is_optional(specs[i].declared)
}

/// The index of the first field without a name, or the number of fields if
/// all are named.
pub open spec fn first_unnamed(fields: Seq<RawField>) -> int
    decreases fields.len(),
{
    if fields.len() == 0 {
        0
    } else if fields[0].name is None {
        0
    } else {
        1 + first_unnamed(fields.drop_first())
    }
}

proof fn lemma_first_unnamed_is(fields: Seq<RawField>, k: int)
    requires
        0 <= k <= fields.len(),
        k < fields.len() ==> fields[k].name is None,
        forall|j: int| 0 <= j < k ==> (#[trigger] fields[j]).name is Some,
    ensures
        first_unnamed(fields) == k,
    decreases fields.len(),
{
    if fields.len() > 0 && k > 0 {
        let rest = fields.drop_first();
        lemma_first_unnamed_is(rest, k - 1);
    }
}

impl FieldSpec {
    /// The type that the setter of this field accepts: the declared type
    /// with one layer of the optional wrapper peeled off, if it has one.
    pub fn effective_type(&self) -> (ty: &TypeExpr)
        ensures
            *ty == effective_type(self.declared),
    {
        match extract_from_option_type(&self.declared) {
            Some(inner) => inner,
            None => &self.declared,
        }
    }
}

/// Classifies the fields of a record, in order.
///
/// A record with a field that has no name is rejected as a whole. Otherwise
/// every field keeps its name and declared type, learns its place, and is
/// optional exactly when its declared type is the optional wrapper around
/// one type.
pub fn classify(fields: Vec<RawField>) -> (result: Result<Vec<FieldSpec>, InvalidShapeError>)
    ensures
        match result {
            Ok(specs) => {
                &&& first_unnamed(fields@) == fields@.len()
                &&& specs@.len() == fields@.len()
                &&& forall|i: int|
                    0 <= i < specs@.len() ==> classifies(fields@[i], i, #[trigger] specs@[i])
                &&& specs_wf(specs@)
            },
            Err(e) => e.position < fields@.len() && e.position == first_unnamed(fields@),
        },
{
    let n: usize = fields.len();
    let mut k: usize = 0;
    while k < n && fields[k].name.is_some()
        invariant
            k <= n,
            n == fields@.len(),
            forall|j: int| 0 <= j < k ==> (#[trigger] fields@[j]).name is Some,
        decreases n - k,
    {
        k += 1;
    }
    proof {
        lemma_first_unnamed_is(fields@, k as int);
    }
    if k < n {
        return Err(InvalidShapeError { position: k });
    }
    let ghost given = fields@;
    let mut fields = fields;
    let mut specs: Vec<FieldSpec> = Vec::new();
    while fields.len() > 0
        invariant
            given.len() == n,
            specs@.len() + fields@.len() == n,
            fields@ == given.skip(specs@.len() as int),
            forall|j: int| 0 <= j < n ==> (#[trigger] given[j]).name is Some,
            forall|i: int|
                0 <= i < specs@.len() ==> classifies(given[i], i, #[trigger] specs@[i]),
        decreases fields@.len(),
    {
        let position: usize = specs.len();
        let raw = fields.remove(0);
        let optional = extract_from_option_type(&raw.declared).is_some();
        let name = raw.name.unwrap();
        specs.push(FieldSpec { name, declared: raw.declared, optional, position });
    }
    Ok(specs)
}

} // verus!
