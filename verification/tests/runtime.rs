use builder_pattern_fsm::assembly::{nicer_builder, Plan};
use builder_pattern_fsm::field::RawField;
use builder_pattern_fsm::finalizer::{FinalizeAction, FinalizeStep};
use builder_pattern_fsm::runtime::{
    finalize, BuildError, Builder, FieldValue, ProgramInvariantError, Record, Storage,
};
use builder_pattern_fsm::type_expr::{GenericArgument, PathArguments, PathSegment, TypeExpr};

fn named(ident: &str) -> TypeExpr {
    TypeExpr::Path {
        source: ident.to_string(),
        segments: vec![PathSegment { ident: ident.to_string(), arguments: PathArguments::Absent }],
    }
}

fn optional(ident: &str) -> TypeExpr {
    TypeExpr::Path {
        source: format!("Option < {} >", ident),
        segments: vec![PathSegment {
            ident: "Option".to_string(),
            arguments: PathArguments::AngleBracketed {
                args: vec![GenericArgument::Type(named(ident))],
            },
        }],
    }
}

fn record(fields: &[(&str, bool)]) -> Plan {
    let raw = fields
        .iter()
        .map(|(name, required)| RawField {
            name: Some(name.to_string()),
            declared: if *required { named("u32") } else { optional("u32") },
        })
        .collect();
    nicer_builder("Sample", raw).unwrap()
}

fn run(plan: &Plan, calls: &[(&str, u32)]) -> Option<Builder<u32>> {
    let mut builder = plan.builder();
    for (field, value) in calls {
        builder = plan.call(builder, &format!("with_{}", field), *value)?;
    }
    Some(builder)
}

fn permutations(items: &[(&'static str, u32)]) -> Vec<Vec<(&'static str, u32)>> {
    if items.len() <= 1 {
        return vec![items.to_vec()];
    }
    let mut all = Vec::new();
    for i in 0..items.len() {
        let mut rest = items.to_vec();
        let first = rest.remove(i);
        for mut tail in permutations(&rest) {
            tail.insert(0, first);
            all.push(tail);
        }
    }
    all
}

#[test]
fn every_order_of_required_setters_builds_the_same_record() {
    let plan = record(&[("a", true), ("b", true), ("c", true), ("d", true)]);
    let calls = [("a", 1), ("b", 2), ("c", 3), ("d", 4)];
    let expected = Record {
        fields: vec![
            FieldValue::Required(1),
            FieldValue::Required(2),
            FieldValue::Required(3),
            FieldValue::Required(4),
        ],
    };
    let orders = permutations(&calls);
    assert_eq!(orders.len(), 24);
    for order in orders {
        let builder = run(&plan, &order).unwrap();
        assert_eq!(plan.build(builder).as_ref(), Ok(&expected));
    }
}

#[test]
fn every_order_of_mixed_setters_ends_in_the_same_builder() {
    let plan = record(&[("a", true), ("b", false), ("c", true)]);
    let calls = [("a", 7), ("b", 8), ("c", 9)];
    let reference = run(&plan, &calls).unwrap();
    for order in permutations(&calls) {
        assert_eq!(run(&plan, &order).unwrap(), reference);
    }
}

#[test]
fn single_optional_field_builds_absent_at_entry() {
    let plan = record(&[("inner", false)]);
    let builder: Builder<u32> = plan.builder();
    assert!(plan.can_build(&builder));
    assert_eq!(plan.build(builder), Ok(Record { fields: vec![FieldValue::Optional(None)] }));
}

#[test]
fn all_optional_record_builds_at_entry() {
    let plan = record(&[("a", false), ("b", false), ("c", false)]);
    let builder: Builder<u32> = plan.builder();
    assert_eq!(
        plan.build(builder),
        Ok(Record {
            fields: vec![
                FieldValue::Optional(None),
                FieldValue::Optional(None),
                FieldValue::Optional(None)
            ]
        })
    );
}

#[test]
fn unset_optional_slots_are_absent() {
    let plan = record(&[("a", true), ("b", false), ("c", false)]);
    let builder = run(&plan, &[("c", 3), ("a", 1)]).unwrap();
    assert_eq!(
        plan.build(builder),
        Ok(Record {
            fields: vec![
                FieldValue::Required(1),
                FieldValue::Optional(None),
                FieldValue::Optional(Some(3))
            ]
        })
    );
}

#[test]
fn build_is_not_offered_while_a_required_field_is_missing() {
    let plan = record(&[("a", true), ("b", false), ("c", true)]);
    let entry: Builder<u32> = plan.builder();
    assert!(!plan.can_build(&entry));
    assert_eq!(plan.build(entry), Err(BuildError::NotOffered));
    let builder = run(&plan, &[("a", 1), ("b", 2)]).unwrap();
    assert!(!plan.can_build(&builder));
    assert_eq!(plan.build(builder), Err(BuildError::NotOffered));
    let builder = run(&plan, &[("a", 1), ("c", 3)]).unwrap();
    assert!(plan.can_build(&builder));
}

#[test]
fn a_setter_is_offered_once() {
    let plan = record(&[("a", true), ("b", false)]);
    assert!(run(&plan, &[("a", 1), ("a", 2)]).is_none());
    assert!(run(&plan, &[("b", 1), ("a", 2), ("b", 3)]).is_none());
    assert!(run(&plan, &[("a", 1), ("b", 2), ("a", 3)]).is_none());
}

#[test]
fn an_unknown_setter_is_not_offered() {
    let plan = record(&[("a", true), ("b", false)]);
    assert!(plan.call(plan.builder(), "with_c", 1u32).is_none());
    assert!(plan.call(plan.builder(), "a", 1u32).is_none());
    assert!(plan.call(plan.builder(), "build", 1u32).is_none());
}

#[test]
fn the_final_builder_offers_no_setter() {
    let plan = record(&[("a", true)]);
    let builder = run(&plan, &[("a", 1)]).unwrap();
    assert!(plan.can_build(&builder));
    assert!(plan.call(builder, "with_a", 2).is_none());
}

fn step(name: &str, position: usize, action: FinalizeAction) -> FinalizeStep {
    FinalizeStep { name: name.to_string(), position, action }
}

#[test]
fn finalize_copies_optional_slots_and_unwraps_required_ones() {
    let steps = vec![
        step("a", 0, FinalizeAction::Unwrap),
        step("b", 1, FinalizeAction::Copy),
        step("c", 2, FinalizeAction::Copy),
    ];
    let storage = Storage { slots: vec![Some(1u8), None, Some(3u8)] };
    assert_eq!(
        finalize(&steps, storage),
        Ok(Record {
            fields: vec![
                FieldValue::Required(1),
                FieldValue::Optional(None),
                FieldValue::Optional(Some(3))
            ]
        })
    );
}

#[test]
fn finalize_names_the_first_required_slot_that_is_absent() {
    let steps = vec![
        step("a", 0, FinalizeAction::Copy),
        step("b", 1, FinalizeAction::Unwrap),
        step("c", 2, FinalizeAction::Unwrap),
    ];
    let storage: Storage<u8> = Storage { slots: vec![None, None, None] };
    assert_eq!(finalize(&steps, storage), Err(ProgramInvariantError { position: 1 }));
    let storage: Storage<u8> = Storage { slots: vec![None, Some(2), None] };
    assert_eq!(finalize(&steps, storage), Err(ProgramInvariantError { position: 2 }));
}

#[test]
fn no_run_reaches_the_program_invariant_error() {
    let fields = [("a", true), ("b", false), ("c", true), ("d", false)];
    let plan = record(&fields);
    let calls = [("a", 1), ("b", 2), ("c", 3), ("d", 4)];
    for order in permutations(&calls) {
        for length in 0..=order.len() {
            let builder = run(&plan, &order[..length]).unwrap();
            let required_set = ["a", "c"]
                .iter()
                .all(|name| order[..length].iter().any(|(called, _)| called == name));
            match plan.build(builder) {
                Ok(_) => assert!(required_set),
                Err(error) => {
                    assert_eq!(error, BuildError::NotOffered);
                    assert!(!required_set);
                }
            }
        }
    }
}
