use builder_pattern_fsm::assembly::{nicer_builder, Plan};
use builder_pattern_fsm::field::{classify, FieldSpec, InvalidShapeError, RawField};
use builder_pattern_fsm::field_set::{all_fields, all_fields_optional, forge_cache_key, without};
use builder_pattern_fsm::finalizer::{generate_final_builder, FinalizeAction};
use builder_pattern_fsm::generator::{generate_builder, BuilderState, Cache, Target};
use builder_pattern_fsm::identity::{is_colon_free, is_well_named};
use builder_pattern_fsm::storage::{
    generate_container, generate_container_fields, generate_maybe_wrapped_with_option, SlotShape,
};
use builder_pattern_fsm::type_expr::{GenericArgument, PathArguments, PathSegment, TypeExpr};

fn named(ident: &str) -> TypeExpr {
    TypeExpr::Path {
        source: ident.to_string(),
        segments: vec![PathSegment { ident: ident.to_string(), arguments: PathArguments::Absent }],
    }
}

fn option_of(inner: TypeExpr, source: &str) -> TypeExpr {
    TypeExpr::Path {
        source: source.to_string(),
        segments: vec![PathSegment {
            ident: "Option".to_string(),
            arguments: PathArguments::AngleBracketed { args: vec![GenericArgument::Type(inner)] },
        }],
    }
}

fn raw(fields: &[(&str, bool)]) -> Vec<RawField> {
    fields
        .iter()
        .map(|(name, required)| RawField {
            name: Some(name.to_string()),
            declared: if *required {
                named("u32")
            } else {
                option_of(named("u32"), "Option < u32 >")
            },
        })
        .collect()
}

fn specs(fields: &[(&str, bool)]) -> Vec<FieldSpec> {
    classify(raw(fields)).unwrap()
}

fn plan(fields: &[(&str, bool)]) -> Plan {
    nicer_builder("Sample", raw(fields)).unwrap()
}

fn state_at(states: &[BuilderState], target: Target) -> &BuilderState {
    match target {
        Target::State(i) => &states[i],
        Target::FinalBuilder => panic!("the final builder is no cached state"),
    }
}

fn follow(plan: &Plan, from: Target, field: &str) -> Target {
    let state = state_at(&plan.states, from);
    let method = format!("with_{}", field);
    state.transitions.iter().find(|t| t.method == method).unwrap().target
}

#[test]
fn classification_keeps_order_and_marks_optional_fields() {
    let fields = vec![
        RawField { name: Some("name".to_string()), declared: named("String") },
        RawField {
            name: Some("age".to_string()),
            declared: option_of(named("u32"), "Option < u32 >"),
        },
        RawField {
            name: Some("nested".to_string()),
            declared: option_of(
                option_of(named("u8"), "Option < u8 >"),
                "Option < Option < u8 > >",
            ),
        },
        RawField {
            name: Some("reference".to_string()),
            declared: TypeExpr::Other { source: "& str".to_string() },
        },
    ];
    let specs = classify(fields).unwrap();
    let names: Vec<&str> = specs.iter().map(|s| s.name.as_str()).collect();
    assert_eq!(names, vec!["name", "age", "nested", "reference"]);
    let optional: Vec<bool> = specs.iter().map(|s| s.optional).collect();
    assert_eq!(optional, vec![false, true, true, false]);
    let positions: Vec<usize> = specs.iter().map(|s| s.position).collect();
    assert_eq!(positions, vec![0, 1, 2, 3]);
    assert_eq!(specs[0].effective_type(), &named("String"));
    assert_eq!(specs[1].effective_type(), &named("u32"));
    assert_eq!(specs[2].effective_type(), &option_of(named("u8"), "Option < u8 >"));
    assert_eq!(specs[3].effective_type(), &TypeExpr::Other { source: "& str".to_string() });
}

#[test]
fn a_field_without_a_name_rejects_the_record() {
    let fields = vec![
        RawField { name: Some("a".to_string()), declared: named("u8") },
        RawField { name: None, declared: named("u8") },
        RawField { name: None, declared: named("u16") },
    ];
    assert_eq!(classify(fields), Err(InvalidShapeError { position: 1 }));
    let fields = vec![RawField { name: None, declared: named("u8") }];
    assert_eq!(nicer_builder("Tuple", fields).err(), Some(InvalidShapeError { position: 0 }));
}

#[test]
fn the_cache_key_joins_the_names() {
    let specs = specs(&[("name", true), ("age", false), ("address", false)]);
    assert_eq!(forge_cache_key(&specs, &vec![0, 1, 2]), "name::age::address");
    assert_eq!(forge_cache_key(&specs, &vec![0, 2]), "name::address");
    assert_eq!(forge_cache_key(&specs, &vec![1]), "age");
    assert_eq!(forge_cache_key(&specs, &vec![]), "");
}

#[test]
fn field_sets_shrink_in_order() {
    assert_eq!(all_fields(4), vec![0, 1, 2, 3]);
    assert_eq!(all_fields(0), Vec::<usize>::new());
    assert_eq!(without(&vec![0, 2, 5], 0), vec![2, 5]);
    assert_eq!(without(&vec![0, 2, 5], 1), vec![0, 5]);
    assert_eq!(without(&vec![0, 2, 5], 2), vec![0, 2]);
    let specs = specs(&[("a", true), ("b", false), ("c", false)]);
    assert!(!all_fields_optional(&specs, &vec![0, 1, 2]));
    assert!(all_fields_optional(&specs, &vec![1, 2]));
    assert!(all_fields_optional(&specs, &vec![]));
}

#[test]
fn the_storage_has_one_optional_slot_for_each_field() {
    assert_eq!(generate_maybe_wrapped_with_option(&named("u32")), SlotShape::Wrapped);
    assert_eq!(
        generate_maybe_wrapped_with_option(&option_of(named("u32"), "Option < u32 >")),
        SlotShape::Declared
    );
    let specs = specs(&[("a", true), ("b", false)]);
    let slots = generate_container_fields(&specs);
    assert_eq!(slots.len(), 2);
    let shapes: Vec<(&str, usize, SlotShape)> =
        slots.iter().map(|s| (s.name.as_str(), s.position, s.shape)).collect();
    assert_eq!(shapes, vec![("a", 0, SlotShape::Wrapped), ("b", 1, SlotShape::Declared)]);
    let container = generate_container("Sample", &specs);
    assert_eq!(container.name, "__SampleFieldsContainer");
    assert_eq!(container.slots, slots);
}

#[test]
fn the_final_builder_unwraps_required_fields_only() {
    let specs = specs(&[("a", true), ("b", false), ("c", true)]);
    let builder =
        generate_final_builder("Sample", "__SampleFinalBuilder", "__SampleFieldsContainer", &specs);
    assert_eq!(builder.name, "__SampleFinalBuilder");
    assert_eq!(builder.record, "Sample");
    assert_eq!(builder.storage, "__SampleFieldsContainer");
    let actions: Vec<(&str, usize, FinalizeAction)> =
        builder.steps.iter().map(|s| (s.name.as_str(), s.position, s.action)).collect();
    assert_eq!(
        actions,
        vec![
            ("a", 0, FinalizeAction::Unwrap),
            ("b", 1, FinalizeAction::Copy),
            ("c", 2, FinalizeAction::Unwrap)
        ]
    );
}

#[test]
fn eliminating_in_either_order_reaches_the_identical_state() {
    let plan = plan(&[("A", true), ("B", true), ("C", true)]);
    let a_then_b = follow(&plan, follow(&plan, plan.entry, "A"), "B");
    let b_then_a = follow(&plan, follow(&plan, plan.entry, "B"), "A");
    assert_eq!(a_then_b, b_then_a);
    let state = state_at(&plan.states, a_then_b);
    assert_eq!(state, state_at(&plan.states, b_then_a));
    assert_eq!(state.fields, vec![2]);
    assert_eq!(state.key, "C");
    assert_eq!(state.transitions.len(), 1);
    assert_eq!(state.transitions[0].method, "with_C");
    assert_eq!(state.transitions[0].target, Target::FinalBuilder);
}

#[test]
fn the_number_of_states_stays_within_two_to_the_n() {
    let names = ["a", "b", "c", "d", "e", "f"];
    for n in 0..=6usize {
        for mix in 0..(1u32 << n) {
            let fields: Vec<(&str, bool)> =
                (0..n).map(|i| (names[i], mix & (1 << i) != 0)).collect();
            let plan = plan(&fields);
            assert!(plan.states.len() + 1 <= 1 << n);
            assert_eq!(plan.states.len() + 1, 1 << n);
            let mut keys: Vec<&str> = plan.states.iter().map(|s| s.key.as_str()).collect();
            keys.sort();
            keys.dedup();
            assert_eq!(keys.len(), plan.states.len());
        }
    }
}

#[test]
fn a_state_builds_exactly_when_no_required_field_is_missing() {
    let fields = [("a", true), ("b", false), ("c", false), ("d", true)];
    let plan = plan(&fields);
    for state in &plan.states {
        let all_optional = state.fields.iter().all(|p| !fields[*p].1);
        assert_eq!(state.can_build, all_optional);
    }
    assert!(!state_at(&plan.states, plan.entry).can_build);
}

#[test]
fn every_state_has_one_setter_for_each_missing_field() {
    let fields = [("a", true), ("b", false), ("c", true)];
    let plan = plan(&fields);
    assert_eq!(state_at(&plan.states, plan.entry).fields, vec![0, 1, 2]);
    for (index, state) in plan.states.iter().enumerate() {
        assert!(!state.fields.is_empty());
        assert_eq!(state.transitions.len(), state.fields.len());
        for (j, setter) in state.transitions.iter().enumerate() {
            assert_eq!(setter.field, state.fields[j]);
            assert_eq!(setter.method, format!("with_{}", fields[setter.field].0));
            let mut rest = state.fields.clone();
            rest.remove(j);
            match setter.target {
                Target::FinalBuilder => assert!(rest.is_empty()),
                Target::State(k) => {
                    assert!(k < index);
                    assert_eq!(plan.states[k].fields, rest);
                }
            }
        }
    }
}

#[test]
fn two_passes_generate_the_same_graph() {
    let fields = [("a", true), ("b", false), ("c", true), ("d", false)];
    let first = plan(&fields);
    let second = plan(&fields);
    assert_eq!(first.entry, second.entry);
    assert_eq!(first.states.len(), second.states.len());
    for (x, y) in first.states.iter().zip(second.states.iter()) {
        assert_eq!(x.key, y.key);
        assert_eq!(x.fields, y.fields);
        assert_eq!(x.transitions, y.transitions);
        assert_eq!(x.can_build, y.can_build);
        assert_ne!(x.name, y.name);
    }
}

#[test]
fn state_names_are_fresh() {
    let plan = plan(&[("a", true), ("b", true), ("c", true)]);
    let mut names: Vec<&str> = plan.states.iter().map(|s| s.name.as_str()).collect();
    assert!(names.iter().all(|name| name.starts_with("__Sample_") && name.len() == 9 + 32));
    names.sort();
    names.dedup();
    assert_eq!(names.len(), plan.states.len());
    assert_eq!(plan.container.name, "__SampleFieldsContainer");
    assert_eq!(plan.final_builder.name, "__SampleFinalBuilder");
    assert_eq!(plan.final_builder.storage, "__SampleFieldsContainer");
    assert_eq!(plan.final_builder.record, "Sample");
    assert_eq!(plan.record, "Sample");
}

#[test]
fn a_cached_set_is_resolved_without_generating() {
    let specs = specs(&[("a", true), ("b", false)]);
    let mut cache = Cache::new();
    let first = generate_builder("Sample", &specs, vec![0, 1], false, &mut cache);
    assert_eq!(cache.len(), 3);
    assert_eq!(first, Target::State(2));
    let again = generate_builder("Sample", &specs, vec![0, 1], true, &mut cache);
    assert_eq!(again, first);
    assert_eq!(cache.len(), 3);
    let below = generate_builder("Sample", &specs, vec![1], false, &mut cache);
    assert_eq!(cache.len(), 3);
    assert_eq!(state_at(&cache.states, below).key, "b");
    assert_eq!(cache.lookup(&"b".to_string()), Some(0));
    assert_eq!(cache.lookup(&"a".to_string()), Some(1));
    assert_eq!(cache.lookup(&"a::b".to_string()), Some(2));
    assert_eq!(cache.lookup(&"b::a".to_string()), None);
}

#[test]
fn the_empty_set_resolves_to_the_final_builder() {
    let specs = specs(&[("a", true)]);
    let mut cache = Cache::new();
    assert_eq!(generate_builder("Sample", &specs, vec![], false, &mut cache), Target::FinalBuilder);
    assert_eq!(cache.len(), 0);
}

#[test]
fn asking_for_build_reaches_every_new_state() {
    let specs = specs(&[("a", true), ("b", true)]);
    let mut cache = Cache::new();
    generate_builder("Sample", &specs, vec![1], false, &mut cache);
    generate_builder("Sample", &specs, vec![0, 1], true, &mut cache);
    let flags: Vec<(&str, bool)> =
        cache.states.iter().map(|s| (s.key.as_str(), s.can_build)).collect();
    assert_eq!(flags, vec![("b", false), ("a", true), ("a::b", true)]);
}

#[test]
fn record_names_are_distinct_and_without_colons() {
    assert!(is_colon_free("address"));
    assert!(is_colon_free(""));
    assert!(!is_colon_free("a::b"));
    assert!(!is_colon_free(":"));
    assert!(is_well_named(&specs(&[("a", true), ("b", false), ("ab", true)])));
    assert!(is_well_named(&specs(&[])));
    assert!(!is_well_named(&specs(&[("a", true), ("b", false), ("a", true)])));
    assert!(!is_well_named(&specs(&[("a", true), ("b:c", false)])));
}

#[test]
fn fields_that_share_a_name_share_a_cache_key() {
    let plan = plan(&[("a", true), ("a", true)]);
    let keys: Vec<&str> = plan.states.iter().map(|s| s.key.as_str()).collect();
    assert_eq!(keys, vec!["a", "a::a"]);
    let entry = state_at(&plan.states, plan.entry);
    assert_eq!(entry.transitions[0].target, Target::State(0));
    assert_eq!(entry.transitions[1].target, Target::State(0));
    assert_eq!(plan.states[0].fields, vec![1]);
}
