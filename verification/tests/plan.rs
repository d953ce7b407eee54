use spectra::entity::{Entity, EntityKind};
use spectra::json::JsonValue;
use spectra::plan::{hash_params, node_cache_key, ExecutionPlan};
use spectra::transform::{TransformError, TransformInput};

fn input() -> TransformInput {
    TransformInput {
        entity: Entity {
            id: "e1".to_string(),
            kind: EntityKind::Domain,
            canonical_value: "example.com".to_string(),
            display_label: "example.com".to_string(),
            properties: vec![],
            created_at: "2026-01-01T00:00:00Z".to_string(),
            merged_from: vec![],
        },
        params: vec![],
    }
}

#[test]
fn cycle_detection() {
    let mut plan = ExecutionPlan::new();
    let a = plan.add_node("a".to_string(), input());
    let b = plan.add_node("b".to_string(), input());
    plan.add_dependency(a, b);
    plan.add_dependency(b, a);
    assert!(plan.validate().is_err());
}

#[test]
fn cycle_error_message() {
    let mut plan = ExecutionPlan::new();
    let a = plan.add_node("a".to_string(), input());
    plan.add_dependency(a, a);
    match plan.topological_order() {
        Err(TransformError::Internal(m)) => assert_eq!(m, "cycle détecté dans le plan d'exécution"),
        _ => panic!("cycle expected"),
    }
}

#[test]
fn dependencies_run_first() {
    let mut plan = ExecutionPlan::new();
    let a = plan.add_node("a".to_string(), input());
    let b = plan.add_node("b".to_string(), input());
    let c = plan.add_node("c".to_string(), input());
    plan.add_dependency(a, b);
    plan.add_dependency(b, c);
    assert!(plan.validate().is_ok());
    let order = plan.topological_order().unwrap();
    assert_eq!(order.len(), 3);
    let pos = |x: usize| order.iter().position(|&y| y == x).unwrap();
    assert!(pos(c) < pos(b));
    assert!(pos(b) < pos(a));
}

#[test]
fn single_node_plan_runs() {
    let mut plan = ExecutionPlan::new();
    let a = plan.add_node("dummy".to_string(), input());
    assert_eq!(plan.topological_order().unwrap(), vec![a]);
    assert_eq!(plan.node(0).unwrap().transform_id, "dummy");
    assert!(plan.node(1).is_none());
}

#[test]
fn cycle_through_unknown_nodes_is_detected() {
    let mut plan = ExecutionPlan::new();
    let a = plan.add_node("a".to_string(), input());
    plan.add_dependency(a, 5);
    plan.add_dependency(5, 6);
    plan.add_dependency(6, 5);
    assert!(plan.validate().is_err());
    let mut ok = ExecutionPlan::new();
    let a = ok.add_node("a".to_string(), input());
    ok.add_dependency(a, 9);
    assert_eq!(ok.topological_order().unwrap(), vec![a]);
}

#[test]
fn adding_a_node_drops_earlier_dependencies_of_its_index() {
    let mut plan = ExecutionPlan::new();
    let a = plan.add_node("a".to_string(), input());
    plan.add_dependency(1, 1);
    assert!(plan.validate().is_ok());
    let b = plan.add_node("b".to_string(), input());
    assert_eq!(b, 1);
    assert!(plan.validate().is_ok());
    assert_eq!(plan.topological_order().unwrap().len(), 2);
    let _ = a;
}

#[test]
fn params_hash_is_sorted_and_canonical() {
    let params = vec![
        ("b".to_string(), JsonValue::Number("2".to_string())),
        ("a".to_string(), JsonValue::String("x".to_string())),
    ];
    assert_eq!(hash_params(&params), "a=\"x\";b=2;");
    assert_eq!(hash_params(&vec![]), "");
    let mut inp = input();
    inp.params = params;
    let key = node_cache_key(&"dns:a".to_string(), &inp);
    assert_eq!(key.transform_id, "dns:a");
    assert_eq!(key.entity_kind, "Domain");
    assert_eq!(key.canonical_value, "example.com");
    assert_eq!(key.params_hash, "a=\"x\";b=2;");
}

#[test]
fn nodes_keep_their_input() {
    let mut plan = ExecutionPlan::new();
    let mut other = input();
    other.entity.canonical_value = "example.org".to_string();
    let a = plan.add_node("dns:resolve".to_string(), input());
    let b = plan.add_node("whois:lookup".to_string(), other);
    plan.add_dependency(b, a);
    assert_eq!(plan.node(a).unwrap().input.entity.canonical_value, "example.com");
    assert_eq!(plan.node(b).unwrap().transform_id, "whois:lookup");
    assert_eq!(plan.node(b).unwrap().input.entity.canonical_value, "example.org");
    assert!(plan.node(2).is_none());
}

#[test]
fn cached_answers_live_until_their_lifetime() {
    assert!(spectra::plan::cache_entry_live(10, 60));
    assert!(!spectra::plan::cache_entry_live(60, 60));
    assert!(!spectra::plan::cache_entry_live(10_000_000, 1));
}
