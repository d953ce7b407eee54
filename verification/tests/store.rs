use spectra::entity::{Entity, EntityKind};
use spectra::store::{
    decide_entity_import, decide_observation_import, relation_known, EntityImport, ImportSummary, RecordImport,
    StoredRelation,
};

fn dummy_entity(id: &str) -> Entity {
    Entity {
        id: id.to_string(),
        kind: EntityKind::Username,
        canonical_value: id.to_string(),
        display_label: id.to_string(),
        properties: vec![],
        created_at: "2026-01-01T00:00:00Z".to_string(),
        merged_from: vec![],
    }
}

#[test]
fn export_import_fragment_roundtrip() {
    // First import into an empty case: everything is inserted.
    let e = dummy_entity("e1");
    let mut summary = ImportSummary::new();
    let d = decide_entity_import(None, e.clone());
    assert!(matches!(d, EntityImport::Insert(_)));
    summary.count_entity(&d);
    let o = decide_observation_import(None, "2026-01-01T00:00:00Z");
    assert_eq!(o, RecordImport::Insert);
    summary.count_observation(o);
    assert_eq!(summary.entities_inserted, 1);
    assert_eq!(summary.observations_inserted, 1);

    // Identical re-import: skipped.
    let mut summary2 = ImportSummary::new();
    let d = decide_entity_import(Some(e.clone()), e.clone());
    summary2.count_entity(&d);
    let o = decide_observation_import(Some("2026-01-01T00:00:00Z"), "2026-01-01T00:00:00Z");
    summary2.count_observation(o);
    assert_eq!(summary2.entities_skipped, 1);
    assert_eq!(summary2.observations_skipped, 1);
}

#[test]
fn merge_unions_absorbed_and_keeps_newer_properties() {
    let mut existing = dummy_entity("e1");
    existing.merged_from = vec!["x".to_string(), "b".to_string()];
    existing.properties = vec![("bio".to_string(), spectra::entity::PropertyValue::Boolean(true))];
    let mut incoming = dummy_entity("e1");
    incoming.merged_from = vec!["a".to_string(), "x".to_string()];
    match decide_entity_import(Some(existing.clone()), incoming.clone()) {
        EntityImport::Merge(m) => {
            assert_eq!(m.merged_from, vec!["a".to_string(), "b".to_string(), "x".to_string()]);
            // not newer: the case's properties stay
            assert_eq!(m.properties.len(), 1);
            assert_eq!(m.created_at, incoming.created_at);
        }
        _ => panic!("merge expected"),
    }
    let mut newer = incoming.clone();
    newer.created_at = "2027-01-01T00:00:00Z".to_string();
    match decide_entity_import(Some(existing), newer) {
        EntityImport::Merge(m) => assert!(m.properties.is_empty()),
        _ => panic!("merge expected"),
    }
}

#[test]
fn merge_is_idempotent() {
    let mut existing = dummy_entity("e1");
    existing.merged_from = vec!["b".to_string()];
    let mut incoming = dummy_entity("e1");
    incoming.merged_from = vec!["a".to_string()];
    let merged = match decide_entity_import(Some(existing), incoming.clone()) {
        EntityImport::Merge(m) => m,
        _ => panic!("merge expected"),
    };
    assert!(matches!(decide_entity_import(Some(merged), incoming), EntityImport::Skip));
}

#[test]
fn observations_last_writer_wins() {
    assert_eq!(decide_observation_import(Some("2026-01-01"), "2026-02-01"), RecordImport::Update);
    assert_eq!(decide_observation_import(Some("2026-02-01"), "2026-01-01"), RecordImport::Skip);
}

fn rel(target: &str, kind: &str) -> StoredRelation {
    StoredRelation { id: None, source: "a".to_string(), target: target.to_string(), kind: kind.to_string(), properties: vec![] }
}

#[test]
fn known_relations_are_skipped() {
    let from_a = vec![rel("b", "owns")];
    assert!(relation_known(&from_a, &rel("b", "owns")));
    assert!(!relation_known(&from_a, &rel("b", "mentions")));
    assert!(!relation_known(&from_a, &rel("c", "owns")));
    let mut s = ImportSummary::new();
    s.count_relation(true);
    s.count_relation(false);
    assert_eq!(s.relations_skipped, 1);
    assert_eq!(s.relations_inserted, 1);
}
