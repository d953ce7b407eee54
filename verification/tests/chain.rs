use sha2::{Digest, Sha256};
use spectra::audit::{compute_link, verify_chain, verify_link, AuditEvent, ChainLink};
use spectra::json::{canonical_json, JsonValue};

fn obj(entries: Vec<(&str, &str)>) -> JsonValue {
    JsonValue::Object(
        entries
            .into_iter()
            .map(|(k, v)| (k.to_string(), JsonValue::String(v.to_string())))
            .collect(),
    )
}

fn event(id: &str, kind: &str, entity_id: Option<&str>, actor: &str, sequence: u64, payload: JsonValue) -> AuditEvent {
    AuditEvent {
        id: id.to_string(),
        case_id: "CASE-001".to_string(),
        action: "create".to_string(),
        entity_kind: kind.to_string(),
        entity_id: entity_id.map(|s| s.to_string()),
        actor: actor.to_string(),
        sequence,
        payload,
    }
}

fn two_events() -> Vec<AuditEvent> {
    vec![
        event("AE-001", "case", None, "system", 1, obj(vec![])),
        event("AE-002", "evidence", Some("EVD-001"), "analyst@example.com", 2, obj(vec![("source", "manual")])),
    ]
}

fn chain_of(events: &[AuditEvent]) -> Vec<ChainLink> {
    let mut previous_hash = String::new();
    let mut links = Vec::new();
    for event in events {
        let link = compute_link(event, &previous_hash);
        previous_hash = link.hash.clone();
        links.push(link);
    }
    links
}

#[test]
fn test_first_link_empty_previous() {
    let event = event("AE-001", "case", None, "system", 1, obj(vec![]));
    let link = compute_link(&event, "");
    assert!(!link.hash.is_empty());
    assert_eq!(link.previous_hash, "");
}

#[test]
fn test_chain_two_events() {
    let events = two_events();
    let links = chain_of(&events);
    assert_eq!(verify_chain(&events, &links).unwrap(), 2);
}

#[test]
fn test_tampered_action_detected() {
    let event = event("AE-001", "case", None, "system", 1, obj(vec![]));
    let link = compute_link(&event, "");
    let mut tampered = event.clone();
    tampered.action = "delete".to_string();
    assert!(verify_link(&tampered, &link.hash, "").is_err());
}

#[test]
fn test_tampered_metadata_detected() {
    let event = event(
        "AE-001",
        "evidence",
        Some("EVD-001"),
        "analyst@example.com",
        1,
        obj(vec![("source", "manual"), ("confidence", "high")]),
    );
    let link = compute_link(&event, "");
    let mut tampered = event.clone();
    tampered.payload = obj(vec![("source", "manual"), ("confidence", "low")]);
    assert!(verify_link(&tampered, &link.hash, "").is_err());
}

#[test]
fn test_broken_chain_detected() {
    let events = two_events();
    let mut links = chain_of(&events);
    links[1].previous_hash = "INVALID".to_string();
    let err = verify_chain(&events, &links).unwrap_err();
    assert_eq!(err.0, 1);
    assert!(err.1.contains("rupture de chaînage"));
}

#[test]
fn test_canonical_json_deterministic() {
    let obj1 = JsonValue::Object(vec![
        ("b".to_string(), JsonValue::Number("2".to_string())),
        ("a".to_string(), JsonValue::Number("1".to_string())),
    ]);
    let obj2 = JsonValue::Object(vec![
        ("a".to_string(), JsonValue::Number("1".to_string())),
        ("b".to_string(), JsonValue::Number("2".to_string())),
    ]);
    assert_eq!(canonical_json(&obj1), canonical_json(&obj2));
}

#[test]
fn link_hash_is_sha256_of_canonical_text() {
    let e = event("AE-001", "case", None, "system", 1, obj(vec![]));
    let link = compute_link(&e, "");
    let text = r#"{"action":"create","actor":"system","case_id":"CASE-001","entity_id":null,"entity_kind":"case","id":"AE-001","payload":{},"previous_hash":"","sequence":1}"#;
    let expected = hex::encode(Sha256::digest(text.as_bytes()));
    assert_eq!(link.hash, expected);
    assert_eq!(link.hash.len(), 64);
}

#[test]
fn second_link_chains_on_first() {
    let events = two_events();
    let links = chain_of(&events);
    assert_eq!(links[1].previous_hash, links[0].hash);
    assert!(verify_link(&events[1], &links[1].hash, &links[0].hash).is_ok());
}

#[test]
fn verify_link_reports_both_hashes() {
    let e = event("AE-001", "case", None, "system", 1, obj(vec![]));
    let link = compute_link(&e, "");
    let err = verify_link(&e, "deadbeef", "").unwrap_err();
    assert_eq!(
        err,
        format!("hachage invalide pour l'événement AE-001 : attendu deadbeef, obtenu {}", link.hash)
    );
}

#[test]
fn chain_with_missing_link_is_refused() {
    let events = two_events();
    let mut links = chain_of(&events);
    links.pop();
    let err = verify_chain(&events, &links).unwrap_err();
    assert_eq!(err.0, 0);
    assert_eq!(err.1, "nombre d'événements (2) != nombre de maillons (1)");
}

#[test]
fn broken_chain_message_is_exact() {
    let events = two_events();
    let mut links = chain_of(&events);
    let first = links[0].hash.clone();
    links[1].previous_hash = "INVALID".to_string();
    let err = verify_chain(&events, &links).unwrap_err();
    assert_eq!(
        err.1,
        format!("rupture de chaînage à l'index 1 : previous_hash attendu {}, obtenu INVALID", first)
    );
}

#[test]
fn empty_chain_is_valid() {
    assert_eq!(verify_chain(&[], &[]).unwrap(), 0);
}
