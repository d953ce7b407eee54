use spectra::ai::{extracted_values, embedding_text, extracted_observation, listed_entities, parse_kind, pivot_descriptions, summarize_prompt};
use spectra::entity::{Entity, EntityKind, Provenance};

#[test]
fn kinds_named_by_the_model() {
    assert_eq!(parse_kind("Person"), EntityKind::Person);
    assert_eq!(parse_kind("EMAIL"), EntityKind::EmailAddress);
    assert_eq!(parse_kind("domain"), EntityKind::Domain);
    assert_eq!(parse_kind("spaceship"), EntityKind::Alias);
}

#[test]
fn pivots_first_three_non_blank_lines_cleaned() {
    let raw = "1. Chercher le pseudo\n\n2) Vérifier le domaine \r\n- Regarder les archives\n4. Trop\n";
    assert_eq!(
        pivot_descriptions(raw),
        vec!["Chercher le pseudo".to_string(), "Vérifier le domaine".to_string(), "Regarder les archives".to_string()]
    );
    assert!(pivot_descriptions("").is_empty());
}

#[test]
fn listed_entities_from_json_or_embedded_block() {
    let items = listed_entities(r#"[{"type":"person","value":"Alice"},{"value":"x"}]"#);
    assert_eq!(items, vec![("person".to_string(), "Alice".to_string()), ("unknown".to_string(), "x".to_string())]);
    let items = listed_entities("Voici : [{\"type\":\"domain\",\"value\":\"a.fr\"}] fin");
    assert_eq!(items, vec![("domain".to_string(), "a.fr".to_string())]);
    assert!(listed_entities("rien").is_empty());
}

#[test]
fn extracted_observations_are_inferred() {
    let o = extracted_observation(&"Alice".to_string(), "C1", "ai-ner-1".to_string(), "T0".to_string());
    assert_eq!(o.subject, "ai-extracted-C1");
    assert_eq!(o.provenance, Provenance::Inferred);
    assert_eq!(o.source, "ai:ner");
}

#[test]
fn prompts_and_texts() {
    assert!(summarize_prompt("abc").ends_with(":\n\nabc"));
    let e = Entity {
        id: "e".to_string(),
        kind: EntityKind::Username,
        canonical_value: "alice".to_string(),
        display_label: "Alice".to_string(),
        properties: vec![],
        created_at: String::new(),
        merged_from: vec![],
    };
    assert_eq!(embedding_text(&e), "Alice alice Username");
}

#[test]
fn extracted_values_keep_non_empty_ones_in_order() {
    let items = vec![
        ("person".to_string(), "Alice".to_string()),
        ("email".to_string(), "".to_string()),
        ("unknown".to_string(), "alice@test.com".to_string()),
    ];
    assert_eq!(extracted_values(&items), vec!["Alice".to_string(), "alice@test.com".to_string()]);
    assert!(extracted_values(&vec![]).is_empty());
}

#[test]
fn listed_entities_of_a_backwards_answer_are_none() {
    assert!(listed_entities("] puis [").is_empty());
    let items = listed_entities(r#"[{"type":3,"value":null}]"#);
    assert_eq!(items, vec![("unknown".to_string(), "".to_string())]);
}
