use spectra::collect::email::{dmarc_name, email_output, records_containing, EmailTransform};
use spectra::entity::{Entity, EntityKind, PropertyValue};
use spectra::json::JsonValue;
use spectra::transform::{TransformError, TransformInput};

#[test]
fn parse_valid_email() {
    assert_eq!(
        EmailTransform::parse_email("alice@example.com"),
        Some(("alice".to_string(), "example.com".to_string()))
    );
}

#[test]
fn parse_email_with_plus() {
    assert_eq!(
        EmailTransform::parse_email("alice+bob@example.com"),
        Some(("alice+bob".to_string(), "example.com".to_string()))
    );
}

#[test]
fn parse_invalid_email_no_at() {
    assert_eq!(EmailTransform::parse_email("aliceexample.com"), None);
}

#[test]
fn generate_permutations_basic() {
    let perms = EmailTransform::generate_permutations("Jean", "Dupont", "@example.com");
    assert!(perms.contains(&"jean.dupont@example.com".to_string()));
    assert!(perms.contains(&"jeandupont@example.com".to_string()));
    assert!(perms.contains(&"jean_dupont@example.com".to_string()));
    assert!(perms.contains(&"jean-dupont@example.com".to_string()));
}

#[test]
fn parse_email_splits_at_last_at() {
    assert_eq!(
        EmailTransform::parse_email("a@b@example.com"),
        Some(("a@b".to_string(), "example.com".to_string()))
    );
    assert_eq!(EmailTransform::parse_email("@example.com"), None);
    assert_eq!(EmailTransform::parse_email("alice@"), None);
}

#[test]
fn generate_permutations_exact_list() {
    let perms = EmailTransform::generate_permutations("Jean", "Dupont", "@example.com");
    assert_eq!(
        perms,
        vec![
            "jean.dupont@example.com",
            "jean.d@example.com",
            "jeandupont@example.com",
            "jeand@example.com",
            "jean_dupont@example.com",
            "jean-dupont@example.com",
        ]
    );
    let perms = EmailTransform::generate_permutations("Ann", "", "@x.org");
    assert_eq!(perms[1], "ann.x@x.org");
}

#[test]
fn records_containing_filters_in_order() {
    let txt = vec!["v=spf1 -all".to_string(), "google-site".to_string(), "x v=spf1 y".to_string()];
    assert_eq!(records_containing(&txt, "v=spf1"), vec!["v=spf1 -all".to_string(), "x v=spf1 y".to_string()]);
}

fn input(value: &str) -> TransformInput {
    TransformInput {
        entity: Entity {
            id: "m1".to_string(),
            kind: EntityKind::EmailAddress,
            canonical_value: value.to_string(),
            display_label: value.to_string(),
            properties: vec![],
            created_at: "2026-01-01T00:00:00Z".to_string(),
            merged_from: vec![],
        },
        params: vec![],
    }
}

#[test]
fn email_output_records_and_domain() {
    let mx = vec!["mx1.example.com.".to_string()];
    let txt = vec!["v=spf1 include:x -all".to_string(), "other".to_string()];
    let out = email_output(&input("alice@example.com"), mx, txt, vec![], "T0".to_string()).unwrap();
    assert_eq!(out.observations.len(), 2);
    assert_eq!(out.observations[0].id, "obs-email-mx-alice@example.com");
    assert_eq!(out.observations[0].predicate, "mx_records");
    match &out.observations[0].value {
        PropertyValue::Json(JsonValue::Array(items)) => {
            assert_eq!(items.len(), 1);
            assert!(matches!(&items[0], JsonValue::String(s) if s == "mx1.example.com."));
        }
        _ => panic!("JSON array expected"),
    }
    assert_eq!(out.observations[1].predicate, "spf_record");
    assert_eq!(out.entities.len(), 1);
    assert_eq!(out.entities[0].id, "domain-example.com");
    assert_eq!(out.entities[0].kind, EntityKind::Domain);
    assert_eq!(out.relations[0].kind, "hosted_on");
    assert_eq!(out.relations[0].target, "domain-example.com");
}

#[test]
fn email_output_refuses_malformed_address() {
    let err = email_output(&input("no-at-sign"), vec![], vec![], vec![], "T0".to_string()).unwrap_err();
    assert!(matches!(err, TransformError::UnsupportedEntityType(m) if m == "email malformé"));
}

#[test]
fn parsed_email_rebuilds_the_address() {
    for s in ["alice@example.com", "a@b@c.org", "x+tag@sub.example.fr"] {
        let (local, domain) = EmailTransform::parse_email(s).expect("valide");
        assert_eq!(format!("{local}@{domain}"), s);
        assert!(!local.is_empty() && !domain.is_empty() && !domain.contains('@'));
    }
}

#[test]
fn email_output_reads_dmarc_from_its_own_name() {
    assert_eq!(dmarc_name("example.com"), "_dmarc.example.com");
    let own = vec!["v=DMARC1; p=none".to_string()];
    let out = email_output(&input("alice@example.com"), vec![], own, vec![], "T0".to_string()).unwrap();
    assert_eq!(out.observations.len(), 1);
    let dmarc = vec!["v=DMARC1; p=reject".to_string(), "other".to_string()];
    let out = email_output(&input("alice@example.com"), vec![], vec![], dmarc, "T0".to_string()).unwrap();
    assert_eq!(out.observations.len(), 2);
    assert_eq!(out.observations[1].predicate, "dmarc_record");
    assert_eq!(out.observations[1].id, "obs-email-dmarc-alice@example.com");
}
