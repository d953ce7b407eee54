use spectra::collect::phone::{phone_output, PhoneTransform};
use spectra::entity::{Entity, EntityKind, PropertyValue};
use spectra::transform::{TransformError, TransformInput};

#[test]
fn normalize_french_mobile() {
    assert_eq!(PhoneTransform::normalize_e164("06 12 34 56 78"), Some("+33612345678".to_string()));
}

#[test]
fn normalize_french_mobile_with_plus33() {
    assert_eq!(PhoneTransform::normalize_e164("+33 6 12 34 56 78"), Some("+33612345678".to_string()));
}

#[test]
fn normalize_us_number() {
    assert_eq!(PhoneTransform::normalize_e164("1 555 123 4567"), Some("+15551234567".to_string()));
}

#[test]
fn normalize_too_short() {
    assert_eq!(PhoneTransform::normalize_e164("12345"), None);
}

#[test]
fn infer_operator_mobile() {
    assert_eq!(PhoneTransform::infer_operator("+33612345678"), "Mobile");
    assert_eq!(PhoneTransform::infer_operator("+33712345678"), "Mobile");
}

#[test]
fn infer_operator_fixe() {
    assert_eq!(PhoneTransform::infer_operator("+33123456789"), "Fixe");
    assert_eq!(PhoneTransform::infer_operator("+33923456789"), "Fixe");
}

#[test]
fn infer_operator_unknown() {
    assert_eq!(PhoneTransform::infer_operator("+442071234567"), "Inconnu");
}

#[test]
fn normalize_other_international_with_plus() {
    assert_eq!(PhoneTransform::normalize_e164("+44 20 7123 4567"), Some("+442071234567".to_string()));
    assert_eq!(PhoneTransform::normalize_e164("44 20 7123 4567"), None);
    assert_eq!(PhoneTransform::normalize_e164("33 6 12 34 56 78"), Some("+33612345678".to_string()));
}

fn input(value: &str) -> TransformInput {
    TransformInput {
        entity: Entity {
            id: "p1".to_string(),
            kind: EntityKind::PhoneNumber,
            canonical_value: value.to_string(),
            display_label: value.to_string(),
            properties: vec![],
            created_at: "2026-01-01T00:00:00Z".to_string(),
            merged_from: vec![],
        },
        params: vec![],
    }
}

#[test]
fn phone_output_observes_e164_and_operator() {
    let out = phone_output(&input("06 12 34 56 78"), "T0".to_string()).unwrap();
    assert_eq!(out.observations.len(), 2);
    assert_eq!(out.observations[0].id, "obs-phone-e164-+33612345678");
    assert!(matches!(&out.observations[0].value, PropertyValue::String(s) if s == "+33612345678"));
    assert_eq!(out.observations[1].id, "obs-phone-op-+33612345678");
    assert!(matches!(&out.observations[1].value, PropertyValue::String(s) if s == "Mobile"));
    assert_eq!(out.observations[0].observed_at, "T0");
}

#[test]
fn phone_output_refuses_malformed_number() {
    let err = phone_output(&input("12345"), "T0".to_string()).unwrap_err();
    assert!(matches!(err, TransformError::UnsupportedEntityType(m) if m == "numéro de téléphone malformé"));
}

#[test]
fn phone_transform_metadata() {
    let t = PhoneTransform::new();
    assert_eq!(t.id(), "collect:phone");
    assert_eq!(t.input_kinds(), vec![EntityKind::PhoneNumber]);
}

#[test]
fn normalized_number_normalizes_to_itself() {
    for raw in ["06 12 34 56 78", "+33 6 12 34 56 78", "1 555 123 4567", "+44 20 7946 0958"] {
        let once = PhoneTransform::normalize_e164(raw).expect("valide");
        assert_eq!(PhoneTransform::normalize_e164(&once), Some(once.clone()));
    }
}
