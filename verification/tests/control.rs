use spectra::probe::control::{control_selector_from, control_status, generate_control_selector, ControlStatus};
use spectra::probe::schema::{BlockReason, ConfidenceLevel, ProbeError, ProbeOutcome, SelectorKind};

#[test]
fn control_selectors_have_the_right_shape() {
    let u = generate_control_selector(&SelectorKind::Username);
    assert_eq!(u.chars().count(), 12);
    assert!(u.chars().all(|c| c.is_ascii_alphanumeric()));
    let e = generate_control_selector(&SelectorKind::Email);
    assert!(e.ends_with("@example.com"));
    assert_eq!(e.len(), 10 + "@example.com".len());
    assert!(e[..10].chars().all(|c| c.is_ascii_lowercase() || c.is_ascii_digit()));
    let p = generate_control_selector(&SelectorKind::Phone);
    assert!(p.starts_with("+336"));
    assert_eq!(p.len(), 12);
    assert!(p[4..].chars().all(|c| c.is_ascii_digit()));
}

#[test]
fn control_selectors_from_draws() {
    let draws: Vec<u32> = vec![0, 25, 26, 51, 52, 61, 1, 2, 3, 4, 5, 6];
    assert_eq!(control_selector_from(&SelectorKind::Username, &draws), "azAZ09bcdefg");
    let draws: Vec<u32> = vec![0, 35, 26, 1, 2, 3, 4, 5, 6, 7];
    assert_eq!(control_selector_from(&SelectorKind::Email, &draws), "a90bcdefgh@example.com");
    assert_eq!(control_selector_from(&SelectorKind::Phone, &vec![42]), "+33600000042");
}

#[test]
fn control_verdicts() {
    assert!(matches!(control_status(ProbeOutcome::Missing), ControlStatus::Healthy));
    assert!(matches!(
        control_status(ProbeOutcome::Blocked { reason: BlockReason::Waf }),
        ControlStatus::Blocked { reason: BlockReason::Waf }
    ));
    match control_status(ProbeOutcome::Error(ProbeError::Network("down \"x\"".to_string()))) {
        ControlStatus::Error(m) => assert_eq!(m, "Network(\"down \\\"x\\\"\")"),
        _ => panic!("error expected"),
    }
    match control_status(ProbeOutcome::Error(ProbeError::Timeout)) {
        ControlStatus::Error(m) => assert_eq!(m, "Timeout"),
        _ => panic!("error expected"),
    }
}

#[test]
fn confidence_names_roundtrip() {
    for c in [
        ConfidenceLevel::Unknown,
        ConfidenceLevel::High,
        ConfidenceLevel::Medium,
        ConfidenceLevel::Low,
        ConfidenceLevel::Degraded,
    ] {
        assert_eq!(ConfidenceLevel::from_name(c.name()), c);
    }
    assert_eq!(ConfidenceLevel::from_name("whatever"), ConfidenceLevel::Unknown);
}
