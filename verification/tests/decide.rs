use spectra::json::JsonValue;
use spectra::probe::decide::{detect_block_reason, evaluate_assertion, evaluate_decision, evaluate_decision_at};
use spectra::probe::schema::{Assertion, BlockReason, DecisionRules, ProbeOutcome};

fn no_headers() -> Vec<(String, String)> {
    Vec::new()
}

#[test]
fn test_status_code_assertion() {
    let assertion = Assertion::StatusCode(200);
    let result = evaluate_assertion(&assertion, 200, "", "", &no_headers());
    assert!(result.matched);
    let result = evaluate_assertion(&assertion, 404, "", "", &no_headers());
    assert!(!result.matched);
}

#[test]
fn test_body_contains_assertion() {
    let assertion = Assertion::BodyContains("compte introuvable".to_string());
    let result = evaluate_assertion(&assertion, 200, "compte introuvable", "", &no_headers());
    assert!(result.matched);
    let result = evaluate_assertion(&assertion, 200, "compte trouvé", "", &no_headers());
    assert!(!result.matched);
}

#[test]
fn test_decision_blocked_cloudflare() {
    let rules = DecisionRules {
        exists_if: vec![Assertion::StatusCode(200)],
        missing_if: vec![Assertion::StatusCode(404)],
        blocked_if: vec![Assertion::StatusCode(403)],
    };
    let headers = vec![("cf-ray".to_string(), "test".to_string())];
    let outcome = evaluate_decision(&rules, 403, "", "", &headers);
    assert!(matches!(outcome, ProbeOutcome::Blocked { reason: BlockReason::Cloudflare }));
}

#[test]
fn test_decision_indeterminate() {
    let rules = DecisionRules {
        exists_if: vec![Assertion::StatusCode(200)],
        missing_if: vec![Assertion::StatusCode(404)],
        blocked_if: vec![],
    };
    let outcome = evaluate_decision(&rules, 500, "erreur", "", &no_headers());
    assert!(matches!(outcome, ProbeOutcome::Indeterminate { .. }));
}

#[test]
fn assertion_details_are_exact() {
    let r = evaluate_assertion(&Assertion::StatusCode(200), 404, "", "", &no_headers());
    assert_eq!(r.detail.as_deref(), Some("status=404, attendu=200"));
    let r = evaluate_assertion(&Assertion::StatusIn { min: 200, max: 299 }, 250, "", "", &no_headers());
    assert!(r.matched);
    assert_eq!(r.detail.as_deref(), Some("status=250, intervalle=[200,299]"));
    let r = evaluate_assertion(&Assertion::BodyNotContains("x".to_string()), 200, "abc", "", &no_headers());
    assert!(r.matched);
    assert_eq!(r.detail.as_deref(), Some("body not contains 'x': true"));
    let r = evaluate_assertion(&Assertion::ContentLengthGreaterThan(2), 200, "é", "", &no_headers());
    assert!(!r.matched);
    assert_eq!(r.detail.as_deref(), Some("body.len()=2 > 2: false"));
}

#[test]
fn url_assertions() {
    let r = evaluate_assertion(&Assertion::FinalUrlContains("/u/".to_string()), 200, "", "https://x/u/a", &no_headers());
    assert!(r.matched);
    assert_eq!(r.detail.as_deref(), Some("url 'https://x/u/a' contains '/u/': true"));
    let r = evaluate_assertion(&Assertion::FinalUrlEquals("https://x".to_string()), 200, "", "https://y", &no_headers());
    assert!(!r.matched);
    assert_eq!(r.detail.as_deref(), Some("url 'https://y' == 'https://x': false"));
}

#[test]
fn header_assertion_ignores_case_of_name() {
    let headers = vec![("retry-after".to_string(), "10".to_string())];
    let r = evaluate_assertion(&Assertion::HeaderPresent("Retry-After".to_string()), 200, "", "", &headers);
    assert!(r.matched);
    assert_eq!(r.detail.as_deref(), Some("header 'Retry-After' present: true"));
}

#[test]
fn regex_assertion_matches_and_reports_invalid_patterns() {
    let r = evaluate_assertion(&Assertion::BodyMatches("^id=[0-9]+$".to_string()), 200, "id=42", "", &no_headers());
    assert!(r.matched);
    assert_eq!(r.detail.as_deref(), Some("regex '^id=[0-9]+$' matched: true"));
    let r = evaluate_assertion(&Assertion::BodyMatches("^id=[0-9]+$".to_string()), 200, "id=x", "", &no_headers());
    assert!(!r.matched);
    let r = evaluate_assertion(&Assertion::BodyMatches("(".to_string()), 200, "x", "", &no_headers());
    assert!(!r.matched);
    assert!(r.detail.unwrap().starts_with("regex invalide: "));
}

#[test]
fn json_pointer_assertion() {
    let body = r#"{"user":{"name":"Alice","age":30}}"#;
    let a = Assertion::JsonPointerEquals { pointer: "/user/name".to_string(), value: JsonValue::String("Alice".to_string()) };
    let r = evaluate_assertion(&a, 200, body, "", &no_headers());
    assert!(r.matched);
    assert_eq!(r.detail.as_deref(), Some("pointer '/user/name' matched: true"));
    let a = Assertion::JsonPointerEquals { pointer: "/user/age".to_string(), value: JsonValue::Number("30".to_string()) };
    assert!(evaluate_assertion(&a, 200, body, "", &no_headers()).matched);
    let a = Assertion::JsonPointerEquals { pointer: "/user/age".to_string(), value: JsonValue::Number("31".to_string()) };
    assert!(!evaluate_assertion(&a, 200, body, "", &no_headers()).matched);
    let r = evaluate_assertion(&a, 200, "not json", "", &no_headers());
    assert!(!r.matched);
    assert_eq!(r.detail.as_deref(), Some("body n'est pas du JSON valide"));
}

#[test]
fn block_reasons_in_order() {
    assert!(matches!(detect_block_reason(403, "", &no_headers()), BlockReason::Cloudflare));
    assert!(matches!(detect_block_reason(200, "please solve the CAPTCHA", &no_headers()), BlockReason::Captcha));
    assert!(matches!(detect_block_reason(429, "", &no_headers()), BlockReason::RateLimit));
    assert!(matches!(detect_block_reason(406, "", &no_headers()), BlockReason::Waf));
    match detect_block_reason(418, "", &no_headers()) {
        BlockReason::Other(m) => assert_eq!(m, "status=418"),
        _ => panic!("other expected"),
    }
}

#[test]
fn decision_exists_carries_evidence() {
    let rules = DecisionRules {
        exists_if: vec![Assertion::StatusCode(200)],
        missing_if: vec![],
        blocked_if: vec![Assertion::StatusCode(429)],
    };
    let body = "x".repeat(300);
    let outcome = evaluate_decision_at(&rules, 200, &body, "https://site/u", &no_headers(), "T0".to_string());
    match outcome {
        ProbeOutcome::Exists { evidence, extracted } => {
            assert!(extracted.is_empty());
            assert_eq!(evidence.triggered_assertion.as_deref(), Some("status=200, attendu=200"));
            assert_eq!(evidence.status_code, 200);
            assert_eq!(evidence.final_url, "https://site/u");
            assert_eq!(evidence.body_hash, blake3::hash(body.as_bytes()).to_string());
            assert_eq!(evidence.body_preview.unwrap().chars().count(), 256);
            assert_eq!(evidence.timestamp, "T0");
        }
        _ => panic!("exists expected"),
    }
}

#[test]
fn decision_missing_and_undecided_reason() {
    let rules = DecisionRules {
        exists_if: vec![Assertion::StatusCode(200)],
        missing_if: vec![Assertion::StatusCode(404)],
        blocked_if: vec![],
    };
    assert!(matches!(evaluate_decision(&rules, 404, "", "", &no_headers()), ProbeOutcome::Missing));
    match evaluate_decision(&rules, 500, "erreur", "", &no_headers()) {
        ProbeOutcome::Indeterminate { reason } => {
            assert_eq!(reason, "aucune règle déclenchée (status=500, body_len=6)")
        }
        _ => panic!("indeterminate expected"),
    }
}

#[test]
fn preview_stops_at_256_bytes_on_a_character_boundary() {
    let rules = DecisionRules { exists_if: vec![Assertion::StatusCode(200)], missing_if: vec![], blocked_if: vec![] };
    // 'é' takes two bytes and '€' three: 85 euros are 255 bytes, one more would be 258.
    let body = format!("{}{}", "€".repeat(100), "é");
    match evaluate_decision_at(&rules, 200, &body, "", &no_headers(), "T".to_string()) {
        ProbeOutcome::Exists { evidence, .. } => {
            let p = evidence.body_preview.unwrap();
            assert_eq!(p, "€".repeat(85));
            assert!(p.len() <= 256 && body.starts_with(&p));
        }
        _ => panic!("exists expected"),
    }
    let short = "ééé";
    match evaluate_decision_at(&rules, 200, short, "", &no_headers(), "T".to_string()) {
        ProbeOutcome::Exists { evidence, .. } => assert_eq!(evidence.body_preview.as_deref(), Some(short)),
        _ => panic!("exists expected"),
    }
}
