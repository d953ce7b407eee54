use spectra::probe::request::{cache_key, extract_host, host_key, is_cacheable, request_body, request_url, RequestBody};
use spectra::probe::schema::{BodyTemplate, Method, ProbeId, ProbeOutcome, RequestTemplate};
use spectra::transform::{NetworkPermission, TransformManifest, TransformPermission, TransformQuotas};

fn template() -> RequestTemplate {
    RequestTemplate {
        method: Method::Get,
        url: "https://site.example/u/{selector}".to_string(),
        headers: vec![],
        body: None,
        follow_redirects: true,
        timeout_ms: 1000,
    }
}

#[test]
fn request_for_a_selector() {
    assert_eq!(request_url(&template(), "bob"), "https://site.example/u/bob");
    match request_body(&BodyTemplate::Json("{\"u\":\"{selector}\"}".to_string()), "bob") {
        RequestBody::Json(t) => assert_eq!(t, "{\"u\":\"bob\"}"),
        _ => panic!("json expected"),
    }
    match request_body(&BodyTemplate::Form(vec![("user".to_string(), "{selector}!".to_string())]), "bob") {
        RequestBody::Form(f) => assert_eq!(f, vec![("user".to_string(), "bob!".to_string())]),
        _ => panic!("form expected"),
    }
}

#[test]
fn cache_keys_and_hosts() {
    assert_eq!(cache_key(&ProbeId("wmn:github".to_string()), "bob"), "wmn:github:bob");
    assert!(is_cacheable(&ProbeOutcome::Missing));
    assert!(!is_cacheable(&ProbeOutcome::Indeterminate { reason: String::new() }));
    assert_eq!(extract_host("https://Site.Example:8080/x"), Some("site.example".to_string()));
    assert_eq!(extract_host("not a url"), None);
    assert_eq!(host_key("not a url"), "unknown");
}

#[test]
fn transform_manifest_allowlist_and_quotas() {
    let q = TransformQuotas::default();
    assert_eq!(q.timeout_seconds, 30);
    assert_eq!(q.max_memory_mb, 128);
    let m = TransformManifest {
        id: "dns".to_string(),
        name: "DNS".to_string(),
        description: String::new(),
        version: "0.1.0".to_string(),
        author: String::new(),
        license: "MIT".to_string(),
        input_kinds: vec![],
        output_kinds: vec![],
        permissions: TransformPermission {
            network: NetworkPermission {
                allowlist: vec!["example.com".to_string()],
                max_requests_per_run: 1,
                max_response_bytes: 1,
            },
        },
        quotas: q,
    };
    assert!(m.allows_domain("example.com"));
    assert!(!m.allows_domain("evil.com"));
}

#[test]
fn requests_to_a_host_are_spaced() {
    assert_eq!(spectra::probe::request::host_wait_ms(120, 500), 380);
    assert_eq!(spectra::probe::request::host_wait_ms(500, 500), 0);
    assert_eq!(spectra::probe::request::host_wait_ms(900, 500), 0);
}
