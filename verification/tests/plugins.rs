use ed25519_dalek::{Signer, SigningKey};
use spectra::plugins::{
    check_plugin_signature, extract_domain, host_http_get, Meta, NetworkPermissions, NetworkPolicy, Permissions,
    PluginInstallError, PluginManifest, PluginRegistry, PluginTransform, TransformSpec,
};
use spectra::entity::EntityKind;
use spectra::transform::TransformError;

fn manifest(id: &str) -> PluginManifest {
    PluginManifest {
        meta: Meta {
            id: id.to_string(),
            name: "Example".to_string(),
            version: "0.1.0".to_string(),
            author: "x".to_string(),
            license: "MIT".to_string(),
        },
        transforms: vec![TransformSpec {
            id: "t".to_string(),
            name: "T".to_string(),
            description: "d".to_string(),
            input_kinds: vec![EntityKind::Domain],
            output_kinds: vec![],
        }],
        permissions: Permissions {
            network: NetworkPermissions {
                allowlist: vec!["example.com".to_string()],
                max_requests_per_run: 10,
                max_response_bytes: 1000,
            },
        },
        expected_public_key: None,
    }
}

#[test]
fn manifest_allowlist() {
    let m = manifest("example-transform");
    assert!(m.allows_domain("example.com"));
    assert!(!m.allows_domain("evil.com"));
    let pt = PluginTransform::new(m, vec![0, 1]);
    assert!(pt.allows_domain("example.com"));
    assert!(!pt.allows_domain("attacker.net"));
    assert_eq!(pt.id(), "example-transform");
    assert_eq!(pt.input_kinds(), &[EntityKind::Domain]);
}

#[test]
fn policy_check_domain() {
    let p = NetworkPolicy {
        allowlist: vec!["example.com".to_string()],
        max_requests_per_run: 1,
        max_response_bytes: 1,
        timeout_seconds: 1,
    };
    assert!(p.check_domain("example.com").is_ok());
    match p.check_domain("evil.com") {
        Err(TransformError::SandboxViolation(m)) => assert_eq!(m, "domaine 'evil.com' hors allowlist"),
        _ => panic!("violation expected"),
    }
}

#[test]
fn domains_of_urls() {
    assert_eq!(extract_domain("http://example.com/page"), "example.com");
    assert_eq!(extract_domain("https://Example.COM:8443/x"), "example.com");
    assert_eq!(extract_domain("http://http://evil.com"), "evil.com");
    assert_eq!(extract_domain("example.com"), "example.com");
}

#[test]
fn host_http_get_applies_allowlist() {
    let allow = vec!["example.com".to_string()];
    assert_eq!(host_http_get(&allow, "http://example.com/page").unwrap(), "HTTP 200 OK http://example.com/page");
    assert_eq!(
        host_http_get(&allow, "http://evil.com/secret").unwrap_err(),
        "sandbox violation: domain 'evil.com' not in allowlist"
    );
}

#[test]
fn signature_checks() {
    let key = SigningKey::from_bytes(&[7u8; 32]);
    let public_hex = hex::encode(key.verifying_key().to_bytes());
    let wasm = vec![1u8, 2, 3, 4];
    let sig = key.sign(&wasm).to_bytes().to_vec();
    assert!(check_plugin_signature(&wasm, &sig, &public_hex).is_ok());
    let other = vec![9u8];
    assert!(matches!(
        check_plugin_signature(&other, &sig, &public_hex),
        Err(PluginInstallError::InvalidSignature(m)) if m == "vérification échouée"
    ));
    assert!(matches!(
        check_plugin_signature(&wasm, &sig[..10].to_vec(), &public_hex),
        Err(PluginInstallError::InvalidSignature(m)) if m == "signature error"
    ));
    assert!(matches!(
        check_plugin_signature(&wasm, &sig, "abcd"),
        Err(PluginInstallError::InvalidKey(m)) if m == "taille"
    ));
    assert!(matches!(
        check_plugin_signature(&wasm, &sig, "zz"),
        Err(PluginInstallError::InvalidKey(m)) if m.starts_with("Invalid character")
    ));
    assert!(matches!(
        check_plugin_signature(&wasm, &sig, "abc"),
        Err(PluginInstallError::InvalidKey(m)) if m == "Odd number of digits"
    ));
}

#[test]
fn registry_install_then_get() {
    let key = SigningKey::from_bytes(&[3u8; 32]);
    let public_hex = hex::encode(key.verifying_key().to_bytes());
    let wasm = vec![5u8; 16];
    let sig = key.sign(&wasm).to_bytes().to_vec();
    let mut reg = PluginRegistry::new();
    assert!(reg.get("p1").is_none());
    reg.install_verified(manifest("p1"), wasm.clone(), &sig, &public_hex).unwrap();
    assert_eq!(reg.get("p1").unwrap().wasm_bytes, wasm);
    assert_eq!(reg.list(), vec!["p1".to_string()]);
    let bad = reg.install_verified(manifest("p2"), vec![0u8], &sig, &public_hex);
    assert!(bad.is_err());
    assert!(reg.get("p2").is_none());
    reg.install_verified(manifest("p1"), wasm.clone(), &sig, &public_hex).unwrap();
    assert_eq!(reg.list().len(), 1);
}
