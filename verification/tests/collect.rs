use spectra::collect::ct::{check_ct_status, ct_output, CrtShEntry, CtTransform};
use spectra::collect::dns::{check_dns_input, dns_output, DnsTransform};
use spectra::collect::whatsmyname::{decide_site, prepare_site_check, wmn_output, Site, SiteResult};
use spectra::collect::whois::{parse_whois, whois_output, WhoisTransform};
use spectra::entity::{Entity, EntityKind, PropertyValue};
use spectra::transform::{TransformError, TransformInput};

fn input(value: &str, kind: EntityKind) -> TransformInput {
    TransformInput {
        entity: Entity {
            id: "in".to_string(),
            kind,
            canonical_value: value.to_string(),
            display_label: value.to_string(),
            properties: vec![],
            created_at: "2026-01-01T00:00:00Z".to_string(),
            merged_from: vec![],
        },
        params: vec![],
    }
}

fn entry(cn: Option<&str>, issuer: Option<&str>) -> CrtShEntry {
    CrtShEntry {
        issuer: issuer.map(|s| s.to_string()),
        common_name: cn.map(|s| s.to_string()),
        name_value: None,
        entry_timestamp: None,
    }
}

#[test]
fn ct_keeps_first_entry_of_each_common_name() {
    let entries = vec![
        entry(Some("a.example.com"), Some("CA1")),
        entry(Some("a.example.com"), Some("CA2")),
        entry(Some(""), Some("CA3")),
        entry(None, Some("CA4")),
        entry(Some("b.example.com"), None),
    ];
    let out = ct_output(&input("example.com", EntityKind::Domain), entries, "T0".to_string());
    assert_eq!(out.entities.len(), 2);
    assert_eq!(out.entities[0].id, "cert-a.example.com");
    assert_eq!(out.entities[1].id, "cert-b.example.com");
    assert_eq!(out.relations.len(), 2);
    assert_eq!(out.relations[1].kind, "has_certificate");
    assert_eq!(out.observations.len(), 1);
    assert_eq!(out.observations[0].id, "obs-ct-issuer-a.example.com");
    assert!(matches!(&out.observations[0].value, PropertyValue::String(s) if s == "CA1"));
}

#[test]
fn ct_status_check() {
    assert!(check_ct_status(200).is_ok());
    let err = check_ct_status(503).unwrap_err();
    assert!(matches!(err, TransformError::NetworkError(m) if m == "crt.sh répond HTTP 503"));
    assert_eq!(CtTransform::new().id(), "ct:search");
}

#[test]
fn dns_output_addresses_then_exchangers() {
    let ips = vec!["93.184.216.34".to_string()];
    let mx = vec!["mx.example.com.".to_string(), "mx2.example.com.".to_string()];
    let txt = vec!["v=spf1 -all".to_string()];
    let out = dns_output(&input("example.com", EntityKind::Domain), &ips, &mx, &txt, &"T0".to_string());
    assert_eq!(out.entities.len(), 1);
    assert_eq!(out.entities[0].id, "ip-93.184.216.34");
    assert_eq!(out.entities[0].kind, EntityKind::IpAddress);
    assert_eq!(out.relations[0].kind, "resolves_to");
    assert_eq!(out.observations.len(), 4);
    assert_eq!(out.observations[3].id, "obs-dns-txt-v=spf1 -all");
    assert_eq!(out.observations[3].predicate, "dns_txt");
    assert_eq!(out.observations[0].id, "obs-dns-a-93.184.216.34");
    assert_eq!(out.observations[2].id, "obs-dns-mx-mx2.example.com.");
    assert_eq!(out.observations[2].predicate, "dns_mx");
}

#[test]
fn dns_refuses_empty_value() {
    assert!(check_dns_input(&input("example.com", EntityKind::Domain)).is_ok());
    let err = check_dns_input(&input("", EntityKind::Domain)).unwrap_err();
    assert!(matches!(err, TransformError::UnsupportedEntityType(m) if m == "valeur vide"));
    assert_eq!(DnsTransform::new().input_kinds(), vec![EntityKind::Domain, EntityKind::IpAddress]);
}

#[test]
fn whois_server_by_tld() {
    assert_eq!(WhoisTransform::guess_server("example.com"), "whois.verisign-grs.com");
    assert_eq!(WhoisTransform::guess_server("example.org"), "whois.publicinterestregistry.net");
    assert_eq!(WhoisTransform::guess_server("example.fr"), "whois.nic.fr");
    assert_eq!(WhoisTransform::guess_server("example.xyz"), "whois.iana.org");
}

#[test]
fn whois_fields_and_output() {
    let raw = "Domain Name: EXAMPLE.COM\r\nRegistrar: Example Registrar, Inc.\r\nCreation Date: 1995-08-14T04:00:00Z\r\nRegistry Expiry Date: 2026-08-13T04:00:00Z\r\n";
    let fields = parse_whois(raw);
    assert_eq!(fields.registrar.as_deref(), Some("Example Registrar, Inc."));
    assert_eq!(fields.creation_date.as_deref(), Some("1995-08-14T04:00:00Z"));
    assert_eq!(fields.expiry_date.as_deref(), Some("2026-08-13T04:00:00Z"));
    let out = whois_output(&input("example.com", EntityKind::Domain), fields, "T0".to_string());
    assert_eq!(out.observations.len(), 3);
    assert_eq!(out.observations[0].id, "obs-whois-registrar-example.com");
    assert_eq!(out.observations[2].predicate, "whois_expiry_date");
}

fn site(protection: Option<Vec<&str>>) -> Site {
    Site {
        name: "GitHub".to_string(),
        uri_check: "https://github.com/{account}".to_string(),
        exists_code: Some(200),
        exists_string: None,
        missing_code: Some(404),
        missing_string: Some("Not Found".to_string()),
        known: None,
        cat: "coding".to_string(),
        protection: protection.map(|v| v.into_iter().map(|s| s.to_string()).collect()),
    }
}

#[test]
fn wmn_prepare_builds_url_or_blocks() {
    assert_eq!(prepare_site_check(&site(None), "alice").unwrap(), "https://github.com/alice");
    match prepare_site_check(&site(Some(vec!["cloudflare"])), "alice") {
        Err(SiteResult::Blocked(m)) => assert_eq!(m, "GitHub: protection active"),
        _ => panic!("blocked expected"),
    }
}

#[test]
fn wmn_decides_from_status_and_body() {
    let url = "https://github.com/alice".to_string();
    match decide_site(site(None), "alice".to_string(), url.clone(), 200, "<html>profile</html>") {
        SiteResult::Exists { site, url: u, username, category } => {
            assert_eq!(site, "GitHub");
            assert_eq!(u, url);
            assert_eq!(username, "alice");
            assert_eq!(category, "coding");
        }
        _ => panic!("exists expected"),
    }
    assert!(matches!(decide_site(site(None), "alice".to_string(), url.clone(), 404, ""), SiteResult::NotFound));
    assert!(matches!(decide_site(site(None), "alice".to_string(), url.clone(), 200, "Not Found"), SiteResult::NotFound));
    assert!(matches!(decide_site(site(None), "alice".to_string(), url, 500, "x"), SiteResult::NotFound));
}

#[test]
fn wmn_output_profiles() {
    let results = vec![
        SiteResult::NotFound,
        SiteResult::Exists {
            site: "GitHub".to_string(),
            url: "https://github.com/alice".to_string(),
            username: "alice".to_string(),
            category: "coding".to_string(),
        },
        SiteResult::Error("x".to_string()),
    ];
    let out = wmn_output(&input("alice", EntityKind::Username), &results, &"T0".to_string());
    assert_eq!(out.entities.len(), 1);
    assert_eq!(out.entities[0].id, "social-GitHub/alice");
    assert_eq!(out.entities[0].display_label, "alice sur GitHub");
    assert_eq!(out.entities[0].properties[0].0, "category");
    assert_eq!(out.entities[0].properties[1].0, "platform");
    assert_eq!(out.entities[0].properties[2].0, "profile_url");
    assert_eq!(out.observations[0].id, "obs-wmn-GitHub/alice");
    assert_eq!(out.observations[0].operator, "in");
    assert_eq!(out.relations[0].kind, "has_profile_on");
}
