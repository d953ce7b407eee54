use spectra::probe::schema::{Assertion, Category, Method, SelectorKind};
use spectra::probegen::{convert_site, convert_sites, normalize_name, parse_category, ConversionReport, WmnSite};

#[test]
fn new_report_summary() {
    let r = ConversionReport::new();
    assert_eq!(r.summary(), "Total: 0 sondes converties, 0 rejetées, 0 erreurs");
}

#[test]
fn reject_and_error_are_counted() {
    let mut r = ConversionReport::new();
    r.reject("wmn", "site-a".to_string(), "no uri".to_string());
    r.reject("wmn", "site-b".to_string(), "bad".to_string());
    r.reject("sherlock", "site-c".to_string(), "bad".to_string());
    r.error("maigret", "file missing".to_string());
    assert_eq!(r.summary(), "Total: 0 sondes converties, 3 rejetées, 1 erreurs");
    assert_eq!(r.sources.len(), 2);
    assert_eq!(r.sources[0].0, "wmn");
    assert_eq!(r.sources[0].1.rejected, 2);
    assert_eq!(r.sources[0].1.rejected_details[1].name, "site-b");
    assert_eq!(r.errors[0].source, "maigret");
}

#[test]
fn merge_adds_counts() {
    let mut a = ConversionReport::new();
    a.reject("wmn", "x".to_string(), "r".to_string());
    let mut b = ConversionReport::new();
    b.reject("wmn", "y".to_string(), "r".to_string());
    b.reject("other", "z".to_string(), "r".to_string());
    b.sources[0].1.converted = 5;
    b.error("wmn", "e".to_string());
    a.merge(b);
    assert_eq!(a.summary(), "Total: 5 sondes converties, 3 rejetées, 1 erreurs");
    assert_eq!(a.sources.len(), 2);
    assert_eq!(a.sources[0].1.rejected_details.len(), 2);
    assert_eq!(a.sources[0].1.rejected_details[0].name, "x");
    assert_eq!(a.sources[0].1.rejected_details[1].name, "y");
    assert_eq!(a.sources[0].1.converted, 5);
    assert_eq!(a.sources[1].0, "other");
    assert_eq!(a.sources[1].1.rejected_details[0].name, "z");
}

#[test]
fn categories() {
    assert_eq!(parse_category(Some("social")), Category::Social);
    assert_eq!(parse_category(Some("adult")), Category::Adult);
    assert_eq!(parse_category(Some("coding")), Category::Other);
    assert_eq!(parse_category(None), Category::Other);
}

#[test]
fn names_are_normalised() {
    assert_eq!(normalize_name("GitHub"), "github");
    assert_eq!(normalize_name("Stack Overflow!"), "stackoverflow");
    assert_eq!(normalize_name("my_site-2"), "my_site-2");
    assert_eq!(normalize_name("Éclair"), "éclair");
}

fn site() -> WmnSite {
    WmnSite {
        name: "Git Hub".to_string(),
        uri_check: "https://github.com/{account}".to_string(),
        uri: None,
        category: Some("dev".to_string()),
        e_code: None,
        e_string: Some("Repositories".to_string()),
        m_string: Some("Not Found".to_string()),
        regex_check: None,
        url: None,
        known: None,
    }
}

#[test]
fn site_becomes_probe() {
    let p = convert_site(&site(), "abc").unwrap();
    assert_eq!(p.id.0, "wmn:github");
    assert_eq!(p.site_name, "Git Hub");
    assert_eq!(p.category, Category::Dev);
    assert_eq!(p.selector_kind, SelectorKind::Username);
    assert_eq!(p.request.method, Method::Get);
    assert_eq!(p.request.url, "https://github.com/{selector}");
    assert_eq!(p.request.timeout_ms, 30000);
    assert!(matches!(p.decision.exists_if[0], Assertion::StatusCode(200)));
    assert!(matches!(&p.decision.exists_if[1], Assertion::BodyContains(t) if t == "Repositories"));
    assert_eq!(p.decision.exists_if.len(), 2);
    assert_eq!(p.decision.missing_if.len(), 1);
    assert!(matches!(&p.decision.missing_if[0], Assertion::BodyContains(t) if t == "Not Found"));
    assert!(matches!(p.decision.blocked_if[0], Assertion::StatusCode(403)));
    assert!(matches!(p.decision.blocked_if[1], Assertion::StatusCode(429)));
    assert_eq!(p.source.source, "wmn");
    assert_eq!(p.source.source_hash.as_deref(), Some("abc"));
    let (probes, report) = convert_sites(&vec![site(), site()], "h");
    assert_eq!(probes.len(), 2);
    assert_eq!(report.summary(), "Total: 0 sondes converties, 0 rejetées, 0 erreurs");
}
