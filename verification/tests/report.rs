use spectra::entity::{AdmiraltyCode, Entity, EntityKind, Observation, PropertyValue, Provenance};
use spectra::report::{
    audit_line, entity_line, evidence_lines, html_escape, observation_line, summary_line, to_html, to_markdown,
    total_observations, ReportEngine, ReportFormat, ReportOptions,
};

fn dummy_entity(id: &str) -> Entity {
    Entity {
        id: id.to_string(),
        kind: EntityKind::Username,
        canonical_value: id.to_string(),
        display_label: id.to_string(),
        properties: vec![],
        created_at: "2026-01-01T00:00:00Z".to_string(),
        merged_from: vec![],
    }
}

fn dummy_obs(subject: &str, predicate: &str, value: &str) -> Observation {
    Observation {
        id: format!("obs-{subject}-{predicate}"),
        subject: subject.to_string(),
        predicate: predicate.to_string(),
        value: PropertyValue::String(value.to_string()),
        source: "test".to_string(),
        method: "TEST".to_string(),
        observed_at: "2026-01-01T00:00:00Z".to_string(),
        valid_from: None,
        valid_to: None,
        confidence: AdmiraltyCode::from_str("A1").unwrap(),
        provenance: Provenance::Collected,
        raw_hash: None,
        operator: "test".to_string(),
    }
}

fn opts(format: ReportFormat, include_inferred: bool) -> ReportOptions {
    ReportOptions {
        title: "Rapport test".to_string(),
        case_id: "CASE-01".to_string(),
        operator: "Alice".to_string(),
        include_inferred,
        format,
    }
}

#[test]
fn markdown_report_smoke() {
    let _engine = ReportEngine::new();
    let entities = vec![dummy_entity("e1")];
    let obs = vec![("e1".to_string(), vec![dummy_obs("e1", "bio", "Rust dev")])];
    let md = to_markdown(&opts(ReportFormat::Markdown, false), &entities, &obs, "2026-01-01 00:00:00 UTC");
    assert!(md.contains("# Rapport test"));
    assert!(md.contains("Rust dev"));
    assert!(md.contains("CASE-01"));
}

#[test]
fn html_report_smoke() {
    let entities = vec![dummy_entity("e1")];
    let obs = vec![("e1".to_string(), vec![dummy_obs("e1", "bio", "Rust dev")])];
    let html = to_html(&opts(ReportFormat::Html, false), &entities, &obs, "2026-01-01 00:00:00 UTC");
    assert!(html.starts_with("<!DOCTYPE html>"));
    assert!(html.contains("Rust dev"));
    assert!(html.contains("SPECTRA"));
}

#[test]
fn markdown_report_exact_text() {
    let entities = vec![dummy_entity("e1")];
    let mut inferred = dummy_obs("e1", "guess", "maybe");
    inferred.provenance = Provenance::Inferred;
    let obs = vec![("e1".to_string(), vec![dummy_obs("e1", "bio", "Rust dev"), inferred])];
    let md = to_markdown(&opts(ReportFormat::Markdown, false), &entities, &obs, "D");
    let expected = "# Rapport test\n\n**Dossier :** CASE-01\n\n**Opérateur :** Alice\n\n**Date :** D\n\n---\n\n## Résumé\n\n1 entités, 2 observations.\n\n## Entités\n\n### e1 (`e1`)\n\n- **Type :** Username\n- **ID :** `e1`\n- **Observations :**\n  - `bio` = `Rust dev` (source: test, confiance: AdmiraltyCode { source_reliability: A, information_credibility: V1 }, provenance: Collected)\n\n---\n\n*Rapport généré par SPECTRA. Les observations marquées « Inferred » ne sont pas des preuves.*\n";
    assert_eq!(md, expected);
    let md = to_markdown(&opts(ReportFormat::Markdown, true), &entities, &obs, "D");
    assert!(md.contains("`guess` = `maybe`"));
}

#[test]
fn html_escapes_and_classes() {
    assert_eq!(html_escape("<a href=\"x\">&</a>"), "&lt;a href=&quot;x&quot;&gt;&amp;&lt;/a&gt;");
    let mut e = dummy_entity("e1");
    e.display_label = "<b>".to_string();
    let obs = vec![("e1".to_string(), vec![dummy_obs("e1", "bio", "a&b")])];
    let html = to_html(&opts(ReportFormat::Html, false), &vec![e], &obs, "D");
    assert!(html.contains("<tr><td>&lt;b&gt;</td><td>Username</td><td>e1</td><td><span class=\"collected\">bio = a&amp;b (test)</span><br></td></tr>\n"));
    assert!(html.ends_with("</footer>\n</body>\n</html>"));
}

#[test]
fn report_lines() {
    assert_eq!(summary_line(3, 7), "3 entités, 7 observations.");
    assert_eq!(entity_line(&dummy_entity("e1")), "e1 (Username) — e1");
    let o = dummy_obs("e1", "bio", "Rust dev");
    assert_eq!(
        observation_line("  • ", &o),
        "  • bio = Rust dev (source: test, confiance: AdmiraltyCode { source_reliability: A, information_credibility: V1 }, provenance: Collected)"
    );
    let mut n = dummy_obs("e1", "age", "x");
    n.value = PropertyValue::Integer(-42);
    assert!(observation_line("• ", &n).starts_with("• age = -42 ("));
    assert_eq!(
        audit_line("T", "create", "case", "system", 3, "0123456789abcdef0123"),
        "[T] create — case / system (séq: 3, hash: 01234567…cdef0123)"
    );
    assert_eq!(audit_line("T", "a", "k", "u", 1, "abc"), "[T] a — k / u (séq: 1, hash: abc…abc)");
}

#[test]
fn evidence_appendix_lists_raw_hashes() {
    let mut a = dummy_obs("e1", "bio", "x");
    a.raw_hash = Some("abc123".to_string());
    let b = dummy_obs("e1", "url", "y");
    let obs = vec![("e1".to_string(), vec![a, b])];
    assert_eq!(evidence_lines(&obs), vec!["obs-e1-bio : abc123".to_string()]);
    assert_eq!(total_observations(&obs), 2);
}

#[test]
fn inferred_observations_are_left_out_unless_asked() {
    let entities = vec![dummy_entity("e1")];
    let mut inferred = dummy_obs("e1", "guess", "maybe");
    inferred.provenance = Provenance::Inferred;
    let all = vec![("e1".to_string(), vec![dummy_obs("e1", "bio", "Rust dev"), inferred])];
    let kept = vec![("e1".to_string(), vec![dummy_obs("e1", "bio", "Rust dev")])];
    let without = to_html(&opts(ReportFormat::Html, false), &entities, &all, "D");
    let only_kept = to_html(&opts(ReportFormat::Html, true), &entities, &kept, "D");
    assert!(!without.contains("guess = maybe"));
    assert!(only_kept.contains("bio = Rust dev"));
    let md = to_markdown(&opts(ReportFormat::Markdown, false), &entities, &all, "D");
    assert!(!md.contains("`guess`"));
}

#[test]
fn escaped_text_holds_no_markup() {
    let e = html_escape("<script>alert(\"x\")</script>");
    assert!(!e.contains('<') && !e.contains('>') && !e.contains('"'));
    assert_eq!(e, "&lt;script&gt;alert(&quot;x&quot;)&lt;/script&gt;");
}
