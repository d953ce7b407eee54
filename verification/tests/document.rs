use spectra::document::{docx_paragraphs, pdf_blocks, AuditRow, LineColor, ReportBlock};
use spectra::entity::{AdmiraltyCode, Entity, EntityKind, Observation, PropertyValue, Provenance};
use spectra::report::{audit_line, ReportFormat, ReportOptions};

fn entity(id: &str) -> Entity {
    Entity {
        id: id.to_string(),
        kind: EntityKind::Username,
        canonical_value: id.to_string(),
        display_label: id.to_string(),
        properties: vec![],
        created_at: "2026-01-01T00:00:00Z".to_string(),
        merged_from: vec![],
    }
}

fn obs(predicate: &str, provenance: Provenance, raw_hash: Option<&str>) -> Observation {
    Observation {
        id: format!("obs-{predicate}"),
        subject: "u1".to_string(),
        predicate: predicate.to_string(),
        value: PropertyValue::String("v".to_string()),
        source: "test".to_string(),
        method: "TEST".to_string(),
        observed_at: "2026-01-01T00:00:00Z".to_string(),
        valid_from: None,
        valid_to: None,
        confidence: AdmiraltyCode::from_str("C3").unwrap(),
        provenance,
        raw_hash: raw_hash.map(|h| h.to_string()),
        operator: "Alice".to_string(),
    }
}

fn opts() -> ReportOptions {
    ReportOptions {
        title: "Rapport".to_string(),
        case_id: "CASE-42".to_string(),
        operator: "Alice".to_string(),
        include_inferred: false,
        format: ReportFormat::Pdf,
    }
}

fn text(b: &ReportBlock) -> String {
    match b {
        ReportBlock::Title(t, _) | ReportBlock::Line(t, _, _) => t.clone(),
        ReportBlock::Space(n) => format!("<space {n}>"),
        ReportBlock::PageBreak => "<page>".to_string(),
    }
}

#[test]
fn pdf_blocks_sections_in_order() {
    let entity_obs = vec![(
        "u1".to_string(),
        vec![obs("bio", Provenance::Collected, Some("blake3-abc")), obs("guess", Provenance::Inferred, None)],
    )];
    let audit = vec![AuditRow {
        timestamp: "T".to_string(),
        action: "create".to_string(),
        entity_kind: "case".to_string(),
        actor: "system".to_string(),
        sequence: 1,
        hash: "0123456789abcdef0123".to_string(),
    }];
    let blocks = pdf_blocks(&opts(), &vec![entity("u1")], &entity_obs, &audit, "D");
    let texts: Vec<String> = blocks.iter().map(text).collect();
    assert_eq!(texts[0], "Rapport");
    assert_eq!(texts[1], "Dossier : CASE-42");
    assert_eq!(texts[3], "Date : D");
    assert_eq!(texts[4], "<page>");
    assert_eq!(texts[6], "1 entités, 2 observations.");
    assert_eq!(texts[8], "Entités et observations");
    assert_eq!(texts[9], "u1 (Username) — u1");
    assert!(texts[10].starts_with("  • bio = v (source: test"));
    assert_eq!(texts[11], "<space 4>");
    assert_eq!(texts[12], "<page>");
    assert_eq!(texts[13], "Journal d'audit");
    assert_eq!(texts[14], "[T] create — case / system (séq: 1, hash: 01234567…cdef0123)");
    assert_eq!(texts[16], "Annexes — Empreintes de preuves");
    assert_eq!(texts[17], "obs-bio : blake3-abc");
    assert_eq!(texts.len(), 18);
    assert!(matches!(blocks[0], ReportBlock::Title(_, 24)));
    assert!(matches!(blocks[10], ReportBlock::Line(_, 10, LineColor::Green)));
}

#[test]
fn pdf_blocks_of_an_empty_case() {
    let blocks = pdf_blocks(&opts(), &vec![], &vec![], &vec![], "D");
    let texts: Vec<String> = blocks.iter().map(text).collect();
    assert_eq!(texts[10], "Journal d'audit");
    assert_eq!(texts[11], "Aucun événement d'audit enregistré.");
    assert_eq!(texts[13], "Annexes — Empreintes de preuves");
    assert_eq!(texts[14], "Aucune empreinte brute associée aux observations.");
}

#[test]
fn docx_paragraphs_in_order() {
    let entity_obs = vec![("u1".to_string(), vec![obs("bio", Provenance::Collected, None)])];
    let ps = docx_paragraphs(&opts(), &vec![entity("u1")], &entity_obs, &vec![], "D");
    assert_eq!(ps[0].text, "Rapport");
    assert!(ps[0].bold && ps[0].centered);
    assert_eq!(ps[1].text, "Dossier : CASE-42  |  Opérateur : Alice  |  Date : D");
    assert!(ps[2].bold);
    assert_eq!(ps[5].text, "u1 (Username) — u1");
    assert!(ps[5].bold);
    assert!(ps[6].text.starts_with("• bio = v"));
    assert_eq!(ps[8].text, "Aucun événement d'audit enregistré.");
    assert_eq!(ps.last().unwrap().text, "Rapport généré par SPECTRA. Les observations marquées « Inferred » ne sont pas des preuves.");
}

#[test]
fn audit_line_cuts_bytes() {
    assert_eq!(audit_line("T", "a", "k", "u", 2, "ééééé"), "[T] a — k / u (séq: 2, hash: éééé…éééé)");
}
