//! The PDF and DOCX reports as plain values: the blocks of the PDF (titles,
//! lines, spaces and page breaks, in order) and the paragraphs of the DOCX
//! document. Laying them out on pages is left to the caller.

use vstd::prelude::*;
use crate::entity::{Entity, Observation, Provenance};
use crate::report::{
    audit_line, audit_line_text, disclaimer, entity_line, entity_line_text, evidence_lines, evidence_lines_spec,
    find_observations, hash_cuttable, observation_line, observation_line_text, observation_shown, observation_total,
    observations_of, shown, summary_line, summary_text, texts, total_observations, ReportOptions,
};
use crate::text::push_str;

verus! {

// ---------------------------------------------------------------------------
// Values
// ---------------------------------------------------------------------------

/// Colour of a line of the PDF report.
#[derive(Debug, Clone, Copy, PartialEq, Eq, Structural)]
pub enum LineColor {
    Black,
    /// An observation that was collected or asserted.
    Green,
    /// An observation that a model inferred.
    Grey,
}

/// A block of the PDF report, from the top of the first page down. Sizes
/// are in points.
#[derive(Debug, Clone)]
pub enum ReportBlock {
    /// A section title.
    Title(String, u32),
    /// A line of text.
    Line(String, u32, LineColor),
    /// Blank space.
    Space(u32),
    /// The rest goes on a new page.
    PageBreak,
}

/// A paragraph of the DOCX report.
#[derive(Debug, Clone)]
pub struct Paragraph {
    pub text: String,
    pub bold: bool,
    pub centered: bool,
}

/// An audit event as the reports show it.
#[derive(Debug, Clone)]
pub struct AuditRow {
    pub timestamp: String,
    pub action: String,
    pub entity_kind: String,
    pub actor: String,
    pub sequence: u64,
    pub hash: String,
}

/// A block, its texts as character sequences.
pub enum Block {
    Title(Seq<char>, nat),
    Line(Seq<char>, nat, LineColor),
    Space(nat),
    PageBreak,
}

/// The block a `ReportBlock` stands for.
pub open spec fn block_view(b: ReportBlock) -> Block {
    match b {
        ReportBlock::Title(t, n) => Block::Title(t@, n as nat),
        ReportBlock::Line(t, n, c) => Block::Line(t@, n as nat, c),
        ReportBlock::Space(n) => Block::Space(n as nat),
        ReportBlock::PageBreak => Block::PageBreak,
    }
}

/// The blocks a list stands for.
pub open spec fn blocks(v: Seq<ReportBlock>) -> Seq<Block> {
    v.map_values(|b: ReportBlock| block_view(b))
}

/// The paragraph a `Paragraph` stands for: text, bold, centred.
pub open spec fn paragraph_view(p: Paragraph) -> (Seq<char>, bool, bool) {
    (p.text@, p.bold, p.centered)
}

/// The paragraphs a list stands for.
pub open spec fn paragraphs(v: Seq<Paragraph>) -> Seq<(Seq<char>, bool, bool)> {
    v.map_values(|p: Paragraph| paragraph_view(p))
}

/// The audit line of a row.
pub open spec fn audit_row_text(r: AuditRow) -> Seq<char> {
    audit_line_text(r.timestamp@, r.action@, r.entity_kind@, r.actor@, r.sequence as nat, r.hash@)
}

/// Every row's hash can be cut where the audit line cuts it.
pub open spec fn rows_cuttable(rows: Seq<AuditRow>) -> bool {
    forall|i: int| 0 <= i < rows.len() ==> hash_cuttable(#[trigger] rows[i].hash@)
}

// ---------------------------------------------------------------------------
// PDF
// ---------------------------------------------------------------------------

/// The colour of an observation's line.
pub open spec fn observation_color(p: Provenance) -> LineColor {
    if p == Provenance::Inferred {
        LineColor::Grey
    } else {
        LineColor::Green
    }
}

/// A black line.
pub open spec fn line(t: Seq<char>, size: nat) -> Block {
    Block::Line(t, size, LineColor::Black)
}

/// The lines of the observations shown, each in its colour.
pub open spec fn pdf_observations(obs: Seq<Observation>, include_inferred: bool) -> Seq<Block>
    decreases obs.len(),
{
    if obs.len() == 0 {
        Seq::empty()
    } else if shown(include_inferred, obs.last()) {
        pdf_observations(obs.drop_last(), include_inferred).push(
            Block::Line(observation_line_text("  • "@, obs.last()), 10, observation_color(obs.last().provenance)),
        )
    } else {
        pdf_observations(obs.drop_last(), include_inferred)
    }
}

/// One entity: its line, its observations, then some space.
pub open spec fn pdf_entity(e: Entity, obs: Option<Seq<Observation>>, include_inferred: bool) -> Seq<Block> {
    seq![line(entity_line_text(e), 11)] + match obs {
        Some(l) => pdf_observations(l, include_inferred),
        None => Seq::empty(),
    } + seq![Block::Space(4)]
}

/// The entities, in order.
pub open spec fn pdf_entities(
    es: Seq<Entity>,
    entity_obs: Seq<(String, Vec<Observation>)>,
    include_inferred: bool,
) -> Seq<Block>
    decreases es.len(),
{
    if es.len() == 0 {
        Seq::empty()
    } else {
        pdf_entities(es.drop_last(), entity_obs, include_inferred) + pdf_entity(
            es.last(),
            observations_of(entity_obs, es.last().id@),
            include_inferred,
        )
    }
}

/// Lines of the given texts, all of one size, in black.
pub open spec fn lines_of(ts: Seq<Seq<char>>, size: nat) -> Seq<Block> {
    ts.map_values(|t: Seq<char>| line(t, size))
}

/// The audit lines of the rows.
pub open spec fn audit_texts(rows: Seq<AuditRow>) -> Seq<Seq<char>> {
    rows.map_values(|r: AuditRow| audit_row_text(r))
}

/// The message of an empty audit trail.
pub open spec fn no_audit() -> Seq<char> {
    "Aucun événement d'audit enregistré."@
}

/// The message of an empty evidence annex.
pub open spec fn no_evidence() -> Seq<char> {
    "Aucune empreinte brute associée aux observations."@
}

/// The cover page (title, case, operator, date), the summary page, and
/// the title of the entities.
pub open spec fn pdf_cover(opts: ReportOptions, date: Seq<char>, n_entities: nat, n_observations: nat) -> Seq<Block> {
    seq![
        Block::Title(opts.title@, 24),
        line("Dossier : "@ + opts.case_id@, 12),
        line("Opérateur : "@ + opts.operator@, 12),
        line("Date : "@ + date, 12),
        Block::PageBreak,
        Block::Title("Résumé"@, 16),
        line(summary_text(n_entities, n_observations), 11),
        Block::PageBreak,
        Block::Title("Entités et observations"@, 16),
    ]
}

/// The audit trail on a new page: its lines, or a word that it is empty.
pub open spec fn pdf_audit(audit: Seq<AuditRow>) -> Seq<Block> {
    seq![Block::PageBreak, Block::Title("Journal d'audit"@, 16)] + if audit.len() == 0 {
        seq![line(no_audit(), 11)]
    } else {
        lines_of(audit_texts(audit), 9)
    }
}

/// The evidence annex on a new page: its lines, or a word that it is
/// empty.
pub open spec fn pdf_annex(evidence: Seq<Seq<char>>) -> Seq<Block> {
    seq![Block::PageBreak, Block::Title("Annexes — Empreintes de preuves"@, 16)] + if evidence.len() == 0 {
        seq![line(no_evidence(), 11)]
    } else {
        lines_of(evidence, 9)
    }
}

/// The blocks of the PDF report: a cover page (title, case, operator,
/// date); the summary; the entities and their observations; the audit
/// trail; the evidence annex. Each part ends with a page break.
pub open spec fn pdf_blocks_spec(
    opts: ReportOptions,
    es: Seq<Entity>,
    entity_obs: Seq<(String, Vec<Observation>)>,
    audit: Seq<AuditRow>,
    date: Seq<char>,
) -> Seq<Block> {
    pdf_cover(opts, date, es.len(), observation_total(entity_obs)) + pdf_entities(es, entity_obs, opts.include_inferred)
        + pdf_audit(audit) + pdf_annex(evidence_lines_spec(entity_obs))
}

fn push_block(v: &mut Vec<ReportBlock>, b: ReportBlock)
    ensures
        blocks(final(v)@) == blocks(old(v)@).push(block_view(b)),
{
    let ghost before = v@;
    v.push(b);
    assert(blocks(v@) =~= blocks(before).push(block_view(b)));
}

fn black(t: String, size: u32) -> (r: ReportBlock)
    ensures
        block_view(r) == line(t@, size as nat),
{
    ReportBlock::Line(t, size, LineColor::Black)
}

fn text_of(t: &str) -> (r: String)
    ensures
        r@ == t@,
{
    String::from_str(t)
}

fn pdf_observation_blocks(out: &mut Vec<ReportBlock>, obs: &Vec<Observation>, include_inferred: bool)
    ensures
        blocks(final(out)@) == blocks(old(out)@) + pdf_observations(obs@, include_inferred),
{
    let ghost start = blocks(out@);
    let mut i: usize = 0;
    proof {
        assert(obs@.take(0) =~= Seq::<Observation>::empty());
        assert(start + pdf_observations(obs@.take(0), include_inferred) =~= start);
    }
    while i < obs.len()
        invariant
            i <= obs.len(),
            blocks(out@) == start + pdf_observations(obs@.take(i as int), include_inferred),
        decreases obs.len() - i,
    {
        proof {
            assert(obs@.take(i + 1).drop_last() =~= obs@.take(i as int));
            assert(obs@.take(i + 1).last() == obs@[i as int]);
        }
        let o = &obs[i];
        if observation_shown(include_inferred, o) {
            let color = match o.provenance {
                Provenance::Inferred => LineColor::Grey,
                _ => LineColor::Green,
            };
            push_block(out, ReportBlock::Line(observation_line("  • ", o), 10, color));
            proof {
                reveal_strlit("  • ");
                assert(blocks(out@) =~= start + pdf_observations(obs@.take(i + 1), include_inferred));
            }
        }
        i = i + 1;
    }
    assert(obs@.take(i as int) =~= obs@);
}

fn push_lines(out: &mut Vec<ReportBlock>, ts: Vec<String>, size: u32)
    ensures
        blocks(final(out)@) == blocks(old(out)@) + lines_of(texts(ts@), size as nat),
{
    let ghost start = blocks(out@);
    let mut i: usize = 0;
    while i < ts.len()
        invariant
            i <= ts.len(),
            blocks(out@) == start + lines_of(texts(ts@.take(i as int)), size as nat),
        decreases ts.len() - i,
    {
        push_block(out, black(ts[i].clone(), size));
        i = i + 1;
        assert(blocks(out@) =~= start + lines_of(texts(ts@.take(i as int)), size as nat));
    }
    assert(ts@.take(i as int) =~= ts@);
}

/// The audit lines of the rows.
pub fn audit_lines(rows: &Vec<AuditRow>) -> (r: Vec<String>)
    requires
        rows_cuttable(rows@),
    ensures
        texts(r@) == audit_texts(rows@),
{
    let mut out: Vec<String> = Vec::new();
    let mut i: usize = 0;
    while i < rows.len()
        invariant
            i <= rows.len(),
            rows_cuttable(rows@),
            texts(out@) == audit_texts(rows@.take(i as int)),
        decreases rows.len() - i,
    {
        let r = &rows[i];
        assert(hash_cuttable(rows@[i as int].hash@));
        let ghost before = out@;
        let l = audit_line(r.timestamp.as_str(), r.action.as_str(), r.entity_kind.as_str(), r.actor.as_str(), r.sequence, r.hash.as_str());
        assert(l@ == audit_row_text(rows@[i as int]));
        out.push(l);
        proof {
            assert(rows@.take(i + 1).drop_last() =~= rows@.take(i as int));
            assert(texts(out@) =~= texts(before).push(l@));
            assert(audit_texts(rows@.take(i + 1)) =~= audit_texts(rows@.take(i as int)).push(audit_row_text(rows@[i as int])));
        }
        i = i + 1;
    }
    assert(rows@.take(i as int) =~= rows@);
    out
}

fn pdf_cover_blocks(out: &mut Vec<ReportBlock>, opts: &ReportOptions, date: &str, n_entities: usize, total: usize)
    ensures
        blocks(final(out)@) == blocks(old(out)@) + pdf_cover(*opts, date@, n_entities as nat, total as nat),
{
    let ghost start = blocks(out@);
    push_block(out, ReportBlock::Title(opts.title.clone(), 24));
    let mut t = text_of("Dossier : ");
    push_str(&mut t, opts.case_id.as_str());
    push_block(out, black(t, 12));
    let mut t = text_of("Opérateur : ");
    push_str(&mut t, opts.operator.as_str());
    push_block(out, black(t, 12));
    let mut t = text_of("Date : ");
    push_str(&mut t, date);
    push_block(out, black(t, 12));
    push_block(out, ReportBlock::PageBreak);
    push_block(out, ReportBlock::Title(text_of("Résumé"), 16));
    push_block(out, black(summary_line(n_entities, total), 11));
    push_block(out, ReportBlock::PageBreak);
    push_block(out, ReportBlock::Title(text_of("Entités et observations"), 16));
    assert(blocks(out@) =~= start + pdf_cover(*opts, date@, n_entities as nat, total as nat));
}

fn pdf_entity_blocks(
    out: &mut Vec<ReportBlock>,
    entities: &Vec<Entity>,
    entity_obs: &Vec<(String, Vec<Observation>)>,
    include_inferred: bool,
)
    ensures
        blocks(final(out)@) == blocks(old(out)@) + pdf_entities(entities@, entity_obs@, include_inferred),
{
    let ghost head = blocks(out@);
    let mut i: usize = 0;
    proof {
        assert(entities@.take(0) =~= Seq::<Entity>::empty());
        assert(head + pdf_entities(entities@.take(0), entity_obs@, include_inferred) =~= head);
    }
    while i < entities.len()
        invariant
            i <= entities.len(),
            blocks(out@) == head + pdf_entities(entities@.take(i as int), entity_obs@, include_inferred),
        decreases entities.len() - i,
    {
        proof {
            assert(entities@.take(i + 1).drop_last() =~= entities@.take(i as int));
            assert(entities@.take(i + 1).last() == entities@[i as int]);
        }
        let e = &entities[i];
        let ghost before = blocks(out@);
        push_block(out, black(entity_line(e), 11));
        match find_observations(entity_obs, &e.id) {
            Some(obs) => pdf_observation_blocks(out, obs, include_inferred),
            None => {},
        }
        push_block(out, ReportBlock::Space(4));
        proof {
            let part = pdf_entity(*e, observations_of(entity_obs@, e.id@), include_inferred);
            assert(blocks(out@) =~= before + part);
            assert(blocks(out@) =~= head + pdf_entities(entities@.take(i + 1), entity_obs@, include_inferred));
        }
        i = i + 1;
    }
    assert(entities@.take(i as int) =~= entities@);
}

fn pdf_audit_blocks(out: &mut Vec<ReportBlock>, audit: &Vec<AuditRow>)
    requires
        rows_cuttable(audit@),
    ensures
        blocks(final(out)@) == blocks(old(out)@) + pdf_audit(audit@),
{
    let ghost start = blocks(out@);
    push_block(out, ReportBlock::PageBreak);
    push_block(out, ReportBlock::Title(text_of("Journal d'audit"), 16));
    if audit.len() == 0 {
        push_block(out, black(text_of("Aucun événement d'audit enregistré."), 11));
    } else {
        push_lines(out, audit_lines(audit), 9);
    }
    assert(blocks(out@) =~= start + pdf_audit(audit@));
}

fn pdf_annex_blocks(out: &mut Vec<ReportBlock>, entity_obs: &Vec<(String, Vec<Observation>)>)
    ensures
        blocks(final(out)@) == blocks(old(out)@) + pdf_annex(evidence_lines_spec(entity_obs@)),
{
    let ghost start = blocks(out@);
    push_block(out, ReportBlock::PageBreak);
    push_block(out, ReportBlock::Title(text_of("Annexes — Empreintes de preuves"), 16));
    let hashes = evidence_lines(entity_obs);
    if hashes.len() == 0 {
        push_block(out, black(text_of("Aucune empreinte brute associée aux observations."), 11));
    } else {
        push_lines(out, hashes, 9);
    }
    assert(blocks(out@) =~= start + pdf_annex(evidence_lines_spec(entity_obs@)));
}

/// The blocks of the PDF report of a case, dated `date`.
pub fn pdf_blocks(
    opts: &ReportOptions,
    entities: &Vec<Entity>,
    entity_obs: &Vec<(String, Vec<Observation>)>,
    audit: &Vec<AuditRow>,
    date: &str,
) -> (r: Vec<ReportBlock>)
    requires
        observation_total(entity_obs@) <= usize::MAX,
        rows_cuttable(audit@),
    ensures
        blocks(r@) == pdf_blocks_spec(*opts, entities@, entity_obs@, audit@, date@),
{
    let mut out: Vec<ReportBlock> = Vec::new();
    assert(blocks(out@) =~= Seq::<Block>::empty());
    let total = total_observations(entity_obs);
    pdf_cover_blocks(&mut out, opts, date, entities.len(), total);
    pdf_entity_blocks(&mut out, entities, entity_obs, opts.include_inferred);
    pdf_audit_blocks(&mut out, audit);
    pdf_annex_blocks(&mut out, entity_obs);
    assert(blocks(out@) =~= pdf_blocks_spec(*opts, entities@, entity_obs@, audit@, date@));
    out
}

// ---------------------------------------------------------------------------
// DOCX
// ---------------------------------------------------------------------------

/// A plain paragraph.
pub open spec fn plain(t: Seq<char>) -> (Seq<char>, bool, bool) {
    (t, false, false)
}

/// A bold paragraph.
pub open spec fn bold(t: Seq<char>) -> (Seq<char>, bool, bool) {
    (t, true, false)
}

/// The paragraphs of the observations shown.
pub open spec fn docx_observations(obs: Seq<Observation>, include_inferred: bool) -> Seq<(Seq<char>, bool, bool)>
    decreases obs.len(),
{
    if obs.len() == 0 {
        Seq::empty()
    } else if shown(include_inferred, obs.last()) {
        docx_observations(obs.drop_last(), include_inferred).push(plain(observation_line_text("• "@, obs.last())))
    } else {
        docx_observations(obs.drop_last(), include_inferred)
    }
}

/// The paragraphs of the entities: each one's line in bold, then its
/// observations.
pub open spec fn docx_entities(
    es: Seq<Entity>,
    entity_obs: Seq<(String, Vec<Observation>)>,
    include_inferred: bool,
) -> Seq<(Seq<char>, bool, bool)>
    decreases es.len(),
{
    if es.len() == 0 {
        Seq::empty()
    } else {
        docx_entities(es.drop_last(), entity_obs, include_inferred) + seq![bold(entity_line_text(es.last()))]
            + match observations_of(entity_obs, es.last().id@) {
            Some(l) => docx_observations(l, include_inferred),
            None => Seq::empty(),
        }
    }
}

/// Plain paragraphs of the given texts.
pub open spec fn plains(ts: Seq<Seq<char>>) -> Seq<(Seq<char>, bool, bool)> {
    ts.map_values(|t: Seq<char>| plain(t))
}

/// The paragraphs of the DOCX report: the title (bold, centred); case,
/// operator and date; the summary; the entities and their observations;
/// the audit trail; the evidence annex; the closing sentence.
pub open spec fn docx_spec(
    opts: ReportOptions,
    es: Seq<Entity>,
    entity_obs: Seq<(String, Vec<Observation>)>,
    audit: Seq<AuditRow>,
    date: Seq<char>,
) -> Seq<(Seq<char>, bool, bool)> {
    let evidence = evidence_lines_spec(entity_obs);
    seq![
        (opts.title@, true, true),
        plain("Dossier : "@ + opts.case_id@ + "  |  Opérateur : "@ + opts.operator@ + "  |  Date : "@ + date),
        bold("Résumé"@),
        plain(summary_text(es.len(), observation_total(entity_obs))),
        bold("Entités et observations"@),
    ] + docx_entities(es, entity_obs, opts.include_inferred) + seq![bold("Journal d'audit"@)] + (if audit.len()
        == 0 {
        seq![plain(no_audit())]
    } else {
        plains(audit_texts(audit))
    }) + seq![bold("Annexes — Empreintes de preuves"@)] + (if evidence.len() == 0 {
        seq![plain(no_evidence())]
    } else {
        plains(evidence)
    }) + seq![plain(disclaimer())]
}

fn push_paragraph(v: &mut Vec<Paragraph>, text: String, bold: bool, centered: bool)
    ensures
        paragraphs(final(v)@) == paragraphs(old(v)@).push((text@, bold, centered)),
{
    let ghost before = v@;
    v.push(Paragraph { text, bold, centered });
    assert(paragraphs(v@) =~= paragraphs(before).push((text@, bold, centered)));
}

fn docx_observation_paragraphs(out: &mut Vec<Paragraph>, obs: &Vec<Observation>, include_inferred: bool)
    ensures
        paragraphs(final(out)@) == paragraphs(old(out)@) + docx_observations(obs@, include_inferred),
{
    let ghost start = paragraphs(out@);
    let mut i: usize = 0;
    proof {
        assert(obs@.take(0) =~= Seq::<Observation>::empty());
        assert(start + docx_observations(obs@.take(0), include_inferred) =~= start);
    }
    while i < obs.len()
        invariant
            i <= obs.len(),
            paragraphs(out@) == start + docx_observations(obs@.take(i as int), include_inferred),
        decreases obs.len() - i,
    {
        proof {
            assert(obs@.take(i + 1).drop_last() =~= obs@.take(i as int));
            assert(obs@.take(i + 1).last() == obs@[i as int]);
        }
        let o = &obs[i];
        if observation_shown(include_inferred, o) {
            push_paragraph(out, observation_line("• ", o), false, false);
            proof {
                reveal_strlit("• ");
                assert(paragraphs(out@) =~= start + docx_observations(obs@.take(i + 1), include_inferred));
            }
        }
        i = i + 1;
    }
    assert(obs@.take(i as int) =~= obs@);
}

fn push_plains(out: &mut Vec<Paragraph>, ts: Vec<String>)
    ensures
        paragraphs(final(out)@) == paragraphs(old(out)@) + plains(texts(ts@)),
{
    let ghost start = paragraphs(out@);
    let mut i: usize = 0;
    while i < ts.len()
        invariant
            i <= ts.len(),
            paragraphs(out@) == start + plains(texts(ts@.take(i as int))),
        decreases ts.len() - i,
    {
        push_paragraph(out, ts[i].clone(), false, false);
        i = i + 1;
        assert(paragraphs(out@) =~= start + plains(texts(ts@.take(i as int))));
    }
    assert(ts@.take(i as int) =~= ts@);
}

/// The paragraphs of the DOCX report of a case, dated `date`.
pub fn docx_paragraphs(
    opts: &ReportOptions,
    entities: &Vec<Entity>,
    entity_obs: &Vec<(String, Vec<Observation>)>,
    audit: &Vec<AuditRow>,
    date: &str,
) -> (r: Vec<Paragraph>)
    requires
        observation_total(entity_obs@) <= usize::MAX,
        rows_cuttable(audit@),
    ensures
        paragraphs(r@) == docx_spec(*opts, entities@, entity_obs@, audit@, date@),
{
    let mut out: Vec<Paragraph> = Vec::new();
    push_paragraph(&mut out, opts.title.clone(), true, true);
    let mut t = text_of("Dossier : ");
    push_str(&mut t, opts.case_id.as_str());
    push_str(&mut t, "  |  Opérateur : ");
    push_str(&mut t, opts.operator.as_str());
    push_str(&mut t, "  |  Date : ");
    push_str(&mut t, date);
    push_paragraph(&mut out, t, false, false);
    push_paragraph(&mut out, text_of("Résumé"), true, false);
    let total = total_observations(entity_obs);
    push_paragraph(&mut out, summary_line(entities.len(), total), false, false);
    push_paragraph(&mut out, text_of("Entités et observations"), true, false);
    let ghost head = paragraphs(out@);
    let mut i: usize = 0;
    proof {
        assert(entities@.take(0) =~= Seq::<Entity>::empty());
        assert(head + docx_entities(entities@.take(0), entity_obs@, opts.include_inferred) =~= head);
    }
    while i < entities.len()
        invariant
            i <= entities.len(),
            paragraphs(out@) == head + docx_entities(entities@.take(i as int), entity_obs@, opts.include_inferred),
        decreases entities.len() - i,
    {
        proof {
            assert(entities@.take(i + 1).drop_last() =~= entities@.take(i as int));
            assert(entities@.take(i + 1).last() == entities@[i as int]);
        }
        let e = &entities[i];
        let ghost before = paragraphs(out@);
        push_paragraph(&mut out, entity_line(e), true, false);
        match find_observations(entity_obs, &e.id) {
            Some(obs) => docx_observation_paragraphs(&mut out, obs, opts.include_inferred),
            None => {},
        }
        proof {
            assert(paragraphs(out@) =~= head + docx_entities(entities@.take(i + 1), entity_obs@, opts.include_inferred));
        }
        i = i + 1;
    }
    proof {
        assert(entities@.take(i as int) =~= entities@);
    }
    push_paragraph(&mut out, text_of("Journal d'audit"), true, false);
    if audit.len() == 0 {
        push_paragraph(&mut out, text_of("Aucun événement d'audit enregistré."), false, false);
    } else {
        push_plains(&mut out, audit_lines(audit));
    }
    push_paragraph(&mut out, text_of("Annexes — Empreintes de preuves"), true, false);
    let hashes = evidence_lines(entity_obs);
    if hashes.len() == 0 {
        push_paragraph(&mut out, text_of("Aucune empreinte brute associée aux observations."), false, false);
    } else {
        push_plains(&mut out, hashes);
    }
    push_paragraph(
        &mut out,
        text_of("Rapport généré par SPECTRA. Les observations marquées « Inferred » ne sont pas des preuves."),
        false,
        false,
    );
    proof {
        assert(paragraphs(out@) =~= docx_spec(*opts, entities@, entity_obs@, audit@, date@));
    }
    out
}

} // verus!
