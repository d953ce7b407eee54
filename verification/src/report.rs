//! Case reports: Markdown and HTML texts, and the lines that the PDF and
//! DOCX documents are made of.
//!
//! Every report holds the case's metadata, a summary, the entities found
//! and their observations; observations inferred by a model are left out
//! unless asked for.

use vstd::prelude::*;
use crate::entity::{
    AdmiraltyCode, Entity, InformationCredibility, Observation, PropertyValue, Provenance,
    SourceReliability, admiralty_spec, kind_name, property_json_spec,
};
use crate::text::{chars_of, decimal, decimal_spec, push_char, push_str, string_of};
use vstd::utf8::encode_utf8;

verus! {

// ---------------------------------------------------------------------------
// Options
// ---------------------------------------------------------------------------

/// Output format of a report.
#[derive(Debug, Clone, Copy, PartialEq, Eq, Structural)]
pub enum ReportFormat {
    /// Plain Markdown, diffable.
    Markdown,
    /// Standalone HTML, readable offline.
    Html,
    /// Paged PDF, for handing over.
    Pdf,
    /// DOCX, for review and annotation.
    Docx,
}

/// Options of a report.
#[derive(Debug, Clone)]
pub struct ReportOptions {
    pub title: String,
    pub case_id: String,
    pub operator: String,
    /// Include the observations inferred by a model.
    pub include_inferred: bool,
    pub format: ReportFormat,
}

/// Error of report generation.
#[derive(Debug, Clone)]
pub enum ReportError {
    /// Error of the case store.
    Store(String),
    /// JSON error.
    Json(String),
    /// Error building the document.
    Pdf(String),
}

/// Report engine.
#[derive(Debug, Clone)]
pub struct ReportEngine;

impl ReportEngine {
    /// A new engine.
    pub fn new() -> (r: ReportEngine)
        ensures
            r == ReportEngine,
    {
        ReportEngine
    }
}

// ---------------------------------------------------------------------------
// Small texts
// ---------------------------------------------------------------------------

/// The name of a provenance, as `{:?}` writes it.
pub open spec fn provenance_name(p: Provenance) -> Seq<char> {
    match p {
        Provenance::Collected => "Collected"@,
        Provenance::Asserted => "Asserted"@,
        Provenance::Inferred => "Inferred"@,
    }
}

fn provenance_text(p: Provenance) -> (r: &'static str)
    ensures
        r@ == provenance_name(p),
{
    match p {
        Provenance::Collected => "Collected",
        Provenance::Asserted => "Asserted",
        Provenance::Inferred => "Inferred",
    }
}

/// An Admiralty code as `{:?}` writes it.
pub open spec fn admiralty_debug(c: AdmiraltyCode) -> Seq<char> {
    "AdmiraltyCode { source_reliability: "@ + match c.source_reliability {
        SourceReliability::A => "A"@,
        SourceReliability::B => "B"@,
        SourceReliability::C => "C"@,
        SourceReliability::D => "D"@,
        SourceReliability::E => "E"@,
        SourceReliability::F => "F"@,
    } + ", information_credibility: "@ + match c.information_credibility {
        InformationCredibility::V1 => "V1"@,
        InformationCredibility::V2 => "V2"@,
        InformationCredibility::V3 => "V3"@,
        InformationCredibility::V4 => "V4"@,
        InformationCredibility::V5 => "V5"@,
        InformationCredibility::V6 => "V6"@,
    } + " }"@
}

/// Law: the confidence a report shows reads back as the observation's
/// code: its reliability letter (36th character on) and its credibility
/// digit (65th) are the two characters `AdmiraltyCode::from_str` reads as
/// that code, so distinct codes show distinctly.
pub proof fn law_shown_confidence_reads_back(c: AdmiraltyCode, d: AdmiraltyCode)
    ensures
        admiralty_debug(c).len() > 65,
        admiralty_spec(seq![admiralty_debug(c)[36], admiralty_debug(c)[65]]) == Some(c),
        admiralty_debug(c) == admiralty_debug(d) ==> c == d,
{
    reveal_strlit("AdmiraltyCode { source_reliability: ");
    reveal_strlit(", information_credibility: ");
    reveal_strlit(" }");
    reveal_strlit("A");
    reveal_strlit("B");
    reveal_strlit("C");
    reveal_strlit("D");
    reveal_strlit("E");
    reveal_strlit("F");
    reveal_strlit("V1");
    reveal_strlit("V2");
    reveal_strlit("V3");
    reveal_strlit("V4");
    reveal_strlit("V5");
    reveal_strlit("V6");
    let t = admiralty_debug(c);
    let u = admiralty_debug(d);
    assert(t[36] == u[36] && t[65] == u[65] ==> c == d) by {
        let x = seq![t[36], t[65]];
        assert(admiralty_spec(x) == Some(c));
        let y = seq![u[36], u[65]];
        assert(admiralty_spec(y) == Some(d));
        if t[36] == u[36] && t[65] == u[65] {
            assert(x =~= y);
        }
    }
}

fn admiralty_text(c: AdmiraltyCode) -> (r: String)
    ensures
        r@ == admiralty_debug(c),
{
    let mut r = String::from_str("AdmiraltyCode { source_reliability: ");
    push_str(&mut r, match c.source_reliability {
        SourceReliability::A => "A",
        SourceReliability::B => "B",
        SourceReliability::C => "C",
        SourceReliability::D => "D",
        SourceReliability::E => "E",
        SourceReliability::F => "F",
    });
    push_str(&mut r, ", information_credibility: ");
    push_str(&mut r, match c.information_credibility {
        InformationCredibility::V1 => "V1",
        InformationCredibility::V2 => "V2",
        InformationCredibility::V3 => "V3",
        InformationCredibility::V4 => "V4",
        InformationCredibility::V5 => "V5",
        InformationCredibility::V6 => "V6",
    });
    push_str(&mut r, " }");
    r
}

/// `s` without its leading double quotes.
pub open spec fn strip_leading_quotes(s: Seq<char>) -> Seq<char>
    decreases s.len(),
{
    if s.len() > 0 && s[0] == '"' {
        strip_leading_quotes(s.drop_first())
    } else {
        s
    }
}

/// `s` without its trailing double quotes.
pub open spec fn strip_trailing_quotes(s: Seq<char>) -> Seq<char>
    decreases s.len(),
{
    if s.len() > 0 && s.last() == '"' {
        strip_trailing_quotes(s.drop_last())
    } else {
        s
    }
}

/// The value of an observation as reports show it: its JSON text without
/// the double quotes at either end.
pub open spec fn value_text(v: PropertyValue) -> Seq<char> {
    strip_trailing_quotes(strip_leading_quotes(property_json_spec(v)))
}

proof fn lemma_strip_leading_from(s: Seq<char>, i: int)
    requires
        0 <= i <= s.len(),
        forall|k: int| 0 <= k < i ==> #[trigger] s[k] == '"',
    ensures
        strip_leading_quotes(s) == strip_leading_quotes(s.skip(i)),
    decreases i,
{
    if i > 0 {
        assert(s.skip(i - 1).drop_first() =~= s.skip(i));
        assert(s.skip(i - 1)[0] == s[i - 1]);
        lemma_strip_leading_from(s, i - 1);
    } else {
        assert(s.skip(0) =~= s);
    }
}

proof fn lemma_strip_trailing_to(s: Seq<char>, j: int)
    requires
        0 <= j <= s.len(),
        forall|k: int| j <= k < s.len() ==> #[trigger] s[k] == '"',
    ensures
        strip_trailing_quotes(s) == strip_trailing_quotes(s.take(j)),
    decreases s.len() - j,
{
    if j < s.len() {
        assert(s.take(j + 1).drop_last() =~= s.take(j));
        assert(s.take(j + 1).last() == s[j]);
        lemma_strip_trailing_to(s, j + 1);
    } else {
        assert(s.take(j) =~= s);
    }
}

/// `str::trim_matches('"')`.
fn strip_quotes(s: &str) -> (r: String)
    ensures
        r@ == strip_trailing_quotes(strip_leading_quotes(s@)),
{
    let v = chars_of(s);
    let mut i: usize = 0;
    while i < v.len() && v[i] == '"'
        invariant
            i <= v.len(),
            forall|k: int| 0 <= k < i ==> #[trigger] v@[k] == '"',
        decreases v.len() - i,
    {
        i = i + 1;
    }
    proof {
        lemma_strip_leading_from(v@, i as int);
    }
    let ghost t = v@.skip(i as int);
    let mut j: usize = v.len();
    while j > i && v[j - 1] == '"'
        invariant
            i <= j <= v.len(),
            t == v@.skip(i as int),
            forall|k: int| j - i <= k < t.len() ==> #[trigger] t[k] == '"',
        decreases j,
    {
        j = j - 1;
    }
    proof {
        if i < v.len() {
            assert(t[0] != '"');
        }
        lemma_strip_trailing_to(t, j - i);
        if j > i {
            assert(t.take(j - i).last() == t[j - i - 1]);
        }
        assert(strip_leading_quotes(v@.skip(i as int)) == v@.skip(i as int));
    }
    let mut out: Vec<char> = Vec::new();
    let mut k: usize = i;
    while k < j
        invariant
            i <= k <= j <= v.len(),
            out@ == v@.subrange(i as int, k as int),
        decreases j - k,
    {
        out.push(v[k]);
        k = k + 1;
        assert(out@ =~= v@.subrange(i as int, k as int));
    }
    assert(out@ =~= t.take(j - i));
    string_of(&out)
}

fn value_string(v: &PropertyValue) -> (r: String)
    ensures
        r@ == value_text(*v),
{
    let j = v.to_json();
    strip_quotes(j.as_str())
}

/// The observation is shown: inferred ones only when asked for.
pub open spec fn shown(include_inferred: bool, o: Observation) -> bool {
    include_inferred || o.provenance != Provenance::Inferred
}

fn is_shown(include_inferred: bool, o: &Observation) -> (r: bool)
    ensures
        r == shown(include_inferred, *o),
{
    include_inferred || o.provenance != Provenance::Inferred
}

// ---------------------------------------------------------------------------
// Observations of the entities
// ---------------------------------------------------------------------------

/// The observations of the entity `id`: those of the first entry for it.
pub open spec fn observations_of(entity_obs: Seq<(String, Vec<Observation>)>, id: Seq<char>) -> Option<
    Seq<Observation>,
>
    decreases entity_obs.len(),
{
    if entity_obs.len() == 0 {
        None
    } else if entity_obs[0].0@ == id {
        Some(entity_obs[0].1@)
    } else {
        observations_of(entity_obs.drop_first(), id)
    }
}

pub(crate) fn find_observations<'a>(entity_obs: &'a Vec<(String, Vec<Observation>)>, id: &String) -> (r: Option<
    &'a Vec<Observation>,
>)
    ensures
        match r {
            None => observations_of(entity_obs@, id@) is None,
            Some(v) => observations_of(entity_obs@, id@) == Some(v@),
        },
{
    let mut i: usize = 0;
    proof {
        assert(entity_obs@.skip(0) =~= entity_obs@);
    }
    while i < entity_obs.len()
        invariant
            i <= entity_obs.len(),
            observations_of(entity_obs@, id@) == observations_of(entity_obs@.skip(i as int), id@),
        decreases entity_obs.len() - i,
    {
        proof {
            let s = entity_obs@.skip(i as int);
            assert(s.drop_first() =~= entity_obs@.skip(i + 1));
            assert(s[0] == entity_obs@[i as int]);
        }
        if entity_obs[i].0 == *id {
            return Some(&entity_obs[i].1);
        }
        i = i + 1;
    }
    None
}

/// The number of observations over all entries.
pub open spec fn observation_total(entity_obs: Seq<(String, Vec<Observation>)>) -> nat
    decreases entity_obs.len(),
{
    if entity_obs.len() == 0 {
        0
    } else {
        observation_total(entity_obs.drop_last()) + entity_obs.last().1@.len()
    }
}

fn count_observations(entity_obs: &Vec<(String, Vec<Observation>)>) -> (r: usize)
    requires
        observation_total(entity_obs@) <= usize::MAX,
    ensures
        r == observation_total(entity_obs@),
{
    let mut total: usize = 0;
    let mut i: usize = 0;
    while i < entity_obs.len()
        invariant
            i <= entity_obs.len(),
            total == observation_total(entity_obs@.take(i as int)),
            observation_total(entity_obs@) <= usize::MAX,
        decreases entity_obs.len() - i,
    {
        proof {
            assert(entity_obs@.take(i + 1).drop_last() =~= entity_obs@.take(i as int));
            lemma_total_prefix(entity_obs@, i + 1);
        }
        total = total + entity_obs[i].1.len();
        i = i + 1;
    }
    assert(entity_obs@.take(i as int) =~= entity_obs@);
    total
}

proof fn lemma_total_prefix(s: Seq<(String, Vec<Observation>)>, i: int)
    requires
        0 <= i <= s.len(),
    ensures
        observation_total(s.take(i)) <= observation_total(s),
    decreases s.len(),
{
    if i < s.len() {
        assert(s.drop_last().take(i) =~= s.take(i));
        lemma_total_prefix(s.drop_last(), i);
    } else {
        assert(s.take(i) =~= s);
    }
}

/// The summary sentence.
pub open spec fn summary_text(n_entities: nat, n_observations: nat) -> Seq<char> {
    decimal_spec(n_entities) + " entités, "@ + decimal_spec(n_observations) + " observations."@
}

/// The summary sentence: `N entités, M observations.`
pub fn summary_line(n_entities: usize, n_observations: usize) -> (r: String)
    ensures
        r@ == summary_text(n_entities as nat, n_observations as nat),
{
    let mut r = decimal(n_entities as u64);
    push_str(&mut r, " entités, ");
    push_str(&mut r, decimal(n_observations as u64).as_str());
    push_str(&mut r, " observations.");
    r
}

/// The closing sentence of every report.
pub open spec fn disclaimer() -> Seq<char> {
    "Rapport généré par SPECTRA. Les observations marquées « Inferred » ne sont pas des preuves."@
}

// ---------------------------------------------------------------------------
// Markdown
// ---------------------------------------------------------------------------

/// One observation in Markdown.
pub open spec fn markdown_observation(o: Observation) -> Seq<char> {
    "  - `"@ + o.predicate@ + "` = `"@ + value_text(o.value) + "` (source: "@ + o.source@ + ", confiance: "@
        + admiralty_debug(o.confidence) + ", provenance: "@ + provenance_name(o.provenance) + ")\n"@
}

/// The observations shown, in Markdown.
pub open spec fn markdown_observations(obs: Seq<Observation>, include_inferred: bool) -> Seq<char>
    decreases obs.len(),
{
    if obs.len() == 0 {
        Seq::empty()
    } else if shown(include_inferred, obs.last()) {
        markdown_observations(obs.drop_last(), include_inferred) + markdown_observation(obs.last())
    } else {
        markdown_observations(obs.drop_last(), include_inferred)
    }
}

/// One entity in Markdown, with its observations when it has some.
pub open spec fn markdown_entity(e: Entity, obs: Option<Seq<Observation>>, include_inferred: bool) -> Seq<char> {
    "### "@ + e.display_label@ + " (`"@ + e.canonical_value@ + "`)\n\n"@ + "- **Type :** "@ + kind_name(e.kind)
        + "\n"@ + "- **ID :** `"@ + e.id@ + "`\n"@ + match obs {
        Some(list) => if list.len() > 0 {
            "- **Observations :**\n"@ + markdown_observations(list, include_inferred)
        } else {
            Seq::empty()
        },
        None => Seq::empty(),
    } + "\n"@
}

/// The entities in Markdown.
pub open spec fn markdown_entities(
    es: Seq<Entity>,
    entity_obs: Seq<(String, Vec<Observation>)>,
    include_inferred: bool,
) -> Seq<char>
    decreases es.len(),
{
    if es.len() == 0 {
        Seq::empty()
    } else {
        markdown_entities(es.drop_last(), entity_obs, include_inferred) + markdown_entity(
            es.last(),
            observations_of(entity_obs, es.last().id@),
            include_inferred,
        )
    }
}

/// The head of the Markdown report: title, case, operator, date, summary.
pub open spec fn markdown_head(opts: ReportOptions, date: Seq<char>, n_entities: nat, n_observations: nat) -> Seq<char> {
    "# "@ + opts.title@ + "\n\n"@ + "**Dossier :** "@ + opts.case_id@ + "\n\n"@ + "**Opérateur :** "@
        + opts.operator@ + "\n\n"@ + "**Date :** "@ + date + "\n\n"@ + "---\n\n"@ + "## Résumé\n\n"@
        + summary_text(n_entities, n_observations) + "\n\n"@ + "## Entités\n\n"@
}

/// The Markdown report.
pub open spec fn markdown_report(
    opts: ReportOptions,
    es: Seq<Entity>,
    entity_obs: Seq<(String, Vec<Observation>)>,
    date: Seq<char>,
) -> Seq<char> {
    markdown_head(opts, date, es.len(), observation_total(entity_obs)) + markdown_entities(
        es,
        entity_obs,
        opts.include_inferred,
    ) + "---\n\n"@ + "*"@ + disclaimer() + "*\n"@
}

fn markdown_observation_line(o: &Observation) -> (r: String)
    ensures
        r@ == markdown_observation(*o),
{
    let mut r = String::from_str("  - `");
    push_str(&mut r, o.predicate.as_str());
    push_str(&mut r, "` = `");
    push_str(&mut r, value_string(&o.value).as_str());
    push_str(&mut r, "` (source: ");
    push_str(&mut r, o.source.as_str());
    push_str(&mut r, ", confiance: ");
    push_str(&mut r, admiralty_text(o.confidence).as_str());
    push_str(&mut r, ", provenance: ");
    push_str(&mut r, provenance_text(o.provenance));
    push_str(&mut r, ")\n");
    r
}

fn markdown_observation_lines(obs: &Vec<Observation>, include_inferred: bool) -> (r: String)
    ensures
        r@ == markdown_observations(obs@, include_inferred),
{
    let mut r = String::new();
    let mut i: usize = 0;
    while i < obs.len()
        invariant
            i <= obs.len(),
            r@ == markdown_observations(obs@.take(i as int), include_inferred),
        decreases obs.len() - i,
    {
        proof {
            assert(obs@.take(i + 1).drop_last() =~= obs@.take(i as int));
            assert(obs@.take(i + 1).last() == obs@[i as int]);
        }
        if is_shown(include_inferred, &obs[i]) {
            let line = markdown_observation_line(&obs[i]);
            push_str(&mut r, line.as_str());
        }
        i = i + 1;
    }
    assert(obs@.take(i as int) =~= obs@);
    r
}

fn markdown_entity_text(e: &Entity, obs: Option<&Vec<Observation>>, include_inferred: bool) -> (r: String)
    ensures
        r@ == markdown_entity(
            *e,
            match obs {
                None => None,
                Some(v) => Some(v@),
            },
            include_inferred,
        ),
{
    let mut r = String::from_str("### ");
    push_str(&mut r, e.display_label.as_str());
    push_str(&mut r, " (`");
    push_str(&mut r, e.canonical_value.as_str());
    push_str(&mut r, "`)\n\n");
    push_str(&mut r, "- **Type :** ");
    push_str(&mut r, e.kind.name());
    push_str(&mut r, "\n");
    push_str(&mut r, "- **ID :** `");
    push_str(&mut r, e.id.as_str());
    push_str(&mut r, "`\n");
    let ghost head = r@;
    let mut part = String::new();
    match obs {
        Some(list) => {
            if list.len() > 0 {
                part = String::from_str("- **Observations :**\n");
                push_str(&mut part, markdown_observation_lines(list, include_inferred).as_str());
            }
        },
        None => {},
    }
    push_str(&mut r, part.as_str());
    push_str(&mut r, "\n");
    proof {
        if obs is None || obs.unwrap()@.len() == 0 {
            assert(part@ =~= Seq::<char>::empty());
        }
    }
    r
}

/// The Markdown report of a case, dated `date`.
pub fn to_markdown(
    opts: &ReportOptions,
    entities: &Vec<Entity>,
    entity_obs: &Vec<(String, Vec<Observation>)>,
    date: &str,
) -> (r: String)
    requires
        observation_total(entity_obs@) <= usize::MAX,
    ensures
        r@ == markdown_report(*opts, entities@, entity_obs@, date@),
{
    let total = count_observations(entity_obs);
    let mut md = String::from_str("# ");
    push_str(&mut md, opts.title.as_str());
    push_str(&mut md, "\n\n");
    push_str(&mut md, "**Dossier :** ");
    push_str(&mut md, opts.case_id.as_str());
    push_str(&mut md, "\n\n");
    push_str(&mut md, "**Opérateur :** ");
    push_str(&mut md, opts.operator.as_str());
    push_str(&mut md, "\n\n");
    push_str(&mut md, "**Date :** ");
    push_str(&mut md, date);
    push_str(&mut md, "\n\n");
    push_str(&mut md, "---\n\n");
    push_str(&mut md, "## Résumé\n\n");
    push_str(&mut md, summary_line(entities.len(), total).as_str());
    push_str(&mut md, "\n\n");
    push_str(&mut md, "## Entités\n\n");
    let ghost head = md@;
    assert(head == markdown_head(*opts, date@, entities@.len(), observation_total(entity_obs@)));
    let mut body = String::new();
    let mut i: usize = 0;
    while i < entities.len()
        invariant
            i <= entities.len(),
            body@ == markdown_entities(entities@.take(i as int), entity_obs@, opts.include_inferred),
        decreases entities.len() - i,
    {
        proof {
            assert(entities@.take(i + 1).drop_last() =~= entities@.take(i as int));
            assert(entities@.take(i + 1).last() == entities@[i as int]);
        }
        let e = &entities[i];
        let obs = find_observations(entity_obs, &e.id);
        let t = markdown_entity_text(e, obs, opts.include_inferred);
        push_str(&mut body, t.as_str());
        i = i + 1;
    }
    assert(entities@.take(i as int) =~= entities@);
    push_str(&mut md, body.as_str());
    push_str(&mut md, "---\n\n");
    push_str(
        &mut md,
        "*Rapport généré par SPECTRA. Les observations marquées « Inferred » ne sont pas des preuves.*\n",
    );
    proof {
        assert(("*"@ + disclaimer() + "*\n"@) =~= "*Rapport généré par SPECTRA. Les observations marquées « Inferred » ne sont pas des preuves.*\n"@) by {
            reveal_strlit("*");
            reveal_strlit("*\n");
            reveal_strlit("Rapport généré par SPECTRA. Les observations marquées « Inferred » ne sont pas des preuves.");
            reveal_strlit("*Rapport généré par SPECTRA. Les observations marquées « Inferred » ne sont pas des preuves.*\n");
        }
        assert(md@ =~= markdown_report(*opts, entities@, entity_obs@, date@));
    }
    md
}

// ---------------------------------------------------------------------------
// HTML
// ---------------------------------------------------------------------------

/// How one character is written in HTML text: `&`, `<`, `>` and `"` as
/// entities, any other as itself.
pub open spec fn html_escape_char(c: char) -> Seq<char> {
    if c == '&' {
        "&amp;"@
    } else if c == '<' {
        "&lt;"@
    } else if c == '>' {
        "&gt;"@
    } else if c == '"' {
        "&quot;"@
    } else {
        seq![c]
    }
}

/// A text escaped for HTML.
pub open spec fn html_escape_spec(s: Seq<char>) -> Seq<char>
    decreases s.len(),
{
    if s.len() == 0 {
        Seq::empty()
    } else {
        html_escape_spec(s.drop_last()) + html_escape_char(s.last())
    }
}

/// Escapes `&`, `<`, `>` and `"` for HTML.
pub fn html_escape(s: &str) -> (r: String)
    ensures
        r@ == html_escape_spec(s@),
{
    let v = chars_of(s);
    let mut r = String::new();
    let mut i: usize = 0;
    while i < v.len()
        invariant
            i <= v.len(),
            v@ == s@,
            r@ == html_escape_spec(v@.take(i as int)),
        decreases v.len() - i,
    {
        proof {
            assert(v@.take(i + 1).drop_last() =~= v@.take(i as int));
            assert(v@.take(i + 1).last() == v@[i as int]);
        }
        let c = v[i];
        if c == '&' {
            push_str(&mut r, "&amp;");
        } else if c == '<' {
            push_str(&mut r, "&lt;");
        } else if c == '>' {
            push_str(&mut r, "&gt;");
        } else if c == '"' {
            push_str(&mut r, "&quot;");
        } else {
            let ghost before = r@;
            push_char(&mut r, c);
            assert(r@ =~= before + seq![c]);
        }
        i = i + 1;
    }
    assert(v@.take(i as int) =~= v@);
    r
}

/// The class of an observation in HTML.
pub open spec fn html_class(p: Provenance) -> Seq<char> {
    match p {
        Provenance::Inferred => "inferred"@,
        _ => "collected"@,
    }
}

/// One observation in an HTML cell.
pub open spec fn html_observation(o: Observation) -> Seq<char> {
    "<span class=\""@ + html_class(o.provenance) + "\">"@ + html_escape_spec(o.predicate@) + " = "@
        + html_escape_spec(value_text(o.value)) + " ("@ + html_escape_spec(o.source@) + ")</span><br>"@
}

/// The observations shown, in an HTML cell.
pub open spec fn html_observations(obs: Seq<Observation>, include_inferred: bool) -> Seq<char>
    decreases obs.len(),
{
    if obs.len() == 0 {
        Seq::empty()
    } else if shown(include_inferred, obs.last()) {
        html_observations(obs.drop_last(), include_inferred) + html_observation(obs.last())
    } else {
        html_observations(obs.drop_last(), include_inferred)
    }
}

/// One entity as a table row.
pub open spec fn html_row(e: Entity, obs: Option<Seq<Observation>>, include_inferred: bool) -> Seq<char> {
    "<tr><td>"@ + html_escape_spec(e.display_label@) + "</td><td>"@ + kind_name(e.kind) + "</td><td>"@
        + html_escape_spec(e.canonical_value@) + "</td><td>"@ + match obs {
        Some(list) => html_observations(list, include_inferred),
        None => Seq::empty(),
    } + "</td></tr>\n"@
}

/// The rows of the entity table.
pub open spec fn html_rows(
    es: Seq<Entity>,
    entity_obs: Seq<(String, Vec<Observation>)>,
    include_inferred: bool,
) -> Seq<char>
    decreases es.len(),
{
    if es.len() == 0 {
        Seq::empty()
    } else {
        html_rows(es.drop_last(), entity_obs, include_inferred) + html_row(
            es.last(),
            observations_of(entity_obs, es.last().id@),
            include_inferred,
        )
    }
}

/// The embedded style sheet, with the end of the head.
pub open spec fn html_style() -> Seq<char> {
    "<style>\n\
            body{font-family:system-ui,sans-serif;margin:2rem auto;max-width:900px;line-height:1.6;color:#222}\n\
            h1{border-bottom:2px solid #333;padding-bottom:.3rem}\n\
            h2{color:#444;border-bottom:1px solid #ccc}\n\
            table{border-collapse:collapse;width:100%;margin:1rem 0}\n\
            th,td{border:1px solid #ccc;padding:.5rem;text-align:left}\n\
            th{background:#f5f5f5}\n\
            .inferred{color:#888;font-style:italic}\n\
            .collected{color:#060;font-weight:700}\n\
            footer{margin-top:2rem;font-size:.85rem;color:#666;border-top:1px solid #ccc;padding-top:1rem}\n\
            </style>\n</head>\n<body>\n"@
}

/// The head of the HTML report, up to the table's first row.
pub open spec fn html_head(opts: ReportOptions, date: Seq<char>, n_entities: nat, n_observations: nat) -> Seq<char> {
    "<!DOCTYPE html>\n<html>\n<head>\n<meta charset=\"UTF-8\">\n"@ + "<title>"@ + html_escape_spec(opts.title@)
        + " — Rapport SPECTRA</title>\n"@ + html_style() + "<h1>"@ + html_escape_spec(opts.title@) + "</h1>\n"@
        + "<p><strong>Dossier :</strong> "@ + html_escape_spec(opts.case_id@)
        + "<br><strong>Opérateur :</strong> "@ + html_escape_spec(opts.operator@)
        + "<br><strong>Date :</strong> "@ + date + "</p>\n"@ + "<h2>Résumé</h2>\n"@ + "<p>"@ + summary_text(
        n_entities,
        n_observations,
    ) + "</p>\n"@ + "<h2>Entités</h2>\n<table>\n"@
        + "<tr><th>Label</th><th>Type</th><th>Valeur</th><th>Observations</th></tr>\n"@
}

/// The HTML report.
pub open spec fn html_report(
    opts: ReportOptions,
    es: Seq<Entity>,
    entity_obs: Seq<(String, Vec<Observation>)>,
    date: Seq<char>,
) -> Seq<char> {
    html_head(opts, date, es.len(), observation_total(entity_obs)) + html_rows(es, entity_obs, opts.include_inferred)
        + "</table>\n"@ + "<footer>\n"@ + disclaimer() + "\n"@ + "</footer>\n</body>\n</html>"@
}

fn html_observation_cell(o: &Observation) -> (r: String)
    ensures
        r@ == html_observation(*o),
{
    let mut r = String::from_str("<span class=\"");
    push_str(&mut r, match o.provenance {
        Provenance::Inferred => "inferred",
        _ => "collected",
    });
    push_str(&mut r, "\">");
    push_str(&mut r, html_escape(o.predicate.as_str()).as_str());
    push_str(&mut r, " = ");
    let val = value_string(&o.value);
    push_str(&mut r, html_escape(val.as_str()).as_str());
    push_str(&mut r, " (");
    push_str(&mut r, html_escape(o.source.as_str()).as_str());
    push_str(&mut r, ")</span><br>");
    r
}

fn html_observation_cells(obs: &Vec<Observation>, include_inferred: bool) -> (r: String)
    ensures
        r@ == html_observations(obs@, include_inferred),
{
    let mut r = String::new();
    let mut i: usize = 0;
    while i < obs.len()
        invariant
            i <= obs.len(),
            r@ == html_observations(obs@.take(i as int), include_inferred),
        decreases obs.len() - i,
    {
        proof {
            assert(obs@.take(i + 1).drop_last() =~= obs@.take(i as int));
            assert(obs@.take(i + 1).last() == obs@[i as int]);
        }
        if is_shown(include_inferred, &obs[i]) {
            let cell = html_observation_cell(&obs[i]);
            push_str(&mut r, cell.as_str());
        }
        i = i + 1;
    }
    assert(obs@.take(i as int) =~= obs@);
    r
}

fn html_row_text(e: &Entity, obs: Option<&Vec<Observation>>, include_inferred: bool) -> (r: String)
    ensures
        r@ == html_row(
            *e,
            match obs {
                None => None,
                Some(v) => Some(v@),
            },
            include_inferred,
        ),
{
    let cells = match obs {
        Some(list) => html_observation_cells(list, include_inferred),
        None => String::new(),
    };
    let mut r = String::from_str("<tr><td>");
    push_str(&mut r, html_escape(e.display_label.as_str()).as_str());
    push_str(&mut r, "</td><td>");
    push_str(&mut r, e.kind.name());
    push_str(&mut r, "</td><td>");
    push_str(&mut r, html_escape(e.canonical_value.as_str()).as_str());
    push_str(&mut r, "</td><td>");
    push_str(&mut r, cells.as_str());
    push_str(&mut r, "</td></tr>\n");
    r
}

fn html_head_text(opts: &ReportOptions, date: &str, n_entities: usize, n_observations: usize) -> (r: String)
    ensures
        r@ == html_head(*opts, date@, n_entities as nat, n_observations as nat),
{
    let mut html = String::from_str("<!DOCTYPE html>\n<html>\n<head>\n<meta charset=\"UTF-8\">\n");
    push_str(&mut html, "<title>");
    push_str(&mut html, html_escape(opts.title.as_str()).as_str());
    push_str(&mut html, " — Rapport SPECTRA</title>\n");
    push_str(
        &mut html,
        "<style>\n\
            body{font-family:system-ui,sans-serif;margin:2rem auto;max-width:900px;line-height:1.6;color:#222}\n\
            h1{border-bottom:2px solid #333;padding-bottom:.3rem}\n\
            h2{color:#444;border-bottom:1px solid #ccc}\n\
            table{border-collapse:collapse;width:100%;margin:1rem 0}\n\
            th,td{border:1px solid #ccc;padding:.5rem;text-align:left}\n\
            th{background:#f5f5f5}\n\
            .inferred{color:#888;font-style:italic}\n\
            .collected{color:#060;font-weight:700}\n\
            footer{margin-top:2rem;font-size:.85rem;color:#666;border-top:1px solid #ccc;padding-top:1rem}\n\
            </style>\n</head>\n<body>\n",
    );
    push_str(&mut html, "<h1>");
    push_str(&mut html, html_escape(opts.title.as_str()).as_str());
    push_str(&mut html, "</h1>\n");
    push_str(&mut html, "<p><strong>Dossier :</strong> ");
    push_str(&mut html, html_escape(opts.case_id.as_str()).as_str());
    push_str(&mut html, "<br><strong>Opérateur :</strong> ");
    push_str(&mut html, html_escape(opts.operator.as_str()).as_str());
    push_str(&mut html, "<br><strong>Date :</strong> ");
    push_str(&mut html, date);
    push_str(&mut html, "</p>\n");
    push_str(&mut html, "<h2>Résumé</h2>\n");
    push_str(&mut html, "<p>");
    push_str(&mut html, summary_line(n_entities, n_observations).as_str());
    push_str(&mut html, "</p>\n");
    push_str(&mut html, "<h2>Entités</h2>\n<table>\n");
    push_str(&mut html, "<tr><th>Label</th><th>Type</th><th>Valeur</th><th>Observations</th></tr>\n");
    html
}

/// The HTML report of a case, dated `date`.
pub fn to_html(
    opts: &ReportOptions,
    entities: &Vec<Entity>,
    entity_obs: &Vec<(String, Vec<Observation>)>,
    date: &str,
) -> (r: String)
    requires
        observation_total(entity_obs@) <= usize::MAX,
    ensures
        r@ == html_report(*opts, entities@, entity_obs@, date@),
{
    let total = count_observations(entity_obs);
    let mut html = html_head_text(opts, date, entities.len(), total);
    let mut rows = String::new();
    let mut i: usize = 0;
    while i < entities.len()
        invariant
            i <= entities.len(),
            rows@ == html_rows(entities@.take(i as int), entity_obs@, opts.include_inferred),
        decreases entities.len() - i,
    {
        proof {
            assert(entities@.take(i + 1).drop_last() =~= entities@.take(i as int));
            assert(entities@.take(i + 1).last() == entities@[i as int]);
        }
        let e = &entities[i];
        let obs = find_observations(entity_obs, &e.id);
        let t = html_row_text(e, obs, opts.include_inferred);
        push_str(&mut rows, t.as_str());
        i = i + 1;
    }
    assert(entities@.take(i as int) =~= entities@);
    push_str(&mut html, rows.as_str());
    push_str(&mut html, "</table>\n");
    push_str(&mut html, "<footer>\n");
    push_str(
        &mut html,
        "Rapport généré par SPECTRA. Les observations marquées « Inferred » ne sont pas des preuves.\n",
    );
    push_str(&mut html, "</footer>\n</body>\n</html>");
    proof {
        assert((disclaimer() + "\n"@) =~= "Rapport généré par SPECTRA. Les observations marquées « Inferred » ne sont pas des preuves.\n"@) by {
            reveal_strlit("\n");
            reveal_strlit("Rapport généré par SPECTRA. Les observations marquées « Inferred » ne sont pas des preuves.");
            reveal_strlit("Rapport généré par SPECTRA. Les observations marquées « Inferred » ne sont pas des preuves.\n");
        }
        assert(html@ =~= html_report(*opts, entities@, entity_obs@, date@));
    }
    html
}

// ---------------------------------------------------------------------------
// Lines of the PDF and DOCX documents
// ---------------------------------------------------------------------------

/// Whether a report shows the observation: inferred ones only when asked
/// for.
pub fn observation_shown(include_inferred: bool, o: &Observation) -> (r: bool)
    ensures
        r == shown(include_inferred, *o),
{
    is_shown(include_inferred, o)
}

/// An entity on one line: `label (Kind) — value`.
pub open spec fn entity_line_text(e: Entity) -> Seq<char> {
    e.display_label@ + " ("@ + kind_name(e.kind) + ") — "@ + e.canonical_value@
}

/// An entity on one line: `label (Kind) — value`.
pub fn entity_line(e: &Entity) -> (r: String)
    ensures
        r@ == entity_line_text(*e),
{
    let mut r = String::from_str(e.display_label.as_str());
    push_str(&mut r, " (");
    push_str(&mut r, e.kind.name());
    push_str(&mut r, ") — ");
    push_str(&mut r, e.canonical_value.as_str());
    r
}

/// An observation on one line, after `bullet`.
pub open spec fn observation_line_text(bullet: Seq<char>, o: Observation) -> Seq<char> {
    bullet + o.predicate@ + " = "@ + value_text(o.value) + " (source: "@ + o.source@ + ", confiance: "@
        + admiralty_debug(o.confidence) + ", provenance: "@ + provenance_name(o.provenance) + ")"@
}

/// An observation on one line, after `bullet` (`"  • "` in the PDF,
/// `"• "` in the DOCX).
pub fn observation_line(bullet: &str, o: &Observation) -> (r: String)
    ensures
        r@ == observation_line_text(bullet@, *o),
{
    let mut r = String::from_str(bullet);
    push_str(&mut r, o.predicate.as_str());
    push_str(&mut r, " = ");
    push_str(&mut r, value_string(&o.value).as_str());
    push_str(&mut r, " (source: ");
    push_str(&mut r, o.source.as_str());
    push_str(&mut r, ", confiance: ");
    push_str(&mut r, admiralty_text(o.confidence).as_str());
    push_str(&mut r, ", provenance: ");
    push_str(&mut r, provenance_text(o.provenance));
    push_str(&mut r, ")");
    r
}

/// Where the head of a hash ends: after its eighth byte (all of it when
/// shorter).
pub open spec fn head_cut(h: Seq<char>) -> int {
    let n = (encode_utf8(h).len() as usize) as int;
    if n < 8 { n } else { 8 }
}

/// Where the tail of a hash starts: eight bytes before its end (its start
/// when shorter).
pub open spec fn tail_cut(h: Seq<char>) -> int {
    let n = (encode_utf8(h).len() as usize) as int;
    if n < 8 { 0 } else { n - 8 }
}

/// A hash can be cut at both places: they fall between characters (always
/// so for a hexadecimal hash).
pub open spec fn hash_cuttable(h: Seq<char>) -> bool {
    &&& vstd::utf8::is_char_boundary(encode_utf8(h), head_cut(h))
    &&& vstd::utf8::is_char_boundary(encode_utf8(h), tail_cut(h))
}

/// The first eight bytes of a hash (all of it when shorter).
pub open spec fn hash_head(h: Seq<char>) -> Seq<char> {
    vstd::utf8::decode_utf8(encode_utf8(h).subrange(0, head_cut(h)))
}

/// The last eight bytes of a hash (all of it when shorter).
pub open spec fn hash_tail(h: Seq<char>) -> Seq<char> {
    vstd::utf8::decode_utf8(encode_utf8(h).subrange(tail_cut(h), encode_utf8(h).len() as int))
}

/// An audit event on one line, its hash cut to both ends.
pub open spec fn audit_line_text(
    timestamp: Seq<char>,
    action: Seq<char>,
    entity_kind: Seq<char>,
    actor: Seq<char>,
    sequence: nat,
    hash: Seq<char>,
) -> Seq<char> {
    "["@ + timestamp + "] "@ + action + " — "@ + entity_kind + " / "@ + actor + " (séq: "@ + decimal_spec(sequence)
        + ", hash: "@ + hash_head(hash) + "…"@ + hash_tail(hash) + ")"@
}

/// An audit event on one line: `[time] action — kind / actor (séq: n,
/// hash: first8…last8)`, the hash cut to its first and last eight bytes.
pub fn audit_line(
    timestamp: &str,
    action: &str,
    entity_kind: &str,
    actor: &str,
    sequence: u64,
    hash: &str,
) -> (r: String)
    requires
        hash_cuttable(hash@),
    ensures
        r@ == audit_line_text(timestamp@, action@, entity_kind@, actor@, sequence as nat, hash@),
{
    let n = hash.len();
    let head_end: usize = if n < 8 { n } else { 8 };
    let tail_start: usize = if n < 8 { 0 } else { n - 8 };
    let (head, _) = hash.split_at(head_end);
    let (_, tail) = hash.split_at(tail_start);
    proof {
        vstd::utf8::encode_utf8_decode_utf8(head@);
        vstd::utf8::encode_utf8_decode_utf8(tail@);
        assert(head@ == hash_head(hash@));
        assert(tail@ == hash_tail(hash@));
    }
    let mut r = String::from_str("[");
    push_str(&mut r, timestamp);
    push_str(&mut r, "] ");
    push_str(&mut r, action);
    push_str(&mut r, " — ");
    push_str(&mut r, entity_kind);
    push_str(&mut r, " / ");
    push_str(&mut r, actor);
    push_str(&mut r, " (séq: ");
    push_str(&mut r, decimal(sequence).as_str());
    push_str(&mut r, ", hash: ");
    push_str(&mut r, head);
    push_str(&mut r, "…");
    push_str(&mut r, tail);
    push_str(&mut r, ")");
    r
}

/// The evidence lines of a list of observations: `id : raw hash` for each
/// observation with an archived raw content.
pub open spec fn evidence_of(obs: Seq<Observation>) -> Seq<Seq<char>>
    decreases obs.len(),
{
    if obs.len() == 0 {
        Seq::empty()
    } else {
        match obs.last().raw_hash {
            Some(h) => evidence_of(obs.drop_last()).push(obs.last().id@ + " : "@ + h@),
            None => evidence_of(obs.drop_last()),
        }
    }
}

/// The evidence lines of every entry, entry after entry.
pub open spec fn evidence_lines_spec(entity_obs: Seq<(String, Vec<Observation>)>) -> Seq<Seq<char>>
    decreases entity_obs.len(),
{
    if entity_obs.len() == 0 {
        Seq::empty()
    } else {
        evidence_lines_spec(entity_obs.drop_last()) + evidence_of(entity_obs.last().1@)
    }
}

/// The views of a list of strings.
pub open spec fn texts(v: Seq<String>) -> Seq<Seq<char>> {
    v.map_values(|s: String| s@)
}

fn push_evidence(out: &mut Vec<String>, obs: &Vec<Observation>)
    ensures
        texts(final(out)@) == texts(old(out)@) + evidence_of(obs@),
{
    let ghost start = texts(out@);
    let mut i: usize = 0;
    while i < obs.len()
        invariant
            i <= obs.len(),
            texts(out@) == start + evidence_of(obs@.take(i as int)),
        decreases obs.len() - i,
    {
        proof {
            assert(obs@.take(i + 1).drop_last() =~= obs@.take(i as int));
            assert(obs@.take(i + 1).last() == obs@[i as int]);
        }
        match &obs[i].raw_hash {
            Some(h) => {
                let mut line = obs[i].id.clone();
                push_str(&mut line, " : ");
                push_str(&mut line, h.as_str());
                let ghost before = out@;
                out.push(line);
                assert(texts(out@) =~= texts(before).push(line@));
                assert(texts(out@) =~= start + evidence_of(obs@.take(i + 1)));
            },
            None => {},
        }
        i = i + 1;
    }
    assert(obs@.take(i as int) =~= obs@);
}

/// The evidence appendix: `id : raw hash` for every observation with an
/// archived raw content, entry after entry.
pub fn evidence_lines(entity_obs: &Vec<(String, Vec<Observation>)>) -> (r: Vec<String>)
    ensures
        texts(r@) == evidence_lines_spec(entity_obs@),
{
    let mut out: Vec<String> = Vec::new();
    let mut i: usize = 0;
    assert(texts(out@) =~= Seq::<Seq<char>>::empty());
    while i < entity_obs.len()
        invariant
            i <= entity_obs.len(),
            texts(out@) == evidence_lines_spec(entity_obs@.take(i as int)),
        decreases entity_obs.len() - i,
    {
        proof {
            assert(entity_obs@.take(i + 1).drop_last() =~= entity_obs@.take(i as int));
            assert(entity_obs@.take(i + 1).last() == entity_obs@[i as int]);
        }
        push_evidence(&mut out, &entity_obs[i].1);
        i = i + 1;
    }
    assert(entity_obs@.take(i as int) =~= entity_obs@);
    out
}

/// The number of observations over all entries, for the summary.
pub fn total_observations(entity_obs: &Vec<(String, Vec<Observation>)>) -> (r: usize)
    requires
        observation_total(entity_obs@) <= usize::MAX,
    ensures
        r == observation_total(entity_obs@),
{
    count_observations(entity_obs)
}

// ---------------------------------------------------------------------------
// Laws
// ---------------------------------------------------------------------------

/// The observations that were not inferred by a model, in order.
pub open spec fn not_inferred(obs: Seq<Observation>) -> Seq<Observation>
    decreases obs.len(),
{
    if obs.len() == 0 {
        Seq::empty()
    } else if obs.last().provenance == Provenance::Inferred {
        not_inferred(obs.drop_last())
    } else {
        not_inferred(obs.drop_last()).push(obs.last())
    }
}

/// Unless asked for, a report shows exactly the observations that were not
/// inferred by a model (Markdown and HTML alike).
pub proof fn law_inferred_observations_left_out(obs: Seq<Observation>)
    ensures
        markdown_observations(obs, false) == markdown_observations(not_inferred(obs), true),
        html_observations(obs, false) == html_observations(not_inferred(obs), true),
    decreases obs.len(),
{
    if obs.len() > 0 {
        law_inferred_observations_left_out(obs.drop_last());
        let n = not_inferred(obs.drop_last());
        if obs.last().provenance != Provenance::Inferred {
            assert(not_inferred(obs).drop_last() =~= n);
            assert(not_inferred(obs).last() == obs.last());
        }
    }
}

/// Escaped text holds no `<`, `>` or `"`: what it shows cannot open or
/// close a tag or an attribute.
pub proof fn law_escaped_text_has_no_markup(s: Seq<char>)
    ensures
        !html_escape_spec(s).contains('<'),
        !html_escape_spec(s).contains('>'),
        !html_escape_spec(s).contains('"'),
    decreases s.len(),
{
    if s.len() > 0 {
        law_escaped_text_has_no_markup(s.drop_last());
        let p = html_escape_spec(s.drop_last());
        let e = html_escape_char(s.last());
        reveal_strlit("&amp;");
        reveal_strlit("&lt;");
        reveal_strlit("&gt;");
        reveal_strlit("&quot;");
        assert(!e.contains('<') && !e.contains('>') && !e.contains('"')) by {
            if e.contains('<') || e.contains('>') || e.contains('"') {
                let k = choose|k: int| 0 <= k < e.len() && (e[k] == '<' || e[k] == '>' || e[k] == '"');
            }
        }
        assert forall|c: char| (c == '<' || c == '>' || c == '"') implies !(p + e).contains(c) by {
            if (p + e).contains(c) {
                let k = choose|k: int| 0 <= k < (p + e).len() && (p + e)[k] == c;
                if k < p.len() {
                    assert(p[k] == c);
                } else {
                    assert(e[k - p.len()] == c);
                }
            }
        }
    }
}

} // verus!
