//! Local AI helpers: the prompts sent to the model and how its answers are
//! read. Everything a model produces is marked `Inferred`.

use vstd::prelude::*;
use crate::collect::whois::{lemma_no_lines, lines_spec, next_line};
use crate::entity::{
    AdmiraltyCode, Entity, EntityKind, InformationCredibility, Observation, PropertyValue, Provenance,
    SourceReliability, kind_name,
};
use crate::text::{chars_of, lowercase, push_str, string_of, to_lowercase, trim, trimmed};

verus! {

// ---------------------------------------------------------------------------
// Entity kinds named by the model
// ---------------------------------------------------------------------------

/// The kind a name given by the model stands for (any case); anything else
/// is an alias.
pub open spec fn kind_of_name(lower: Seq<char>) -> EntityKind {
    if lower == "person"@ {
        EntityKind::Person
    } else if lower == "organization"@ {
        EntityKind::Organization
    } else if lower == "location"@ {
        EntityKind::Location
    } else if lower == "email"@ {
        EntityKind::EmailAddress
    } else if lower == "phone"@ {
        EntityKind::PhoneNumber
    } else if lower == "username"@ {
        EntityKind::Username
    } else if lower == "domain"@ {
        EntityKind::Domain
    } else {
        EntityKind::Alias
    }
}

/// The name the extraction prompt asks the model to give a kind, for the
/// seven kinds it knows.
pub open spec fn model_kind_name(k: EntityKind) -> Option<Seq<char>> {
    match k {
        EntityKind::Person => Some("person"@),
        EntityKind::Organization => Some("organization"@),
        EntityKind::Location => Some("location"@),
        EntityKind::EmailAddress => Some("email"@),
        EntityKind::PhoneNumber => Some("phone"@),
        EntityKind::Username => Some("username"@),
        EntityKind::Domain => Some("domain"@),
        _ => None,
    }
}

/// Law: each of the seven kind names the model may give (in any case, once
/// lower-cased) reads back as its own kind, never as an alias.
pub proof fn law_model_kind_names_read_back(k: EntityKind)
    ensures
        model_kind_name(k) matches Some(n) ==> kind_of_name(n) == k && kind_of_name(n) != EntityKind::Alias,
{
    reveal_strlit("person");
    reveal_strlit("organization");
    reveal_strlit("location");
    reveal_strlit("email");
    reveal_strlit("phone");
    reveal_strlit("username");
    reveal_strlit("domain");
    assert("person"@.len() == 6 && "person"@[0] == 'p');
    assert("organization"@.len() == 12);
    assert("location"@.len() == 8);
    assert("email"@.len() == 5 && "email"@[0] == 'e');
    assert("phone"@.len() == 5 && "phone"@[0] == 'p');
    assert("username"@.len() == 8 && "username"@[0] == 'u');
    assert("location"@[0] == 'l');
    assert("domain"@.len() == 6 && "domain"@[0] == 'd');
}

/// The entity kind named by the model.
pub fn parse_kind(s: &str) -> (r: EntityKind)
    ensures
        r == kind_of_name(lowercase(s@)),
{
    let l = to_lowercase(s);
    if l == String::from_str("person") {
        EntityKind::Person
    } else if l == String::from_str("organization") {
        EntityKind::Organization
    } else if l == String::from_str("location") {
        EntityKind::Location
    } else if l == String::from_str("email") {
        EntityKind::EmailAddress
    } else if l == String::from_str("phone") {
        EntityKind::PhoneNumber
    } else if l == String::from_str("username") {
        EntityKind::Username
    } else if l == String::from_str("domain") {
        EntityKind::Domain
    } else {
        EntityKind::Alias
    }
}

// ---------------------------------------------------------------------------
// Prompts
// ---------------------------------------------------------------------------

/// The prompt that asks for a summary of `text`.
pub fn summarize_prompt(text: &str) -> (r: String)
    ensures
        r@ == "Résume le texte suivant en français de manière concise (2-3 phrases maximum) :\n\n"@ + text@,
{
    let mut r = String::from_str("Résume le texte suivant en français de manière concise (2-3 phrases maximum) :\n\n");
    push_str(&mut r, text);
    r
}

/// The prompt that asks for the entities of `text`, as a JSON array.
pub fn extraction_prompt(text: &str) -> (r: String)
    ensures
        r@ == "Extrait les entités du texte suivant. Réponds UNIQUEMENT sous forme de JSON array d'objets avec les champs 'type' (person, organization, location, email, phone, username, domain) et 'value'. Texte :\n\n"@
            + text@,
{
    let mut r = String::from_str(
        "Extrait les entités du texte suivant. Réponds UNIQUEMENT sous forme de JSON array d'objets avec les champs 'type' (person, organization, location, email, phone, username, domain) et 'value'. Texte :\n\n",
    );
    push_str(&mut r, text);
    r
}

/// The prompt that asks for three leads on an entity.
pub fn pivot_prompt(entity: &Entity, context: &str) -> (r: String)
    ensures
        r@ == "Pour l'entité '"@ + entity.display_label@ + "' (type "@ + kind_name(entity.kind)
            + ") dans le contexte suivant, suggère 3 pistes d'investigation OSINT concrètes. Réponds par une liste numérotée de 3 éléments courts (10 mots max chacun).\n\nContexte : "@
            + context@ + "\n"@,
{
    let mut r = String::from_str("Pour l'entité '");
    push_str(&mut r, entity.display_label.as_str());
    push_str(&mut r, "' (type ");
    push_str(&mut r, entity.kind.name());
    push_str(
        &mut r,
        ") dans le contexte suivant, suggère 3 pistes d'investigation OSINT concrètes. Réponds par une liste numérotée de 3 éléments courts (10 mots max chacun).\n\nContexte : ",
    );
    push_str(&mut r, context);
    push_str(&mut r, "\n");
    r
}

/// The text of an entity compared by embeddings: label, value and kind.
pub fn embedding_text(e: &Entity) -> (r: String)
    ensures
        r@ == e.display_label@ + " "@ + e.canonical_value@ + " "@ + kind_name(e.kind),
{
    let mut r = e.display_label.clone();
    push_str(&mut r, " ");
    push_str(&mut r, e.canonical_value.as_str());
    push_str(&mut r, " ");
    push_str(&mut r, e.kind.name());
    r
}

// ---------------------------------------------------------------------------
// Leads suggested by the model
// ---------------------------------------------------------------------------

/// Whether `char::is_numeric` holds of a character (Unicode numeric).
pub uninterp spec fn numeric(c: char) -> bool;

/// `char::is_numeric`.
#[verifier::external_body]
fn is_numeric(c: char) -> (r: bool)
    ensures
        r == numeric(c),
{
    c.is_numeric()
}

/// A character of a list marker: a digit, `.`, `)` or `-`.
pub open spec fn marker_char(c: char) -> bool {
    numeric(c) || c == '.' || c == ')' || c == '-'
}

/// `s` without its leading list-marker characters.
pub open spec fn strip_marker(s: Seq<char>) -> Seq<char>
    decreases s.len(),
{
    if s.len() > 0 && marker_char(s[0]) {
        strip_marker(s.drop_first())
    } else {
        s
    }
}

/// A suggestion as kept: without its list marker and surrounding white
/// space.
pub open spec fn cleaned(line: Seq<char>) -> Seq<char> {
    trimmed(strip_marker(line))
}

/// The first three non-blank lines, cleaned.
pub open spec fn leads(lines: Seq<Seq<char>>, n: nat) -> Seq<Seq<char>>
    decreases lines.len(),
{
    if lines.len() == 0 || n == 0 {
        Seq::empty()
    } else if trimmed(lines[0]).len() > 0 {
        seq![cleaned(lines[0])] + leads(lines.drop_first(), (n - 1) as nat)
    } else {
        leads(lines.drop_first(), n)
    }
}

proof fn lemma_strip_marker_from(s: Seq<char>, i: int)
    requires
        0 <= i <= s.len(),
        forall|k: int| 0 <= k < i ==> marker_char(#[trigger] s[k]),
    ensures
        strip_marker(s) == strip_marker(s.skip(i)),
    decreases i,
{
    if i > 0 {
        assert(s.skip(i - 1).drop_first() =~= s.skip(i));
        assert(s.skip(i - 1)[0] == s[i - 1]);
        lemma_strip_marker_from(s, i - 1);
    } else {
        assert(s.skip(0) =~= s);
    }
}

fn clean_line(line: &Vec<char>) -> (r: String)
    ensures
        r@ == cleaned(line@),
{
    let mut i: usize = 0;
    while i < line.len() && (is_numeric(line[i]) || line[i] == '.' || line[i] == ')' || line[i] == '-')
        invariant
            i <= line.len(),
            forall|k: int| 0 <= k < i ==> marker_char(#[trigger] line@[k]),
        decreases line.len() - i,
    {
        i = i + 1;
    }
    proof {
        lemma_strip_marker_from(line@, i as int);
        if i < line.len() {
            assert(!marker_char(line@.skip(i as int)[0]));
        }
    }
    let mut rest: Vec<char> = Vec::new();
    let mut k: usize = i;
    while k < line.len()
        invariant
            i <= k <= line.len(),
            rest@ == line@.subrange(i as int, k as int),
        decreases line.len() - k,
    {
        rest.push(line[k]);
        k = k + 1;
        assert(rest@ =~= line@.subrange(i as int, k as int));
    }
    assert(rest@ =~= line@.skip(i as int));
    let s = string_of(&rest);
    trim(s.as_str())
}

/// The views of a list of strings.
pub open spec fn texts(v: Seq<String>) -> Seq<Seq<char>> {
    v.map_values(|s: String| s@)
}

/// The lead a line gives: its cleaned text, when the line is not blank.
fn lead_of(line: &Vec<char>) -> (r: Option<String>)
    ensures
        r is Some <==> trimmed(line@).len() > 0,
        r matches Some(c) ==> c@ == cleaned(line@),
{
    let line_s = string_of(line);
    let t = trim(line_s.as_str());
    if t.as_str().is_empty() {
        None
    } else {
        Some(clean_line(line))
    }
}

proof fn lemma_leads_step(before: Seq<Seq<char>>, ls: Seq<Seq<char>>, left: nat, kept: bool)
    requires
        ls.len() > 0,
        left > 0,
        kept == (trimmed(ls[0]).len() > 0),
    ensures
        kept ==> before.push(cleaned(ls[0])) + leads(ls.drop_first(), (left - 1) as nat) == before + leads(ls, left),
        !kept ==> before + leads(ls.drop_first(), left) == before + leads(ls, left),
{
    if kept {
        assert(before.push(cleaned(ls[0])) + leads(ls.drop_first(), (left - 1) as nat) =~= before + (seq![cleaned(ls[0])]
            + leads(ls.drop_first(), (left - 1) as nat)));
    }
}

/// Reads the leads the model suggested: its first three non-blank lines,
/// without list markers.
pub fn pivot_descriptions(raw: &str) -> (r: Vec<String>)
    ensures
        texts(r@) == leads(lines_spec(raw@), 3),
{
    let chars = chars_of(raw);
    let mut out: Vec<String> = Vec::new();
    let mut p: usize = 0;
    let mut left: usize = 3;
    proof {
        assert(chars@.skip(0) =~= chars@);
        assert(texts(out@) + leads(lines_spec(chars@.skip(0)), 3) =~= leads(lines_spec(raw@), 3));
    }
    while p < chars.len() && left > 0
        invariant
            p <= chars.len(),
            left <= 3,
            chars@ == raw@,
            texts(out@) + leads(lines_spec(chars@.skip(p as int)), left as nat) == leads(lines_spec(raw@), 3),
        decreases chars.len() - p,
    {
        let (line, q) = next_line(&chars, p);
        let ghost ls = lines_spec(chars@.skip(p as int));
        let ghost before = texts(out@);
        proof {
            assert(ls[0] == line@);
            assert(ls.drop_first() =~= lines_spec(chars@.skip(q as int)));
        }
        let lead = lead_of(&line);
        proof {
            lemma_leads_step(before, ls, left as nat, lead is Some);
        }
        match lead {
            Some(c) => {
                out.push(c);
                assert(texts(out@) =~= before.push(cleaned(line@)));
                left = left - 1;
            },
            None => {},
        }
        p = q;
    }
    proof {
        if p >= chars.len() {
            lemma_no_lines(chars@.skip(p as int));
        }
        assert(leads(lines_spec(chars@.skip(p as int)), left as nat) =~= Seq::<Seq<char>>::empty());
        assert(texts(out@) + Seq::<Seq<char>>::empty() =~= texts(out@));
    }
    out
}

// ---------------------------------------------------------------------------
// Entities extracted by the model
// ---------------------------------------------------------------------------

/// What `serde_json::from_str::<Vec<Value>>` then `get("type")` /
/// `get("value")` with `as_str` give for a text: `None` when it is not a
/// JSON array, else each item's type and value, each `None` when missing
/// or not a string.
pub uninterp spec fn json_type_values(text: Seq<char>) -> Option<Seq<(Option<Seq<char>>, Option<Seq<char>>)>>;

/// The view of an optional string.
pub open spec fn opt_text(o: Option<String>) -> Option<Seq<char>> {
    match o {
        Some(s) => Some(s@),
        None => None,
    }
}

/// `serde_json::from_str::<Vec<serde_json::Value>>`, each item read as its
/// `"type"` and `"value"` strings.
#[verifier::external_body]
fn parse_type_values(text: &str) -> (r: Option<Vec<(Option<String>, Option<String>)>>)
    ensures
        json_type_values(text@) == match r {
            None => None,
            Some(v) => Some(v@.map_values(|p: (Option<String>, Option<String>)| (opt_text(p.0), opt_text(p.1)))),
        },
{
    match serde_json::from_str::<Vec<serde_json::Value>>(text) {
        Err(_) => None,
        Ok(items) => Some(
            items.iter().map(|item| (
                item.get("type").and_then(|v| v.as_str()).map(|s| s.to_string()),
                item.get("value").and_then(|v| v.as_str()).map(|s| s.to_string()),
            )).collect(),
        ),
    }
}

/// An item as (type, value): the type `unknown` and the value empty when
/// the model gave none.
pub open spec fn with_defaults(p: (Option<Seq<char>>, Option<Seq<char>>)) -> (Seq<char>, Seq<char>) {
    (
        match p.0 {
            Some(t) => t,
            None => "unknown"@,
        },
        match p.1 {
            Some(v) => v,
            None => Seq::empty(),
        },
    )
}

/// The items with their defaults.
fn items_with_defaults(items: Vec<(Option<String>, Option<String>)>) -> (r: Vec<(String, String)>)
    ensures
        r@.map_values(|p: (String, String)| (p.0@, p.1@)) == items@.map_values(
            |p: (Option<String>, Option<String>)| with_defaults((opt_text(p.0), opt_text(p.1))),
        ),
{
    proof {
        reveal_strlit("unknown");
    }
    let mut r: Vec<(String, String)> = Vec::new();
    let mut i: usize = 0;
    while i < items.len()
        invariant
            i <= items.len(),
            r@.len() == i,
            forall|k: int|
                0 <= k < i ==> (#[trigger] r@[k]).0@ == with_defaults((opt_text(items@[k].0), opt_text(items@[k].1))).0
                    && r@[k].1@ == with_defaults((opt_text(items@[k].0), opt_text(items@[k].1))).1,
        decreases items.len() - i,
    {
        proof {
            reveal_strlit("unknown");
        }
        let t = match &items[i].0 {
            Some(t) => t.clone(),
            None => String::from_str("unknown"),
        };
        let v = match &items[i].1 {
            Some(v) => v.clone(),
            None => String::new(),
        };
        r.push((t, v));
        i = i + 1;
    }
    assert(r@.map_values(|p: (String, String)| (p.0@, p.1@)) =~= items@.map_values(
        |p: (Option<String>, Option<String>)| with_defaults((opt_text(p.0), opt_text(p.1))),
    ));
    r
}

proof fn lemma_defaults_view(
    items: Seq<(Option<String>, Option<String>)>,
    named: Seq<(Option<Seq<char>>, Option<Seq<char>>)>,
)
    requires
        named == items.map_values(|p: (Option<String>, Option<String>)| (opt_text(p.0), opt_text(p.1))),
    ensures
        items.map_values(|p: (Option<String>, Option<String>)| with_defaults((opt_text(p.0), opt_text(p.1))))
            == named.map_values(|p: (Option<Seq<char>>, Option<Seq<char>>)| with_defaults(p)),
{
    assert(items.map_values(|p: (Option<String>, Option<String>)| with_defaults((opt_text(p.0), opt_text(p.1))))
        =~= named.map_values(|p: (Option<Seq<char>>, Option<Seq<char>>)| with_defaults(p)));
}

/// Index of the first `c`, if any.
pub open spec fn first_of(s: Seq<char>, c: char) -> Option<int>
    decreases s.len(),
{
    if s.len() == 0 {
        None
    } else if s[0] == c {
        Some(0)
    } else {
        match first_of(s.drop_first(), c) {
            Some(i) => Some(i + 1),
            None => None,
        }
    }
}

/// Index of the last `c`, if any.
pub open spec fn last_of(s: Seq<char>, c: char) -> Option<int>
    decreases s.len(),
{
    if s.len() == 0 {
        None
    } else if s.last() == c {
        Some(s.len() - 1)
    } else {
        last_of(s.drop_last(), c)
    }
}

/// Where the JSON array of an answer is looked for when the whole answer
/// is not one: from the first `[` (or the start) to the last `]` included
/// (or the end).
pub open spec fn array_bounds(raw: Seq<char>) -> (int, int) {
    let start = match first_of(raw, '[') {
        Some(i) => i,
        None => 0,
    };
    let end = match last_of(raw, ']') {
        Some(i) => i + 1,
        None => raw.len() as int,
    };
    (start, end)
}

/// The items the model listed, with their defaults: those of the answer
/// read as a JSON array, else those of the part between its first `[` and
/// its last `]`, else none (also when that last `]` comes before the first
/// `[`).
pub open spec fn listed_items(raw: Seq<char>) -> Seq<(Seq<char>, Seq<char>)> {
    match json_type_values(raw) {
        Some(items) => items.map_values(|p: (Option<Seq<char>>, Option<Seq<char>>)| with_defaults(p)),
        None => {
            let (start, end) = array_bounds(raw);
            if start <= end {
                match json_type_values(raw.subrange(start, end)) {
                    Some(items) => items.map_values(|p: (Option<Seq<char>>, Option<Seq<char>>)| with_defaults(p)),
                    None => Seq::empty(),
                }
            } else {
                Seq::empty()
            }
        },
    }
}

proof fn lemma_first_of(s: Seq<char>, c: char, i: int)
    requires
        0 <= i <= s.len(),
        forall|k: int| 0 <= k < i ==> s[k] != c,
        i < s.len() ==> s[i] == c,
    ensures
        first_of(s, c) == if i < s.len() { Some(i) } else { None::<int> },
    decreases s.len(),
{
    if s.len() > 0 && i > 0 {
        lemma_first_of(s.drop_first(), c, i - 1);
    }
}

proof fn lemma_last_of(s: Seq<char>, c: char, j: int)
    requires
        -1 <= j < s.len(),
        forall|k: int| j < k < s.len() ==> s[k] != c,
        j >= 0 ==> s[j] == c,
    ensures
        last_of(s, c) == if j >= 0 { Some(j) } else { None::<int> },
    decreases s.len(),
{
    if s.len() > 0 && j < s.len() - 1 {
        lemma_last_of(s.drop_last(), c, j);
    }
}

/// The items an answer of the model lists, as (type, value). The part
/// between brackets is only read when it does not run backwards (a last
/// `]` before the first `[`); then nothing is listed.
pub fn listed_entities(raw: &str) -> (r: Vec<(String, String)>)
    ensures
        r@.map_values(|p: (String, String)| (p.0@, p.1@)) == listed_items(raw@),
{
    match parse_type_values(raw) {
        Some(items) => {
            let r = items_with_defaults(items);
            proof {
                lemma_defaults_view(items@, json_type_values(raw@)->0);
            }
            r
        },
        None => {
            let v = chars_of(raw);
            let mut s: usize = 0;
            while s < v.len() && v[s] != '['
                invariant
                    s <= v.len(),
                    forall|k: int| 0 <= k < s ==> v@[k] != '[',
                decreases v.len() - s,
            {
                s = s + 1;
            }
            proof {
                lemma_first_of(v@, '[', s as int);
            }
            let start: usize = if s < v.len() { s } else { 0 };
            let mut e: usize = v.len();
            while e > 0 && v[e - 1] != ']'
                invariant
                    e <= v.len(),
                    forall|k: int| e <= k < v.len() ==> v@[k] != ']',
                decreases e,
            {
                e = e - 1;
            }
            proof {
                lemma_last_of(v@, ']', e - 1);
            }
            let end: usize = if e > 0 { e } else { v.len() };
            if start > end {
                let empty: Vec<(String, String)> = Vec::new();
                assert(empty@.map_values(|p: (String, String)| (p.0@, p.1@)) =~= Seq::<(Seq<char>, Seq<char>)>::empty());
                return empty;
            }
            let mut part: Vec<char> = Vec::new();
            let mut k: usize = start;
            while k < end
                invariant
                    start <= k <= end <= v.len(),
                    part@ == v@.subrange(start as int, k as int),
                decreases end - k,
            {
                part.push(v[k]);
                k = k + 1;
                assert(part@ =~= v@.subrange(start as int, k as int));
            }
            let text = string_of(&part);
            match parse_type_values(text.as_str()) {
                Some(items) => {
                    let r = items_with_defaults(items);
                    proof {
                        lemma_defaults_view(items@, json_type_values(text@)->0);
                    }
                    r
                },
                None => {
                    let empty: Vec<(String, String)> = Vec::new();
                    assert(empty@.map_values(|p: (String, String)| (p.0@, p.1@)) =~= Seq::<(Seq<char>, Seq<char>)>::empty());
                    empty
                },
            }
        },
    }
}

/// The observation of one value the model extracted from a case's text:
/// inferred, with the lowest confidence.
pub fn extracted_observation(value: &String, case_id: &str, id: String, now: String) -> (o: Observation)
    ensures
        o.id == id,
        o.subject@ == "ai-extracted-"@ + case_id@,
        o.predicate@ == "extracted_entity"@,
        o.value matches PropertyValue::String(v) && v@ == value@,
        o.source@ == "ai:ner"@,
        o.method@ == "llm_extraction"@,
        o.observed_at == now,
        o.valid_from is None && o.valid_to is None,
        o.confidence == (AdmiraltyCode {
            source_reliability: SourceReliability::F,
            information_credibility: InformationCredibility::V6,
        }),
        o.provenance == Provenance::Inferred,
        o.raw_hash is None,
        o.operator@ == "ai-service"@,
{
    let mut subject = String::from_str("ai-extracted-");
    push_str(&mut subject, case_id);
    Observation {
        id,
        subject,
        predicate: String::from_str("extracted_entity"),
        value: PropertyValue::String(value.clone()),
        source: String::from_str("ai:ner"),
        method: String::from_str("llm_extraction"),
        observed_at: now,
        valid_from: None,
        valid_to: None,
        confidence: AdmiraltyCode {
            source_reliability: SourceReliability::F,
            information_credibility: InformationCredibility::V6,
        },
        provenance: Provenance::Inferred,
        raw_hash: None,
        operator: String::from_str("ai-service"),
    }
}

/// The values of the listed items that are worth an observation: the
/// non-empty ones, in order.
pub open spec fn kept_values(items: Seq<(Seq<char>, Seq<char>)>) -> Seq<Seq<char>>
    decreases items.len(),
{
    if items.len() == 0 {
        Seq::empty()
    } else if items.last().1.len() == 0 {
        kept_values(items.drop_last())
    } else {
        kept_values(items.drop_last()).push(items.last().1)
    }
}

/// The non-empty values of the listed items, in order.
pub fn extracted_values(items: &Vec<(String, String)>) -> (r: Vec<String>)
    ensures
        texts(r@) == kept_values(items@.map_values(|p: (String, String)| (p.0@, p.1@))),
{
    let ghost view = items@.map_values(|p: (String, String)| (p.0@, p.1@));
    let mut out: Vec<String> = Vec::new();
    let mut i: usize = 0;
    proof {
        assert(view.take(0) =~= Seq::<(Seq<char>, Seq<char>)>::empty());
        assert(texts(out@) =~= Seq::<Seq<char>>::empty());
    }
    while i < items.len()
        invariant
            i <= items.len(),
            view == items@.map_values(|p: (String, String)| (p.0@, p.1@)),
            texts(out@) == kept_values(view.take(i as int)),
        decreases items.len() - i,
    {
        proof {
            assert(view.take(i as int + 1).drop_last() =~= view.take(i as int));
            assert(view.take(i as int + 1).last() == view[i as int]);
        }
        if !items[i].1.as_str().is_empty() {
            out.push(items[i].1.clone());
            assert(texts(out@) =~= kept_values(view.take(i as int)).push(items@[i as int].1@));
        }
        i = i + 1;
    }
    assert(view.take(items.len() as int) =~= view);
    out
}

} // verus!
