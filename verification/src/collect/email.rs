//! Email transform: the address's domain, its MX, SPF and DMARC records,
//! and the usual address patterns built from a name.
//!
//! The DNS lookups happen at the edge; what the records mean stands here.

use vstd::prelude::*;
use crate::entity::{
    AdmiraltyCode, Entity, EntityKind, InformationCredibility, Observation, PropertyValue, Provenance,
    SourceReliability,
};
use crate::json::JsonValue;
use crate::text::{chars_of, contains, contains_spec, lowercase, push_char, push_str, string_of, to_lowercase};
use crate::transform::{Relation, TransformError, TransformInput, TransformOutput};

verus! {

/// Index of the last occurrence of `c` in `s`.
pub open spec fn last_index(s: Seq<char>, c: char) -> Option<int>
    decreases s.len(),
{
    if s.len() == 0 {
        None
    } else if s.last() == c {
        Some(s.len() - 1)
    } else {
        last_index(s.drop_last(), c)
    }
}

/// An address split at its last `@` into local part and domain, both
/// non-empty.
pub open spec fn parse_email_spec(s: Seq<char>) -> Option<(Seq<char>, Seq<char>)> {
    match last_index(s, '@') {
        None => None,
        Some(i) => if i == 0 || i == s.len() - 1 {
            None
        } else {
            Some((s.take(i), s.skip(i + 1)))
        },
    }
}

proof fn lemma_last_index(s: Seq<char>, c: char, i: int)
    requires
        -1 <= i < s.len(),
        i >= 0 ==> s[i] == c,
        forall|k: int| i < k < s.len() ==> s[k] != c,
    ensures
        last_index(s, c) == if i >= 0 { Some(i) } else { None::<int> },
    decreases s.len(),
{
    if s.len() > 0 && i < s.len() - 1 {
        lemma_last_index(s.drop_last(), c, i);
    }
}

fn slice(v: &Vec<char>, from: usize, to: usize) -> (r: String)
    requires
        from <= to <= v.len(),
    ensures
        r@ == v@.subrange(from as int, to as int),
{
    let mut out: Vec<char> = Vec::new();
    let mut k: usize = from;
    while k < to
        invariant
            from <= k <= to <= v.len(),
            out@ == v@.subrange(from as int, k as int),
        decreases to - k,
    {
        out.push(v[k]);
        k = k + 1;
        assert(out@ =~= v@.subrange(from as int, k as int));
    }
    string_of(&out)
}

/// Native email transform. The DNS resolver lives with the caller.
pub struct EmailTransform;

impl EmailTransform {
    /// Identifier of the transform.
    pub fn id(&self) -> (r: &'static str)
        ensures
            r@ == "collect:email"@,
    {
        "collect:email"
    }

    /// Name shown to the analyst.
    pub fn display_name(&self) -> (r: &'static str)
        ensures
            r@ == "Email — MX, SPF, DMARC"@,
    {
        "Email — MX, SPF, DMARC"
    }

    /// Accepted input kinds.
    pub fn input_kinds(&self) -> (r: Vec<EntityKind>)
        ensures
            r@ == seq![EntityKind::EmailAddress],
    {
        let mut v = Vec::new();
        v.push(EntityKind::EmailAddress);
        assert(v@ =~= seq![EntityKind::EmailAddress]);
        v
    }

    /// Splits an address into local part and domain at its last `@`; `None`
    /// when there is no `@` or either part is empty.
    pub fn parse_email(email: &str) -> (r: Option<(String, String)>)
        ensures
            match r {
                None => parse_email_spec(email@) is None,
                Some((l, d)) => parse_email_spec(email@) == Some((l@, d@)),
            },
    {
        let v = chars_of(email);
        let mut i: usize = v.len();
        while i > 0 && v[i - 1] != '@'
            invariant
                i <= v.len(),
                forall|k: int| i <= k < v.len() ==> v@[k] != '@',
            decreases i,
        {
            i = i - 1;
        }
        if i == 0 {
            proof {
                lemma_last_index(v@, '@', -1);
            }
            return None;
        }
        let at = i - 1;
        proof {
            lemma_last_index(v@, '@', at as int);
        }
        if at == 0 || at == v.len() - 1 {
            return None;
        }
        let local = slice(&v, 0, at);
        let domain = slice(&v, at + 1, v.len());
        assert(local@ =~= email@.take(at as int));
        assert(domain@ =~= email@.skip(at + 1));
        Some((local, domain))
    }

    /// The usual address patterns for a first and a last name, in lower
    /// case; `domain` includes the `@` (for example `@example.com`).
    pub fn generate_permutations(first: &str, last: &str, domain: &str) -> (r: Vec<String>)
        ensures
            texts(r@) == permutations_spec(lowercase(first@), lowercase(last@), domain@),
    {
        let f = to_lowercase(first);
        let l = to_lowercase(last);
        let lv = chars_of(l.as_str());
        let init = if lv.len() > 0 { lv[0] } else { 'x' };
        let mut p1 = f.clone();
        push_char(&mut p1, '.');
        push_str(&mut p1, l.as_str());
        push_str(&mut p1, domain);
        let mut p2 = f.clone();
        push_char(&mut p2, '.');
        push_char(&mut p2, init);
        push_str(&mut p2, domain);
        let mut p3 = f.clone();
        push_str(&mut p3, l.as_str());
        push_str(&mut p3, domain);
        let mut p4 = f.clone();
        push_char(&mut p4, init);
        push_str(&mut p4, domain);
        let mut p5 = f.clone();
        push_char(&mut p5, '_');
        push_str(&mut p5, l.as_str());
        push_str(&mut p5, domain);
        let mut p6 = f.clone();
        push_char(&mut p6, '-');
        push_str(&mut p6, l.as_str());
        push_str(&mut p6, domain);
        let mut r: Vec<String> = Vec::new();
        r.push(p1);
        r.push(p2);
        r.push(p3);
        r.push(p4);
        r.push(p5);
        r.push(p6);
        assert(texts(r@) =~= permutations_spec(f@, l@, domain@));
        r
    }
}

/// The views of a list of strings.
pub open spec fn texts(v: Seq<String>) -> Seq<Seq<char>> {
    v.map_values(|s: String| s@)
}

/// The first letter of a name, `x` for an empty one.
pub open spec fn initial(l: Seq<char>) -> char {
    if l.len() > 0 { l[0] } else { 'x' }
}

/// `f.l@d`, `f.i@d`, `fl@d`, `fi@d`, `f_l@d`, `f-l@d`, with `i` the first
/// letter of the last name.
pub open spec fn permutations_spec(f: Seq<char>, l: Seq<char>, d: Seq<char>) -> Seq<Seq<char>> {
    seq![
        f.push('.') + l + d,
        f.push('.').push(initial(l)) + d,
        f + l + d,
        f.push(initial(l)) + d,
        f.push('_') + l + d,
        f.push('-') + l + d,
    ]
}

/// The records that contain `needle`, in order.
pub open spec fn containing(records: Seq<Seq<char>>, needle: Seq<char>) -> Seq<Seq<char>>
    decreases records.len(),
{
    if records.len() == 0 {
        Seq::empty()
    } else if contains_spec(records.last(), needle) {
        containing(records.drop_last(), needle).push(records.last())
    } else {
        containing(records.drop_last(), needle)
    }
}

/// The records that contain `needle`, in order.
pub fn records_containing(records: &Vec<String>, needle: &str) -> (r: Vec<String>)
    ensures
        texts(r@) == containing(texts(records@), needle@),
{
    let mut r: Vec<String> = Vec::new();
    let mut i: usize = 0;
    while i < records.len()
        invariant
            i <= records.len(),
            texts(r@) == containing(texts(records@.take(i as int)), needle@),
        decreases records.len() - i,
    {
        proof {
            assert(texts(records@.take(i + 1)).drop_last() =~= texts(records@.take(i as int)));
            assert(texts(records@.take(i + 1)).last() == records@[i as int]@);
        }
        if contains(records[i].as_str(), needle) {
            let ghost before = r@;
            r.push(records[i].clone());
            assert(texts(r@) =~= texts(before).push(records@[i as int]@));
        }
        i = i + 1;
    }
    assert(records@.take(i as int) =~= records@);
    r
}

/// A JSON array of the given strings.
pub open spec fn is_string_array(v: JsonValue, items: Seq<Seq<char>>) -> bool {
    &&& v matches JsonValue::Array(a)
    &&& a@.len() == items.len()
    &&& forall|i: int| 0 <= i < items.len() ==> ((#[trigger] a@[i]) matches JsonValue::String(s) && s@ == items[i])
}

fn string_array(items: Vec<String>) -> (r: JsonValue)
    ensures
        is_string_array(r, texts(items@)),
{
    let mut a: Vec<JsonValue> = Vec::new();
    let mut i: usize = 0;
    while i < items.len()
        invariant
            i <= items.len(),
            a@.len() == i,
            forall|k: int| 0 <= k < i ==> ((#[trigger] a@[k]) matches JsonValue::String(s) && s@ == items@[k]@),
        decreases items.len() - i,
    {
        a.push(JsonValue::String(items[i].clone()));
        i = i + 1;
    }
    JsonValue::Array(a)
}

/// The observation of one kind of record.
pub open spec fn record_observation(
    o: Observation,
    input: TransformInput,
    kind: Seq<char>,
    predicate: Seq<char>,
    method: Seq<char>,
    records: Seq<Seq<char>>,
    now: Seq<char>,
) -> bool {
    &&& o.id@ == "obs-email-"@ + kind + "-"@ + input.entity.canonical_value@
    &&& o.subject@ == input.entity.id@
    &&& o.predicate@ == predicate
    &&& o.value matches PropertyValue::Json(v) && is_string_array(v, records)
    &&& o.source@ == "collect:email"@
    &&& o.method@ == method
    &&& o.observed_at@ == now
    &&& o.valid_from is None
    &&& o.valid_to is None
    &&& o.confidence == (AdmiraltyCode {
        source_reliability: SourceReliability::B,
        information_credibility: InformationCredibility::V2,
    })
    &&& o.provenance == Provenance::Collected
    &&& o.raw_hash is None
    &&& o.operator@ == "SPECTRA"@
}

fn make_record_observation(
    input: &TransformInput,
    kind: &str,
    predicate: &str,
    method: &str,
    records: Vec<String>,
    now: &String,
) -> (o: Observation)
    ensures
        record_observation(o, *input, kind@, predicate@, method@, texts(records@), now@),
{
    let mut id = String::from_str("obs-email-");
    push_str(&mut id, kind);
    push_str(&mut id, "-");
    push_str(&mut id, input.entity.canonical_value.as_str());
    Observation {
        id,
        subject: input.entity.id.clone(),
        predicate: String::from_str(predicate),
        value: PropertyValue::Json(string_array(records)),
        source: String::from_str("collect:email"),
        method: String::from_str(method),
        observed_at: now.clone(),
        valid_from: None,
        valid_to: None,
        confidence: AdmiraltyCode {
            source_reliability: SourceReliability::B,
            information_credibility: InformationCredibility::V2,
        },
        provenance: Provenance::Collected,
        raw_hash: None,
        operator: String::from_str("SPECTRA"),
    }
}

/// The DNS name that holds a domain's DMARC policy: `_dmarc.<domain>`.
pub fn dmarc_name(domain: &str) -> (r: String)
    ensures
        r@ == "_dmarc."@ + domain@,
{
    let mut r = String::from_str("_dmarc.");
    push_str(&mut r, domain);
    r
}

/// What the email transform returns for an input entity, given the MX and
/// TXT records of its domain and the TXT records of the domain's DMARC name
/// (`_dmarc.<domain>`), observed at `now`: the MX records; the domain's SPF
/// records and its DMARC records when there are some; the domain as an
/// entity, which the address is hosted on.
pub fn email_output(input: &TransformInput, mx: Vec<String>, txt: Vec<String>, dmarc_txt: Vec<String>, now: String) -> (r: Result<
    TransformOutput,
    TransformError,
>)
    ensures
        r is Err <==> parse_email_spec(input.entity.canonical_value@) is None,
        r matches Err(e) ==> e matches TransformError::UnsupportedEntityType(m) && m@ == "email malformé"@,
        r matches Ok(out) ==> {
            let domain = (parse_email_spec(input.entity.canonical_value@)->0).1;
            let spf = containing(texts(txt@), "v=spf1"@);
            let dmarc = containing(texts(dmarc_txt@), "v=DMARC1"@);
            &&& out.observations@.len() == 1 + (if spf.len() > 0 { 1int } else { 0 }) + (if dmarc.len() > 0 {
                1int
            } else {
                0
            })
            &&& record_observation(out.observations@[0], *input, "mx"@, "mx_records"@, "DNS_MX"@, texts(mx@), now@)
            &&& spf.len() > 0 ==> record_observation(
                out.observations@[1],
                *input,
                "spf"@,
                "spf_record"@,
                "DNS_TXT"@,
                spf,
                now@,
            )
            &&& dmarc.len() > 0 ==> record_observation(
                out.observations@[out.observations@.len() - 1],
                *input,
                "dmarc"@,
                "dmarc_record"@,
                "DNS_TXT"@,
                dmarc,
                now@,
            )
            &&& out.entities@.len() == 1
            &&& out.entities@[0].id@ == "domain-"@ + domain
            &&& out.entities@[0].kind == EntityKind::Domain
            &&& out.entities@[0].canonical_value@ == domain
            &&& out.entities@[0].display_label@ == domain
            &&& out.entities@[0].properties@.len() == 0
            &&& out.entities@[0].created_at@ == now@
            &&& out.entities@[0].merged_from@.len() == 0
            &&& out.relations@.len() == 1
            &&& out.relations@[0].source@ == input.entity.id@
            &&& out.relations@[0].target@ == "domain-"@ + domain
            &&& out.relations@[0].kind@ == "hosted_on"@
            &&& out.relations@[0].properties@.len() == 0
        },
{
    let (_local, domain) = match EmailTransform::parse_email(input.entity.canonical_value.as_str()) {
        Some(p) => p,
        None => {
            return Err(TransformError::UnsupportedEntityType(String::from_str("email malformé")));
        },
    };
    let spf = records_containing(&txt, "v=spf1");
    let dmarc = records_containing(&dmarc_txt, "v=DMARC1");
    let has_spf = spf.len() > 0;
    let has_dmarc = dmarc.len() > 0;
    let mut observations: Vec<Observation> = Vec::new();
    observations.push(make_record_observation(input, "mx", "mx_records", "DNS_MX", mx, &now));
    if has_spf {
        observations.push(make_record_observation(input, "spf", "spf_record", "DNS_TXT", spf, &now));
    }
    if has_dmarc {
        observations.push(make_record_observation(input, "dmarc", "dmarc_record", "DNS_TXT", dmarc, &now));
    }
    let mut entity_id = String::from_str("domain-");
    push_str(&mut entity_id, domain.as_str());
    let mut entities: Vec<Entity> = Vec::new();
    entities.push(Entity {
        id: entity_id.clone(),
        kind: EntityKind::Domain,
        canonical_value: domain.clone(),
        display_label: domain,
        properties: Vec::new(),
        created_at: now,
        merged_from: Vec::new(),
    });
    let mut relations: Vec<Relation> = Vec::new();
    relations.push(Relation {
        source: input.entity.id.clone(),
        target: entity_id,
        kind: String::from_str("hosted_on"),
        properties: Vec::new(),
    });
    Ok(TransformOutput { entities, observations, relations })
}

proof fn lemma_last_index_facts(s: Seq<char>, c: char)
    ensures
        match last_index(s, c) {
            Some(i) => 0 <= i < s.len() && s[i] == c && forall|k: int| i < k < s.len() ==> s[k] != c,
            None => forall|k: int| 0 <= k < s.len() ==> s[k] != c,
        },
    decreases s.len(),
{
    if s.len() > 0 && s.last() != c {
        lemma_last_index_facts(s.drop_last(), c);
        assert forall|k: int| 0 <= k < s.len() - 1 implies s[k] == s.drop_last()[k] by {}
    }
}

/// A parsed address is its local part, `@` and its domain; both parts are
/// non-empty and the domain holds no `@`.
pub proof fn law_parsed_email_rebuilds(s: Seq<char>)
    ensures
        parse_email_spec(s) matches Some(p) ==> {
            &&& p.0 + seq!['@'] + p.1 == s
            &&& p.0.len() > 0
            &&& p.1.len() > 0
            &&& !p.1.contains('@')
        },
{
    lemma_last_index_facts(s, '@');
    if let Some(i) = last_index(s, '@') {
        if parse_email_spec(s) is Some {
            assert(s.take(i) + seq!['@'] + s.skip(i + 1) =~= s);
            let d = s.skip(i + 1);
            if d.contains('@') {
                let k = choose|k: int| 0 <= k < d.len() && #[trigger] d[k] == '@';
                assert(s[i + 1 + k] == '@');
            }
        }
    }
}

} // verus!
