//! WhatsMyName: which sites hold an account of a given user name.
//!
//! Each site of the dataset gives a check URI with an `{account}`
//! placeholder and the signs of an existing or a missing account (status
//! code, text of the page). A site counts only when a sign of existence
//! matches and no sign of absence does; a site behind Cloudflare or a
//! captcha is left alone.

use vstd::prelude::*;
use crate::entity::{
    AdmiraltyCode, Entity, EntityKind, InformationCredibility, Observation, PropertyValue, Provenance,
    SourceReliability,
};
use crate::text::{contains, contains_spec, push_str, replace, replace_spec};
use crate::transform::{Relation, TransformInput, TransformOutput};

verus! {

/// The WhatsMyName dataset.
#[derive(Debug, Clone)]
pub struct WhatsMyNameData {
    pub sites: Vec<Site>,
}

/// A site of the dataset.
#[derive(Debug, Clone)]
pub struct Site {
    pub name: String,
    pub uri_check: String,
    /// Status code of an existing account.
    pub exists_code: Option<u16>,
    /// Text of the page of an existing account.
    pub exists_string: Option<String>,
    /// Status code of a missing account.
    pub missing_code: Option<u16>,
    /// Text of the page of a missing account.
    pub missing_string: Option<String>,
    pub known: Option<Vec<String>>,
    pub cat: String,
    pub protection: Option<Vec<String>>,
}

/// What a site says of an account.
#[derive(Debug, Clone)]
pub enum SiteResult {
    /// The account exists.
    Exists { site: String, url: String, username: String, category: String },
    /// The account does not exist (or the answer is ambiguous).
    NotFound,
    /// The request failed.
    Error(String),
    /// The site is behind a blocking protection.
    Blocked(String),
}

/// The views of a list of strings.
pub open spec fn texts(v: Seq<String>) -> Seq<Seq<char>> {
    v.map_values(|s: String| s@)
}

/// The site declares a Cloudflare or captcha protection.
pub open spec fn is_protected(site: Site) -> bool {
    match site.protection {
        Some(p) => texts(p@).contains("cloudflare"@) || texts(p@).contains("captcha"@),
        None => false,
    }
}

/// The URL to check for a user name: the check URI with `{account}`
/// replaced.
pub open spec fn check_url_spec(site: Site, username: Seq<char>) -> Seq<char> {
    replace_spec(site.uri_check@, "{account}"@, username)
}

fn list_has(list: &Vec<String>, x: &str) -> (r: bool)
    ensures
        r == texts(list@).contains(x@),
{
    let target = String::from_str(x);
    let mut i: usize = 0;
    while i < list.len()
        invariant
            i <= list.len(),
            target@ == x@,
            forall|k: int| 0 <= k < i ==> list@[k]@ != x@,
        decreases list.len() - i,
    {
        if list[i] == target {
            assert(texts(list@)[i as int] == x@);
            return true;
        }
        i = i + 1;
    }
    proof {
        let t = texts(list@);
        if t.contains(x@) {
            let k = choose|k: int| 0 <= k < t.len() && #[trigger] t[k] == x@;
            assert(list@[k]@ == x@);
        }
    }
    false
}

/// Prepares the check of a user name on a site: the URL to query, or the
/// answer `Blocked` for a protected site (no request is made then).
pub fn prepare_site_check(site: &Site, username: &str) -> (r: Result<String, SiteResult>)
    ensures
        is_protected(*site) <==> r is Err,
        r matches Ok(url) ==> url@ == check_url_spec(*site, username@),
        r matches Err(b) ==> b matches SiteResult::Blocked(m) && m@ == site.name@ + ": protection active"@,
{
    proof {
        reveal_strlit("{account}");
    }
    let url = replace(site.uri_check.as_str(), "{account}", username);
    match &site.protection {
        Some(p) => {
            if list_has(p, "cloudflare") || list_has(p, "captcha") {
                let mut m = site.name.clone();
                push_str(&mut m, ": protection active");
                return Err(SiteResult::Blocked(m));
            }
        },
        None => {},
    }
    Ok(url)
}

/// A sign of absence matches: the missing status code, or the missing text
/// (when not empty) in the page.
pub open spec fn missing_matches(site: Site, status: u16, body: Seq<char>) -> bool {
    ||| site.missing_code == Some(status)
    ||| (site.missing_string matches Some(m) && m@.len() > 0 && contains_spec(body, m@))
}

/// A sign of existence matches: the existing status code, or the existing
/// text (when not empty) in the page.
pub open spec fn exists_matches(site: Site, status: u16, body: Seq<char>) -> bool {
    ||| site.exists_code == Some(status)
    ||| (site.exists_string matches Some(e) && e@.len() > 0 && contains_spec(body, e@))
}

/// Decides what the answer of a site means for a user name: not found when
/// a sign of absence matches; found when a sign of existence matches; else
/// not found, to avoid false positives.
pub fn decide_site(site: Site, username: String, url: String, status: u16, body: &str) -> (r: SiteResult)
    ensures
        !missing_matches(site, status, body@) && exists_matches(site, status, body@) <==> r is Exists,
        r matches SiteResult::Exists { site: s, url: u, username: n, category: c } ==> {
            &&& s == site.name
            &&& u == url
            &&& n == username
            &&& c == site.cat
        },
        !(r is Exists) ==> r is NotFound,
{
    let missing_code = match site.missing_code {
        Some(m) => status == m,
        None => false,
    };
    let missing_text = match &site.missing_string {
        Some(m) => !m.as_str().is_empty() && contains(body, m.as_str()),
        None => false,
    };
    if missing_code || missing_text {
        return SiteResult::NotFound;
    }
    let exists_code = match site.exists_code {
        Some(e) => status == e,
        None => false,
    };
    let exists_text = match &site.exists_string {
        Some(e) => !e.as_str().is_empty() && contains(body, e.as_str()),
        None => false,
    };
    if exists_code || exists_text {
        SiteResult::Exists { site: site.name, url, username, category: site.cat }
    } else {
        SiteResult::NotFound
    }
}

/// WhatsMyName transform. The dataset and the HTTP client live with the
/// caller.
pub struct WhatsMyNameTransform;

impl WhatsMyNameTransform {
    /// Identifier of the transform.
    pub fn id(&self) -> (r: &'static str)
        ensures
            r@ == "collect:whatsmyname"@,
    {
        "collect:whatsmyname"
    }

    /// Name shown to the analyst.
    pub fn display_name(&self) -> (r: &'static str)
        ensures
            r@ == "WhatsMyName — énumération de pseudos"@,
    {
        "WhatsMyName — énumération de pseudos"
    }

    /// Accepted input kinds.
    pub fn input_kinds(&self) -> (r: Vec<EntityKind>)
        ensures
            r@ == seq![EntityKind::Username],
    {
        let mut v = Vec::new();
        v.push(EntityKind::Username);
        assert(v@ =~= seq![EntityKind::Username]);
        v
    }
}

/// The results that found an account, in order.
pub open spec fn found(results: Seq<SiteResult>) -> Seq<SiteResult>
    decreases results.len(),
{
    if results.len() == 0 {
        Seq::empty()
    } else if results.last() is Exists {
        found(results.drop_last()).push(results.last())
    } else {
        found(results.drop_last())
    }
}

/// The profile entity of an account found.
pub open spec fn profile_entity(x: Entity, r: SiteResult, now: Seq<char>) -> bool {
    match r {
        SiteResult::Exists { site, url, username, category } => {
            &&& x.id@ == "social-"@ + site@ + "/"@ + username@
            &&& x.kind == EntityKind::SocialProfile
            &&& x.canonical_value@ == url@
            &&& x.display_label@ == username@ + " sur "@ + site@
            &&& x.properties@.len() == 3
            &&& x.properties@[0].0@ == "category"@
            &&& x.properties@[0].1 matches PropertyValue::String(v) && v@ == category@
            &&& x.properties@[1].0@ == "platform"@
            &&& x.properties@[1].1 matches PropertyValue::String(v) && v@ == site@
            &&& x.properties@[2].0@ == "profile_url"@
            &&& x.properties@[2].1 matches PropertyValue::String(v) && v@ == url@
            &&& x.created_at@ == now
            &&& x.merged_from@.len() == 0
        },
        _ => false,
    }
}

/// The observation of an account found.
pub open spec fn profile_observation(o: Observation, input: TransformInput, r: SiteResult, now: Seq<char>) -> bool {
    match r {
        SiteResult::Exists { site, url, username, .. } => {
            &&& o.id@ == "obs-wmn-"@ + site@ + "/"@ + username@
            &&& o.subject@ == "social-"@ + site@ + "/"@ + username@
            &&& o.predicate@ == "profile_url"@
            &&& o.value matches PropertyValue::String(v) && v@ == url@
            &&& o.source@ == "collect:whatsmyname"@
            &&& o.method@ == "HTTP_GET"@
            &&& o.observed_at@ == now
            &&& o.valid_from is None && o.valid_to is None
            &&& o.confidence == (AdmiraltyCode {
                source_reliability: SourceReliability::C,
                information_credibility: InformationCredibility::V3,
            })
            &&& o.provenance == Provenance::Collected
            &&& o.raw_hash is None
            &&& o.operator@ == input.entity.id@
        },
        _ => false,
    }
}

/// What the transform returns for the answers of the sites: for each
/// account found, in order, a profile entity, the observation of its URL,
/// and the link from the user name to the profile.
pub open spec fn wmn_output_is(out: TransformOutput, input: TransformInput, results: Seq<SiteResult>, now: Seq<char>) -> bool {
    let f = found(results);
    &&& out.entities@.len() == f.len()
    &&& out.observations@.len() == f.len()
    &&& out.relations@.len() == f.len()
    &&& forall|i: int| 0 <= i < f.len() ==> profile_entity(#[trigger] out.entities@[i], f[i], now)
    &&& forall|i: int| 0 <= i < f.len() ==> profile_observation(#[trigger] out.observations@[i], input, f[i], now)
    &&& forall|i: int|
        0 <= i < f.len() ==> {
            let r = #[trigger] out.relations@[i];
            &&& r.source@ == input.entity.id@
            &&& f[i] matches SiteResult::Exists { site, username, .. } && r.target@ == "social-"@ + site@ + "/"@
                + username@
            &&& r.kind@ == "has_profile_on"@
            &&& r.properties@.len() == 0
        }
}

fn profile_of(input: &TransformInput, site: &String, url: &String, username: &String, category: &String, now: &String) -> (r: (
    Entity,
    Observation,
    Relation,
))
    ensures
        profile_entity(
            r.0,
            SiteResult::Exists { site: *site, url: *url, username: *username, category: *category },
            now@,
        ),
        profile_observation(
            r.1,
            *input,
            SiteResult::Exists { site: *site, url: *url, username: *username, category: *category },
            now@,
        ),
        r.2.source@ == input.entity.id@,
        r.2.target@ == "social-"@ + site@ + "/"@ + username@,
        r.2.kind@ == "has_profile_on"@,
        r.2.properties@.len() == 0,
{
    let mut entity_id = String::from_str("social-");
    push_str(&mut entity_id, site.as_str());
    push_str(&mut entity_id, "/");
    push_str(&mut entity_id, username.as_str());
    let mut label = username.clone();
    push_str(&mut label, " sur ");
    push_str(&mut label, site.as_str());
    let mut properties: Vec<(String, PropertyValue)> = Vec::new();
    properties.push((String::from_str("category"), PropertyValue::String(category.clone())));
    properties.push((String::from_str("platform"), PropertyValue::String(site.clone())));
    properties.push((String::from_str("profile_url"), PropertyValue::String(url.clone())));
    let entity = Entity {
        id: entity_id.clone(),
        kind: EntityKind::SocialProfile,
        canonical_value: url.clone(),
        display_label: label,
        properties,
        created_at: now.clone(),
        merged_from: Vec::new(),
    };
    let mut oid = String::from_str("obs-wmn-");
    push_str(&mut oid, site.as_str());
    push_str(&mut oid, "/");
    push_str(&mut oid, username.as_str());
    let obs = Observation {
        id: oid,
        subject: entity_id.clone(),
        predicate: String::from_str("profile_url"),
        value: PropertyValue::String(url.clone()),
        source: String::from_str("collect:whatsmyname"),
        method: String::from_str("HTTP_GET"),
        observed_at: now.clone(),
        valid_from: None,
        valid_to: None,
        confidence: AdmiraltyCode {
            source_reliability: SourceReliability::C,
            information_credibility: InformationCredibility::V3,
        },
        provenance: Provenance::Collected,
        raw_hash: None,
        operator: input.entity.id.clone(),
    };
    let rel = Relation {
        source: input.entity.id.clone(),
        target: entity_id,
        kind: String::from_str("has_profile_on"),
        properties: Vec::new(),
    };
    (entity, obs, rel)
}

/// What the WhatsMyName transform returns for a user name, given the
/// answers of the sites, observed at `now`.
pub fn wmn_output(input: &TransformInput, results: &Vec<SiteResult>, now: &String) -> (r: TransformOutput)
    ensures
        wmn_output_is(r, *input, results@, now@),
{
    let mut out = TransformOutput { entities: Vec::new(), observations: Vec::new(), relations: Vec::new() };
    let mut i: usize = 0;
    while i < results.len()
        invariant
            i <= results.len(),
            wmn_output_is(out, *input, results@.take(i as int), now@),
        decreases results.len() - i,
    {
        proof {
            assert(results@.take(i + 1).drop_last() =~= results@.take(i as int));
            assert(results@.take(i + 1).last() == results@[i as int]);
        }
        match &results[i] {
            SiteResult::Exists { site, url, username, category } => {
                let (e, o, rel) = profile_of(input, site, url, username, category, now);
                let ghost f = found(results@.take(i as int));
                let ghost be = out.entities@;
                let ghost bo = out.observations@;
                let ghost br = out.relations@;
                out.entities.push(e);
                out.observations.push(o);
                out.relations.push(rel);
                proof {
                    let f2 = found(results@.take(i + 1));
                    assert(f2 == f.push(results@[i as int]));
                    assert forall|j: int| 0 <= j < f2.len() implies profile_entity(#[trigger] out.entities@[j], f2[j], now@) by {
                        if j < f.len() {
                            assert(out.entities@[j] == be[j]);
                        }
                    }
                    assert forall|j: int| 0 <= j < f2.len() implies profile_observation(#[trigger] out.observations@[j], *input, f2[j], now@) by {
                        if j < f.len() {
                            assert(out.observations@[j] == bo[j]);
                        }
                    }
                    assert forall|j: int| 0 <= j < f2.len() implies {
                        let r = #[trigger] out.relations@[j];
                        &&& r.source@ == input.entity.id@
                        &&& f2[j] matches SiteResult::Exists { site, username, .. } && r.target@ == "social-"@ + site@
                            + "/"@ + username@
                        &&& r.kind@ == "has_profile_on"@
                        &&& r.properties@.len() == 0
                    } by {
                        if j < f.len() {
                            assert(out.relations@[j] == br[j]);
                        }
                    }
                }
            },
            _ => {
                proof {
                    assert(found(results@.take(i + 1)) == found(results@.take(i as int)));
                }
            },
        }
        i = i + 1;
    }
    assert(results@.take(i as int) =~= results@);
    out
}

} // verus!
