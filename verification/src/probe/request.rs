//! What a probe sends and how its answers are cached: the request built
//! for a selector, the host it is limited by, the cache key, and which
//! outcomes are kept.

use vstd::prelude::*;
use crate::probe::schema::{BodyTemplate, ProbeId, ProbeOutcome, RequestTemplate};
use crate::text::{push_str, replace, replace_spec};

verus! {

/// The URL of a request for a selector: `{selector}` replaced.
pub fn request_url(template: &RequestTemplate, selector: &str) -> (r: String)
    ensures
        r@ == replace_spec(template.url@, "{selector}"@, selector@),
{
    proof {
        reveal_strlit("{selector}");
    }
    replace(template.url.as_str(), "{selector}", selector)
}

/// The views of a list of pairs of strings.
pub open spec fn pairs(v: Seq<(String, String)>) -> Seq<(Seq<char>, Seq<char>)> {
    v.map_values(|p: (String, String)| (p.0@, p.1@))
}

/// The body of a request for a selector: the JSON text, or the form
/// fields, with `{selector}` replaced in the values.
pub enum RequestBody {
    Json(String),
    Form(Vec<(String, String)>),
}

/// The body a template gives for a selector.
pub fn request_body(body: &BodyTemplate, selector: &str) -> (r: RequestBody)
    ensures
        match (*body, r) {
            (BodyTemplate::Json(t), RequestBody::Json(u)) => u@ == replace_spec(t@, "{selector}"@, selector@),
            (BodyTemplate::Form(f), RequestBody::Form(g)) => {
                &&& g@.len() == f@.len()
                &&& forall|i: int|
                    0 <= i < f@.len() ==> (#[trigger] g@[i]).0@ == f@[i].0@ && g@[i].1@ == replace_spec(
                        f@[i].1@,
                        "{selector}"@,
                        selector@,
                    )
            },
            _ => false,
        },
{
    proof {
        reveal_strlit("{selector}");
    }
    match body {
        BodyTemplate::Json(t) => RequestBody::Json(replace(t.as_str(), "{selector}", selector)),
        BodyTemplate::Form(f) => {
            let mut g: Vec<(String, String)> = Vec::new();
            let mut i: usize = 0;
            while i < f.len()
                invariant
                    i <= f.len(),
                    g@.len() == i,
                    forall|k: int|
                        0 <= k < i ==> (#[trigger] g@[k]).0@ == f@[k].0@ && g@[k].1@ == replace_spec(
                            f@[k].1@,
                            "{selector}"@,
                            selector@,
                        ),
                decreases f.len() - i,
            {
                proof {
                    reveal_strlit("{selector}");
                }
                g.push((f[i].0.clone(), replace(f[i].1.as_str(), "{selector}", selector)));
                i = i + 1;
            }
            RequestBody::Form(g)
        },
    }
}

/// The cache key of a probe and a selector: `id:selector`.
pub fn cache_key(id: &ProbeId, selector: &str) -> (r: String)
    ensures
        r@ == id.0@ + ":"@ + selector@,
{
    let mut r = id.0.clone();
    push_str(&mut r, ":");
    push_str(&mut r, selector);
    r
}

/// Only decided outcomes are cached: an existing or a missing account.
pub fn is_cacheable(outcome: &ProbeOutcome) -> (r: bool)
    ensures
        r <==> (outcome is Exists || outcome is Missing),
{
    match outcome {
        ProbeOutcome::Exists { .. } => true,
        ProbeOutcome::Missing => true,
        _ => false,
    }
}

/// What `url::Url::parse` then `host_str` give for a text: the host of a
/// valid URL that has one.
pub uninterp spec fn url_host(url: Seq<char>) -> Option<Seq<char>>;

/// `url::Url::parse` and `Url::host_str`.
#[verifier::external_body]
fn parse_host(url: &str) -> (r: Option<String>)
    ensures
        url_host(url@) == match r {
            None => None,
            Some(h) => Some(h@),
        },
{
    match url::Url::parse(url) {
        Ok(u) => match u.host_str() {
            Some(h) => Some(h.to_string()),
            None => None,
        },
        Err(_) => None,
    }
}

/// The host of a URL, if it is a valid URL with a host.
pub fn extract_host(url: &str) -> (r: Option<String>)
    ensures
        url_host(url@) == match r {
            None => None,
            Some(h) => Some(h@),
        },
{
    parse_host(url)
}

/// The key requests are spaced by: the URL's host, or `unknown`.
pub fn host_key(url: &str) -> (r: String)
    ensures
        r@ == match url_host(url@) {
            Some(h) => h,
            None => "unknown"@,
        },
{
    match parse_host(url) {
        Some(h) => h,
        None => String::from_str("unknown"),
    }
}

/// How long to wait before the next request to a host, `elapsed_ms` after
/// the last one, so that requests stay `min_interval_ms` apart.
pub fn host_wait_ms(elapsed_ms: u64, min_interval_ms: u64) -> (r: u64)
    ensures
        r == if elapsed_ms < min_interval_ms { min_interval_ms - elapsed_ms } else { 0 },
{
    if elapsed_ms < min_interval_ms {
        min_interval_ms - elapsed_ms
    } else {
        0
    }
}

} // verus!
