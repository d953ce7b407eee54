//! Metadata read from the answer of an existing account.

use vstd::prelude::*;
use crate::pairs::{set_text, text_map, unique_names};
use crate::probe::decide::{json_pointer, json_pointer_value};
use crate::probe::schema::{Extraction, ExtractionKind};
use crate::text::push_str;

verus! {

/// What `regex::Regex::new(pattern)` then `captures(text)` give for the
/// first group: `None` when the pattern is invalid or nothing matches,
/// `Some(None)` when the match leaves the group out, else the group's text.
pub uninterp spec fn regex_group_one(pattern: Seq<char>, text: Seq<char>) -> Option<Option<Seq<char>>>;

/// `regex::Regex::new`, `Regex::captures` and `Captures::get(1)`.
#[verifier::external_body]
fn regex_first_group(pattern: &str, text: &str) -> (r: Option<Option<String>>)
    ensures
        regex_group_one(pattern@, text@) == match r {
            None => None,
            Some(None) => Some(None),
            Some(Some(s)) => Some(Some(s@)),
        },
{
    match regex::Regex::new(pattern) {
        Err(_) => None,
        Ok(re) => match re.captures(text) {
            None => None,
            Some(cap) => match cap.get(1) {
                None => Some(None),
                Some(m) => Some(Some(m.as_str().to_string())),
            },
        },
    }
}

/// The pattern that finds `attr="value"` (or single quotes) in HTML.
pub open spec fn attribute_pattern(attr: Seq<char>) -> Seq<char> {
    attr + "=[\"']([^\"']+)[\"']"@
}

fn attribute_regex(attr: &str) -> (r: String)
    ensures
        r@ == attribute_pattern(attr@),
{
    let mut r = String::from_str(attr);
    push_str(&mut r, "=[\"']([^\"']+)[\"']");
    r
}

/// The value an extraction reads from a body, if any: the whole body for
/// text, the first group of the attribute or regular-expression match, the
/// value at a JSON pointer (a string without its quotes, any other value as
/// JSON text).
pub open spec fn extraction_value(kind: ExtractionKind, body: Seq<char>) -> Option<Seq<char>> {
    match kind {
        ExtractionKind::Text => Some(body),
        ExtractionKind::Attribute { attr } => match regex_group_one(attribute_pattern(attr@), body) {
            Some(Some(v)) => Some(v),
            _ => None,
        },
        ExtractionKind::JsonPointer { pointer } => match json_pointer_value(body, pointer@) {
            Some(Some(found)) => Some(found.1),
            _ => None,
        },
        ExtractionKind::Regex { pattern } => match regex_group_one(pattern@, body) {
            Some(Some(v)) => Some(v),
            _ => None,
        },
    }
}

/// An attribute extraction whose match leaves its group out: reading the
/// group then fails.
pub open spec fn extraction_fails(kind: ExtractionKind, body: Seq<char>) -> bool {
    match kind {
        ExtractionKind::Attribute { attr } => regex_group_one(attribute_pattern(attr@), body) == Some(
            None::<Seq<char>>,
        ),
        _ => false,
    }
}

/// The metadata read by the extractions, in order: each value found is
/// recorded under the extraction's name, a later one replacing an earlier.
pub open spec fn extracted_map(exts: Seq<Extraction>, body: Seq<char>) -> Map<Seq<char>, Seq<char>>
    decreases exts.len(),
{
    if exts.len() == 0 {
        Map::empty()
    } else {
        let m = extracted_map(exts.drop_last(), body);
        match extraction_value(exts.last().kind, body) {
            Some(v) => m.insert(exts.last().name@, v),
            None => m,
        }
    }
}

fn extract_one(kind: &ExtractionKind, body: &str) -> (r: Option<String>)
    requires
        !extraction_fails(*kind, body@),
    ensures
        match r {
            None => extraction_value(*kind, body@) is None,
            Some(v) => extraction_value(*kind, body@) == Some(v@),
        },
{
    match kind {
        ExtractionKind::Text => Some(String::from_str(body)),
        ExtractionKind::Attribute { attr } => {
            let pattern = attribute_regex(attr.as_str());
            match regex_first_group(pattern.as_str(), body) {
                Some(Some(v)) => Some(v),
                _ => None,
            }
        },
        ExtractionKind::JsonPointer { pointer } => match json_pointer(body, pointer.as_str()) {
            Some(Some((_, t))) => Some(t),
            _ => None,
        },
        ExtractionKind::Regex { pattern } => match regex_first_group(pattern.as_str(), body) {
            Some(Some(v)) => Some(v),
            _ => None,
        },
    }
}

/// Reads the metadata of an answer, name by name.
pub fn extract_metadata(extractions: &Vec<Extraction>, body: &str, final_url: &str) -> (r: Vec<
    (String, String),
>)
    requires
        forall|i: int| 0 <= i < extractions@.len() ==> !extraction_fails(#[trigger] extractions@[i].kind, body@),
    ensures
        unique_names(r@),
        text_map(r@) == extracted_map(extractions@, body@),
{
    let mut result: Vec<(String, String)> = Vec::new();
    let mut i: usize = 0;
    while i < extractions.len()
        invariant
            i <= extractions.len(),
            forall|k: int| 0 <= k < extractions@.len() ==> !extraction_fails(#[trigger] extractions@[k].kind, body@),
            unique_names(result@),
            text_map(result@) == extracted_map(extractions@.take(i as int), body@),
        decreases extractions.len() - i,
    {
        let ext = &extractions[i];
        proof {
            assert(extractions@.take(i as int + 1).drop_last() =~= extractions@.take(i as int));
            assert(extractions@.take(i as int + 1).last() == extractions@[i as int]);
        }
        match extract_one(&ext.kind, body) {
            Some(v) => {
                set_text(&mut result, ext.name.clone(), v);
            },
            None => {},
        }
        i = i + 1;
    }
    assert(extractions@.take(i as int) =~= extractions@);
    result
}

/// Whether every extraction can be read from the body without failing.
fn extractions_readable(extractions: &Vec<Extraction>, body: &str) -> (r: bool)
    ensures
        r <==> forall|i: int| 0 <= i < extractions@.len() ==> !extraction_fails(#[trigger] extractions@[i].kind, body@),
{
    let mut i: usize = 0;
    while i < extractions.len()
        invariant
            i <= extractions.len(),
            forall|k: int| 0 <= k < i ==> !extraction_fails(#[trigger] extractions@[k].kind, body@),
        decreases extractions.len() - i,
    {
        match &extractions[i].kind {
            ExtractionKind::Attribute { attr } => {
                let pattern = attribute_regex(attr.as_str());
                match regex_first_group(pattern.as_str(), body) {
                    Some(None) => {
                        return false;
                    },
                    _ => {},
                }
            },
            _ => {},
        }
        i = i + 1;
    }
    true
}

/// Reads the metadata of an answer when every extraction can be read;
/// `None` when an attribute match leaves its value out.
pub fn try_extract_metadata(extractions: &Vec<Extraction>, body: &str, final_url: &str) -> (r: Option<
    Vec<(String, String)>,
>)
    ensures
        match r {
            None => exists|i: int| 0 <= i < extractions@.len() && extraction_fails(#[trigger] extractions@[i].kind, body@),
            Some(m) => unique_names(m@) && text_map(m@) == extracted_map(extractions@, body@),
        },
{
    if extractions_readable(extractions, body) {
        Some(extract_metadata(extractions, body, final_url))
    } else {
        None
    }
}

} // verus!
