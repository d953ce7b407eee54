//! Domain model: entities and observations.
//!
//! A property is never a bare fact: it is an observation, dated, sourced and
//! qualified by an Admiralty code. The graph shown to an analyst is a
//! projection of observations at a given time.

use vstd::prelude::*;
use crate::json::{JsonValue, canonical_json, canonical_spec, json_quoted, json_string_literal, key_lt, key_less};
use crate::text::{chars_of, decimal, decimal_spec, push_char, push_str};

verus! {

/// Where an observation comes from.
#[derive(Debug, Clone, Copy, PartialEq, Eq, Structural, PartialOrd, Ord)]
pub enum Provenance {
    /// Collected from an outside source (HTTP, file, API).
    Collected,
    /// Asserted by an analyst.
    Asserted,
    /// Inferred by a model (AI, non-deterministic heuristic).
    Inferred,
}

/// Reliability of a source (Admiralty scale), `A` (very reliable) to `F`
/// (unknown).
#[derive(Debug, Clone, Copy, PartialEq, Eq, Structural, PartialOrd, Ord)]
pub enum SourceReliability {
    A,
    B,
    C,
    D,
    E,
    F,
}

/// Credibility of an information (Admiralty scale), `1` (confirmed) to `6`
/// (not verified).
#[derive(Debug, Clone, Copy, PartialEq, Eq, Structural, PartialOrd, Ord)]
pub enum InformationCredibility {
    V1,
    V2,
    V3,
    V4,
    V5,
    V6,
}

/// Admiralty confidence code, `A1` to `F6`.
#[derive(Debug, Clone, Copy, PartialEq, Eq, Structural, PartialOrd, Ord)]
pub struct AdmiraltyCode {
    pub source_reliability: SourceReliability,
    pub information_credibility: InformationCredibility,
}

/// The reliability written by a letter `A` to `F`.
pub open spec fn reliability_of(c: char) -> Option<SourceReliability> {
    if c == 'A' {
        Some(SourceReliability::A)
    } else if c == 'B' {
        Some(SourceReliability::B)
    } else if c == 'C' {
        Some(SourceReliability::C)
    } else if c == 'D' {
        Some(SourceReliability::D)
    } else if c == 'E' {
        Some(SourceReliability::E)
    } else if c == 'F' {
        Some(SourceReliability::F)
    } else {
        None
    }
}

/// The credibility written by a digit `1` to `6`.
pub open spec fn credibility_of(c: char) -> Option<InformationCredibility> {
    if c == '1' {
        Some(InformationCredibility::V1)
    } else if c == '2' {
        Some(InformationCredibility::V2)
    } else if c == '3' {
        Some(InformationCredibility::V3)
    } else if c == '4' {
        Some(InformationCredibility::V4)
    } else if c == '5' {
        Some(InformationCredibility::V5)
    } else if c == '6' {
        Some(InformationCredibility::V6)
    } else {
        None
    }
}

/// The code written by two characters such as `"B3"`, if it is one.
pub open spec fn admiralty_spec(s: Seq<char>) -> Option<AdmiraltyCode> {
    if s.len() == 2 && reliability_of(s[0]) is Some && credibility_of(s[1]) is Some {
        Some(
            AdmiraltyCode {
                source_reliability: reliability_of(s[0])->0,
                information_credibility: credibility_of(s[1])->0,
            },
        )
    } else {
        None
    }
}

/// The place of a reliability on its scale, `A` first.
pub open spec fn reliability_rank(r: SourceReliability) -> int {
    match r {
        SourceReliability::A => 0,
        SourceReliability::B => 1,
        SourceReliability::C => 2,
        SourceReliability::D => 3,
        SourceReliability::E => 4,
        SourceReliability::F => 5,
    }
}

/// The order of codes: by reliability, then by credibility; `A1` is the
/// least and `F6` the greatest.
pub open spec fn admiralty_lt(a: AdmiraltyCode, b: AdmiraltyCode) -> bool {
    ||| reliability_rank(a.source_reliability) < reliability_rank(b.source_reliability)
    ||| (a.source_reliability == b.source_reliability && credibility_rank_spec(a.information_credibility)
        < credibility_rank_spec(b.information_credibility))
}

fn reliability_from_char(c: char) -> (r: Option<SourceReliability>)
    ensures
        r == reliability_of(c),
{
    match c {
        'A' => Some(SourceReliability::A),
        'B' => Some(SourceReliability::B),
        'C' => Some(SourceReliability::C),
        'D' => Some(SourceReliability::D),
        'E' => Some(SourceReliability::E),
        'F' => Some(SourceReliability::F),
        _ => None,
    }
}

fn credibility_from_char(c: char) -> (r: Option<InformationCredibility>)
    ensures
        r == credibility_of(c),
{
    match c {
        '1' => Some(InformationCredibility::V1),
        '2' => Some(InformationCredibility::V2),
        '3' => Some(InformationCredibility::V3),
        '4' => Some(InformationCredibility::V4),
        '5' => Some(InformationCredibility::V5),
        '6' => Some(InformationCredibility::V6),
        _ => None,
    }
}

impl AdmiraltyCode {
    /// `"B3"` gives `Some(B, V3)`; anything that is not a letter `A`–`F`
    /// followed by a digit `1`–`6` gives `None`.
    pub fn from_str(s: &str) -> (r: Option<AdmiraltyCode>)
        ensures
            r == admiralty_spec(s@),
    {
        if s.unicode_len() != 2 {
            return None;
        }
        let src = s.get_char(0);
        let cred = s.get_char(1);
        let source_reliability = match reliability_from_char(src) {
            Some(r) => r,
            None => {
                return None;
            },
        };
        let information_credibility = match credibility_from_char(cred) {
            Some(c) => c,
            None => {
                return None;
            },
        };
        Some(AdmiraltyCode { source_reliability, information_credibility })
    }
}

/// The rank of a credibility, `1` to `6`.
pub open spec fn credibility_rank_spec(c: InformationCredibility) -> int {
    match c {
        InformationCredibility::V1 => 1,
        InformationCredibility::V2 => 2,
        InformationCredibility::V3 => 3,
        InformationCredibility::V4 => 4,
        InformationCredibility::V5 => 5,
        InformationCredibility::V6 => 6,
    }
}

impl InformationCredibility {
    /// The number of the credibility, `1` to `6`.
    pub fn rank(&self) -> (r: i64)
        ensures
            r == credibility_rank_spec(*self),
    {
        match self {
            InformationCredibility::V1 => 1,
            InformationCredibility::V2 => 2,
            InformationCredibility::V3 => 3,
            InformationCredibility::V4 => 4,
            InformationCredibility::V5 => 5,
            InformationCredibility::V6 => 6,
        }
    }

    /// The credibility of a stored number; anything outside `1`–`5` reads as
    /// `V6` (not verified).
    pub fn from_rank(n: i64) -> (r: InformationCredibility)
        ensures
            1 <= n <= 6 ==> credibility_rank_spec(r) == n,
            !(1 <= n <= 5) ==> r == InformationCredibility::V6,
    {
        if n == 1 {
            InformationCredibility::V1
        } else if n == 2 {
            InformationCredibility::V2
        } else if n == 3 {
            InformationCredibility::V3
        } else if n == 4 {
            InformationCredibility::V4
        } else if n == 5 {
            InformationCredibility::V5
        } else {
            InformationCredibility::V6
        }
    }
}

/// Law: codes written as text are ordered as their texts are: of two
/// codes that `from_str` reads, the one whose text comes first (character
/// by character) is the lesser, and equal texts give equal codes.
pub proof fn law_admiralty_order_follows_text(s1: Seq<char>, s2: Seq<char>)
    requires
        admiralty_spec(s1) is Some,
        admiralty_spec(s2) is Some,
    ensures
        key_lt(s1, s2) <==> admiralty_lt(admiralty_spec(s1)->0, admiralty_spec(s2)->0),
        s1 == s2 <==> admiralty_spec(s1)->0 == admiralty_spec(s2)->0,
{
    reveal_with_fuel(key_lt, 3);
    let a = s1.drop_first();
    let b = s2.drop_first();
    assert(a.len() == 1 && b.len() == 1);
    assert(key_lt(s1, s2) == ((s1[0] as int) < (s2[0] as int) || (s1[0] == s2[0] && key_lt(a, b))));
    assert(key_lt(a, b) == ((a[0] as int) < (b[0] as int) || (a[0] == b[0] && key_lt(a.drop_first(), b.drop_first()))));
    assert(a.drop_first().len() == 0 && b.drop_first().len() == 0);
    assert(a[0] == s1[1] && b[0] == s2[1]);
    if s1[0] == s2[0] && s1[1] == s2[1] {
        assert(s1 =~= s2);
    }
}

/// Law: storing a credibility as its number and reading it back gives it
/// back.
pub proof fn law_credibility_rank_roundtrip(c: InformationCredibility)
    ensures
        1 <= credibility_rank_spec(c) <= 6,
        forall|r: InformationCredibility| credibility_rank_spec(r) == credibility_rank_spec(c) ==> r == c,
{
}

/// Kind of entity.
#[derive(Debug, Clone, Copy, PartialEq, Eq, Structural)]
pub enum EntityKind {
    Person,
    Alias,
    EmailAddress,
    PhoneNumber,
    Username,
    SocialProfile,
    Domain,
    IpAddress,
    Netblock,
    Organization,
    Location,
    Document,
    Image,
    CryptoAddress,
    Device,
    Event,
    Vehicle,
}

/// The name of an entity kind, as `{:?}` writes it.
pub open spec fn kind_name(k: EntityKind) -> Seq<char> {
    match k {
        EntityKind::Person => "Person"@,
        EntityKind::Alias => "Alias"@,
        EntityKind::EmailAddress => "EmailAddress"@,
        EntityKind::PhoneNumber => "PhoneNumber"@,
        EntityKind::Username => "Username"@,
        EntityKind::SocialProfile => "SocialProfile"@,
        EntityKind::Domain => "Domain"@,
        EntityKind::IpAddress => "IpAddress"@,
        EntityKind::Netblock => "Netblock"@,
        EntityKind::Organization => "Organization"@,
        EntityKind::Location => "Location"@,
        EntityKind::Document => "Document"@,
        EntityKind::Image => "Image"@,
        EntityKind::CryptoAddress => "CryptoAddress"@,
        EntityKind::Device => "Device"@,
        EntityKind::Event => "Event"@,
        EntityKind::Vehicle => "Vehicle"@,
    }
}

impl EntityKind {
    /// The name of the kind, as `{:?}` writes it.
    pub fn name(&self) -> (r: &'static str)
        ensures
            r@ == kind_name(*self),
    {
        match self {
            EntityKind::Person => "Person",
            EntityKind::Alias => "Alias",
            EntityKind::EmailAddress => "EmailAddress",
            EntityKind::PhoneNumber => "PhoneNumber",
            EntityKind::Username => "Username",
            EntityKind::SocialProfile => "SocialProfile",
            EntityKind::Domain => "Domain",
            EntityKind::IpAddress => "IpAddress",
            EntityKind::Netblock => "Netblock",
            EntityKind::Organization => "Organization",
            EntityKind::Location => "Location",
            EntityKind::Document => "Document",
            EntityKind::Image => "Image",
            EntityKind::CryptoAddress => "CryptoAddress",
            EntityKind::Device => "Device",
            EntityKind::Event => "Event",
            EntityKind::Vehicle => "Vehicle",
        }
    }
}

/// Value of a property. A floating-point number is held as its decimal text.
#[derive(Debug, Clone)]
pub enum PropertyValue {
    String(String),
    Integer(i64),
    Float(String),
    Boolean(bool),
    DateTime(String),
    Json(JsonValue),
}

/// The decimal text of a signed integer.
pub open spec fn signed_decimal_spec(n: int) -> Seq<char> {
    if n < 0 {
        seq!['-'] + decimal_spec((-n) as nat)
    } else {
        decimal_spec(n as nat)
    }
}

/// The decimal text of a signed integer.
pub fn signed_decimal(n: i64) -> (r: String)
    ensures
        r@ == signed_decimal_spec(n as int),
{
    if n < 0 {
        let magnitude: u64 = ((-(n + 1)) as u64) + 1;
        let digits = decimal(magnitude);
        let mut r = String::new();
        push_char(&mut r, '-');
        push_str(&mut r, digits.as_str());
        r
    } else {
        decimal(n as u64)
    }
}

/// The JSON text of a property value (its untagged serialisation).
pub open spec fn property_json_spec(v: PropertyValue) -> Seq<char> {
    match v {
        PropertyValue::String(s) => json_quoted(s@),
        PropertyValue::Integer(i) => signed_decimal_spec(i as int),
        PropertyValue::Float(t) => t@,
        PropertyValue::Boolean(b) => if b { "true"@ } else { "false"@ },
        PropertyValue::DateTime(s) => json_quoted(s@),
        PropertyValue::Json(j) => canonical_spec(j),
    }
}

impl PropertyValue {
    /// The JSON text of the value.
    pub fn to_json(&self) -> (r: String)
        ensures
            r@ == property_json_spec(*self),
    {
        match self {
            PropertyValue::String(s) => json_string_literal(s.as_str()),
            PropertyValue::Integer(i) => signed_decimal(*i),
            PropertyValue::Float(t) => t.clone(),
            PropertyValue::Boolean(b) => {
                if *b {
                    String::from_str("true")
                } else {
                    String::from_str("false")
                }
            },
            PropertyValue::DateTime(s) => json_string_literal(s.as_str()),
            PropertyValue::Json(j) => canonical_json(j),
        }
    }
}

/// An entity of the graph. Its properties are kept sorted by key, each key
/// once.
#[derive(Debug, Clone)]
pub struct Entity {
    pub id: String,
    pub kind: EntityKind,
    /// Normalised value (lower-case email, E.164 phone number, ...).
    pub canonical_value: String,
    /// Label shown to the analyst.
    pub display_label: String,
    /// Derived properties, by key.
    pub properties: Vec<(String, PropertyValue)>,
    pub created_at: String,
    /// Merges are reversible: the absorbed entities are kept here.
    pub merged_from: Vec<String>,
}

/// An observation: a property, sourced, dated and qualified.
#[derive(Debug, Clone)]
pub struct Observation {
    pub id: String,
    pub subject: String,
    /// Predicate: `"email"`, `"pseudo"`, `"avatar_url"`, `"bio"`, ...
    pub predicate: String,
    pub value: PropertyValue,
    /// Transform name, plugin identifier or analyst.
    pub source: String,
    /// Acquisition method: `"HTTP_GET"`, `"WHOIS"`, `"MANUAL"`, ...
    pub method: String,
    /// When the observation was made.
    pub observed_at: String,
    /// When it became true, if known.
    pub valid_from: Option<String>,
    /// When it stopped being true, if known.
    pub valid_to: Option<String>,
    pub confidence: AdmiraltyCode,
    pub provenance: Provenance,
    /// Hash of the archived raw content, if any.
    pub raw_hash: Option<String>,
    /// Analyst or process behind the observation.
    pub operator: String,
}

/// Keys strictly increasing: a map kept in key order.
pub open spec fn keys_sorted(p: Seq<(String, PropertyValue)>) -> bool {
    forall|i: int, j: int| 0 <= i < j < p.len() ==> key_lt(#[trigger] p[i].0@, #[trigger] p[j].0@)
}

/// The property list read as a map from key to value.
pub open spec fn property_map(p: Seq<(String, PropertyValue)>) -> Map<Seq<char>, PropertyValue> {
    Map::new(
        |k: Seq<char>| exists|i: int| 0 <= i < p.len() && p[i].0@ == k,
        |k: Seq<char>| p[choose|i: int| 0 <= i < p.len() && p[i].0@ == k].1,
    )
}

proof fn lemma_sorted_keys_unique(p: Seq<(String, PropertyValue)>, i: int, j: int)
    requires
        keys_sorted(p),
        0 <= i < p.len(),
        0 <= j < p.len(),
        p[i].0@ == p[j].0@,
    ensures
        i == j,
{
    if i < j {
        crate::json::lemma_key_lt_irreflexive(p[i].0@);
    } else if j < i {
        crate::json::lemma_key_lt_irreflexive(p[i].0@);
    }
}

/// Inserts or replaces the property `key` in a list kept in key order.
pub fn insert_property(props: &mut Vec<(String, PropertyValue)>, key: String, value: PropertyValue)
    requires
        keys_sorted(old(props)@),
    ensures
        keys_sorted(final(props)@),
        property_map(final(props)@) == property_map(old(props)@).insert(key@, value),
{
    let kc = chars_of(key.as_str());
    let mut j: usize = 0;
    while j < props.len()
        invariant
            props@ == old(props)@,
            j <= props.len(),
            kc@ == key@,
            forall|k: int| 0 <= k < j ==> key_lt(#[trigger] props@[k].0@, key@),
        ensures
            j <= props.len(),
            j < props.len() ==> !key_lt(props@[j as int].0@, key@),
            forall|k: int| 0 <= k < j ==> key_lt(#[trigger] props@[k].0@, key@),
        decreases props.len() - j,
    {
        let pc = chars_of(props[j].0.as_str());
        if !key_less(&pc, &kc) {
            break;
        }
        j = j + 1;
    }
    let ghost old_p = props@;
    let replace = j < props.len() && props[j].0 == key;
    if replace {
        props.remove(j);
    }
    let ghost mid = props@;
    let ghost kv = key@;
    props.insert(j, (key, value));
    proof {
        let p = props@;
        if replace {
            assert(mid =~= old_p.take(j as int) + old_p.skip(j + 1));
            assert(p =~= old_p.take(j as int) + seq![p[j as int]] + old_p.skip(j + 1));
        } else {
            assert(p =~= old_p.take(j as int) + seq![p[j as int]] + old_p.skip(j as int));
            if j < old_p.len() {
                crate::json::lemma_key_lt_total(old_p[j as int].0@, kv);
            }
        }
        assert forall|a: int, b: int| 0 <= a < b < p.len() implies key_lt(#[trigger] p[a].0@, #[trigger] p[b].0@) by {
            let off: int = if replace { 1 } else { 0 };
            if a < j && b < j {
                assert(p[a] == old_p[a] && p[b] == old_p[b]);
            } else if a < j && b == j {
            } else if a < j && b > j {
                assert(p[b] == old_p[b - 1 + off]);
                assert(p[a] == old_p[a]);
                if b - 1 + off > a {
                    assert(key_lt(old_p[a].0@, old_p[b - 1 + off].0@));
                }
            } else if a == j {
                assert(p[b] == old_p[b - 1 + off]);
                if replace {
                    assert(key_lt(old_p[j as int].0@, old_p[b - 1 + off].0@));
                } else {
                    assert(b - 1 >= j);
                    if b - 1 > j {
                        assert(key_lt(old_p[j as int].0@, old_p[b - 1].0@));
                        crate::json::lemma_key_lt_transitive(kv, old_p[j as int].0@, old_p[b - 1].0@);
                    }
                }
            } else {
                assert(p[a] == old_p[a - 1 + off] && p[b] == old_p[b - 1 + off]);
            }
        }
        assert(property_map(p) =~= property_map(old_p).insert(kv, value)) by {
            assert forall|k: Seq<char>| #[trigger] property_map(p).contains_key(k) <==> property_map(old_p).insert(kv, value).contains_key(k) by {
                if property_map(p).contains_key(k) {
                    let i = choose|i: int| 0 <= i < p.len() && p[i].0@ == k;
                    if i < j {
                        assert(p[i] == old_p[i]);
                    } else if i > j {
                        let off: int = if replace { 1 } else { 0 };
                        assert(p[i] == old_p[i - 1 + off]);
                    }
                }
                if property_map(old_p).contains_key(k) {
                    let i = choose|i: int| 0 <= i < old_p.len() && old_p[i].0@ == k;
                    if i < j {
                        assert(p[i] == old_p[i]);
                    } else if replace && i == j {
                        assert(p[j as int].0@ == kv);
                    } else {
                        let off: int = if replace { 1 } else { 0 };
                        assert(p[i + 1 - off] == old_p[i]);
                    }
                }
                if k == kv {
                    assert(p[j as int].0@ == kv);
                }
            }
            assert forall|k: Seq<char>| #[trigger] property_map(p).contains_key(k) implies property_map(p)[k] == property_map(old_p).insert(kv, value)[k] by {
                let i = choose|i: int| 0 <= i < p.len() && p[i].0@ == k;
                assert(keys_sorted(p));
                if k == kv {
                    assert(p[j as int].0@ == kv);
                    lemma_sorted_keys_unique(p, i, j as int);
                } else {
                    let i2 = choose|i2: int| 0 <= i2 < old_p.len() && old_p[i2].0@ == k;
                    let off: int = if replace { 1 } else { 0 };
                    if i < j {
                        assert(p[i] == old_p[i]);
                        lemma_sorted_keys_unique(old_p, i, i2);
                    } else {
                        assert(i != j);
                        assert(p[i] == old_p[i - 1 + off]);
                        lemma_sorted_keys_unique(old_p, i - 1 + off, i2);
                    }
                }
            }
        }
    }
}

} // verus!
