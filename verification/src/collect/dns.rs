//! DNS transform: the addresses and mail exchangers of a domain.

use vstd::prelude::*;
use crate::entity::{
    AdmiraltyCode, Entity, EntityKind, InformationCredibility, Observation, PropertyValue, Provenance,
    SourceReliability,
};
use crate::text::push_str;
use crate::transform::{Relation, TransformError, TransformInput, TransformOutput};

verus! {

/// DNS transform: A, AAAA and MX records of a domain.
pub struct DnsTransform;

impl DnsTransform {
    /// A new transform; nothing is looked up at construction.
    pub fn new() -> (r: DnsTransform)
        ensures
            r == DnsTransform,
    {
        DnsTransform
    }

    /// Identifier of the transform.
    pub fn id(&self) -> (r: &'static str)
        ensures
            r@ == "dns:resolve"@,
    {
        "dns:resolve"
    }

    /// Name shown to the analyst.
    pub fn display_name(&self) -> (r: &'static str)
        ensures
            r@ == "Résolution DNS"@,
    {
        "Résolution DNS"
    }

    /// Accepted input kinds.
    pub fn input_kinds(&self) -> (r: Vec<EntityKind>)
        ensures
            r@ == seq![EntityKind::Domain, EntityKind::IpAddress],
    {
        let mut v = Vec::new();
        v.push(EntityKind::Domain);
        v.push(EntityKind::IpAddress);
        assert(v@ =~= seq![EntityKind::Domain, EntityKind::IpAddress]);
        v
    }
}

/// An input with an empty value is refused before any lookup.
pub fn check_dns_input(input: &TransformInput) -> (r: Result<(), TransformError>)
    ensures
        r is Ok <==> input.entity.canonical_value@.len() > 0,
        r matches Err(e) ==> e matches TransformError::UnsupportedEntityType(m) && m@ == "valeur vide"@,
{
    if input.entity.canonical_value.as_str().is_empty() {
        Err(TransformError::UnsupportedEntityType(String::from_str("valeur vide")))
    } else {
        Ok(())
    }
}

/// A DNS observation of `value`.
pub open spec fn dns_observation(
    o: Observation,
    input: TransformInput,
    kind: Seq<char>,
    predicate: Seq<char>,
    value: Seq<char>,
    now: Seq<char>,
) -> bool {
    &&& o.id@ == "obs-dns-"@ + kind + "-"@ + value
    &&& o.subject@ == input.entity.id@
    &&& o.predicate@ == predicate
    &&& o.value matches PropertyValue::String(v) && v@ == value
    &&& o.source@ == "dns:resolve"@
    &&& o.method@ == "DNS_LOOKUP"@
    &&& o.observed_at@ == now
    &&& o.valid_from is None && o.valid_to is None
    &&& o.confidence == (AdmiraltyCode {
        source_reliability: SourceReliability::B,
        information_credibility: InformationCredibility::V2,
    })
    &&& o.provenance == Provenance::Collected
    &&& o.raw_hash is None
    &&& o.operator@ == "SPECTRA"@
}

/// What the DNS transform returns for a domain, given its addresses, its
/// mail exchangers and its TXT records (as text): an address entity for
/// each address that the domain resolves to, with an observation each, then
/// an observation for each mail exchanger, then one for each TXT record.
pub open spec fn dns_output_is(
    out: TransformOutput,
    input: TransformInput,
    ips: Seq<String>,
    mx: Seq<String>,
    txt: Seq<String>,
    now: Seq<char>,
) -> bool {
    &&& out.entities@.len() == ips.len()
    &&& out.relations@.len() == ips.len()
    &&& out.observations@.len() == ips.len() + mx.len() + txt.len()
    &&& forall|i: int|
        0 <= i < ips.len() ==> {
            let x = #[trigger] out.entities@[i];
            &&& x.id@ == "ip-"@ + ips[i]@
            &&& x.kind == EntityKind::IpAddress
            &&& x.canonical_value@ == ips[i]@
            &&& x.display_label@ == ips[i]@
            &&& x.properties@.len() == 0
            &&& x.created_at@ == now
            &&& x.merged_from@.len() == 0
        }
    &&& forall|i: int|
        0 <= i < ips.len() ==> {
            let r = #[trigger] out.relations@[i];
            &&& r.source@ == input.entity.id@
            &&& r.target@ == "ip-"@ + ips[i]@
            &&& r.kind@ == "resolves_to"@
            &&& r.properties@.len() == 0
        }
    &&& forall|i: int| 0 <= i < ips.len() ==> dns_observation(#[trigger] out.observations@[i], input, "a"@, "dns_a"@, ips[i]@, now)
    &&& forall|i: int|
        0 <= i < mx.len() ==> dns_observation(
            #[trigger] out.observations@[ips.len() + i],
            input,
            "mx"@,
            "dns_mx"@,
            mx[i]@,
            now,
        )
    &&& forall|i: int|
        0 <= i < txt.len() ==> dns_observation(
            #[trigger] out.observations@[ips.len() + mx.len() + i],
            input,
            "txt"@,
            "dns_txt"@,
            txt[i]@,
            now,
        )
}

fn make_dns_observation(input: &TransformInput, kind: &str, predicate: &str, value: &String, now: &String) -> (o: Observation)
    ensures
        dns_observation(o, *input, kind@, predicate@, value@, now@),
{
    let mut id = String::from_str("obs-dns-");
    push_str(&mut id, kind);
    push_str(&mut id, "-");
    push_str(&mut id, value.as_str());
    Observation {
        id,
        subject: input.entity.id.clone(),
        predicate: String::from_str(predicate),
        value: PropertyValue::String(value.clone()),
        source: String::from_str("dns:resolve"),
        method: String::from_str("DNS_LOOKUP"),
        observed_at: now.clone(),
        valid_from: None,
        valid_to: None,
        confidence: AdmiraltyCode {
            source_reliability: SourceReliability::B,
            information_credibility: InformationCredibility::V2,
        },
        provenance: Provenance::Collected,
        raw_hash: None,
        operator: String::from_str("SPECTRA"),
    }
}

/// What the DNS transform returns for a domain, given its addresses, its
/// mail exchangers and its TXT records, observed at `now`.
pub fn dns_output(input: &TransformInput, ips: &Vec<String>, mx: &Vec<String>, txt: &Vec<String>, now: &String) -> (r: TransformOutput)
    ensures
        dns_output_is(r, *input, ips@, mx@, txt@, now@),
{
    let mut out = TransformOutput { entities: Vec::new(), observations: Vec::new(), relations: Vec::new() };
    let mut i: usize = 0;
    while i < ips.len()
        invariant
            i <= ips.len(),
            out.entities@.len() == i,
            out.relations@.len() == i,
            out.observations@.len() == i,
            forall|k: int|
                0 <= k < i ==> {
                    let x = #[trigger] out.entities@[k];
                    &&& x.id@ == "ip-"@ + ips@[k]@
                    &&& x.kind == EntityKind::IpAddress
                    &&& x.canonical_value@ == ips@[k]@
                    &&& x.display_label@ == ips@[k]@
                    &&& x.properties@.len() == 0
                    &&& x.created_at@ == now@
                    &&& x.merged_from@.len() == 0
                },
            forall|k: int|
                0 <= k < i ==> {
                    let r = #[trigger] out.relations@[k];
                    &&& r.source@ == input.entity.id@
                    &&& r.target@ == "ip-"@ + ips@[k]@
                    &&& r.kind@ == "resolves_to"@
                    &&& r.properties@.len() == 0
                },
            forall|k: int| 0 <= k < i ==> dns_observation(#[trigger] out.observations@[k], *input, "a"@, "dns_a"@, ips@[k]@, now@),
        decreases ips.len() - i,
    {
        let ip = &ips[i];
        let mut id = String::from_str("ip-");
        push_str(&mut id, ip.as_str());
        out.entities.push(Entity {
            id: id.clone(),
            kind: EntityKind::IpAddress,
            canonical_value: ip.clone(),
            display_label: ip.clone(),
            properties: Vec::new(),
            created_at: now.clone(),
            merged_from: Vec::new(),
        });
        out.relations.push(Relation {
            source: input.entity.id.clone(),
            target: id,
            kind: String::from_str("resolves_to"),
            properties: Vec::new(),
        });
        out.observations.push(make_dns_observation(input, "a", "dns_a", ip, now));
        i = i + 1;
    }
    let mut j: usize = 0;
    while j < mx.len()
        invariant
            j <= mx.len(),
            out.entities@.len() == ips@.len(),
            out.relations@.len() == ips@.len(),
            out.observations@.len() == ips@.len() + j,
            forall|k: int|
                0 <= k < ips@.len() ==> {
                    let x = #[trigger] out.entities@[k];
                    &&& x.id@ == "ip-"@ + ips@[k]@
                    &&& x.kind == EntityKind::IpAddress
                    &&& x.canonical_value@ == ips@[k]@
                    &&& x.display_label@ == ips@[k]@
                    &&& x.properties@.len() == 0
                    &&& x.created_at@ == now@
                    &&& x.merged_from@.len() == 0
                },
            forall|k: int|
                0 <= k < ips@.len() ==> {
                    let r = #[trigger] out.relations@[k];
                    &&& r.source@ == input.entity.id@
                    &&& r.target@ == "ip-"@ + ips@[k]@
                    &&& r.kind@ == "resolves_to"@
                    &&& r.properties@.len() == 0
                },
            forall|k: int| 0 <= k < ips@.len() ==> dns_observation(#[trigger] out.observations@[k], *input, "a"@, "dns_a"@, ips@[k]@, now@),
            forall|k: int|
                0 <= k < j ==> dns_observation(
                    #[trigger] out.observations@[ips@.len() + k],
                    *input,
                    "mx"@,
                    "dns_mx"@,
                    mx@[k]@,
                    now@,
                ),
        decreases mx.len() - j,
    {
        let ghost before = out.observations@;
        out.observations.push(make_dns_observation(input, "mx", "dns_mx", &mx[j], now));
        proof {
            assert forall|k: int| 0 <= k < ips@.len() implies dns_observation(#[trigger] out.observations@[k], *input, "a"@, "dns_a"@, ips@[k]@, now@) by {
                assert(out.observations@[k] == before[k]);
            }
            assert forall|k: int| 0 <= k < j + 1 implies dns_observation(
                #[trigger] out.observations@[ips@.len() + k],
                *input,
                "mx"@,
                "dns_mx"@,
                mx@[k]@,
                now@,
            ) by {
                if k < j {
                    assert(out.observations@[ips@.len() + k] == before[ips@.len() + k]);
                }
            }
        }
        j = j + 1;
    }
    let base = out.observations.len();
    let mut t: usize = 0;
    while t < txt.len()
        invariant
            t <= txt.len(),
            base == ips@.len() + mx@.len(),
            out.entities@.len() == ips@.len(),
            out.relations@.len() == ips@.len(),
            out.observations@.len() == base + t,
            forall|k: int|
                0 <= k < ips@.len() ==> {
                    let x = #[trigger] out.entities@[k];
                    &&& x.id@ == "ip-"@ + ips@[k]@
                    &&& x.kind == EntityKind::IpAddress
                    &&& x.canonical_value@ == ips@[k]@
                    &&& x.display_label@ == ips@[k]@
                    &&& x.properties@.len() == 0
                    &&& x.created_at@ == now@
                    &&& x.merged_from@.len() == 0
                },
            forall|k: int|
                0 <= k < ips@.len() ==> {
                    let r = #[trigger] out.relations@[k];
                    &&& r.source@ == input.entity.id@
                    &&& r.target@ == "ip-"@ + ips@[k]@
                    &&& r.kind@ == "resolves_to"@
                    &&& r.properties@.len() == 0
                },
            forall|k: int| 0 <= k < ips@.len() ==> dns_observation(#[trigger] out.observations@[k], *input, "a"@, "dns_a"@, ips@[k]@, now@),
            forall|k: int|
                0 <= k < mx@.len() ==> dns_observation(
                    #[trigger] out.observations@[ips@.len() + k],
                    *input,
                    "mx"@,
                    "dns_mx"@,
                    mx@[k]@,
                    now@,
                ),
            forall|k: int|
                0 <= k < t ==> dns_observation(
                    #[trigger] out.observations@[base + k],
                    *input,
                    "txt"@,
                    "dns_txt"@,
                    txt@[k]@,
                    now@,
                ),
        decreases txt.len() - t,
    {
        let ghost before = out.observations@;
        out.observations.push(make_dns_observation(input, "txt", "dns_txt", &txt[t], now));
        proof {
            assert forall|k: int| 0 <= k < ips@.len() implies dns_observation(#[trigger] out.observations@[k], *input, "a"@, "dns_a"@, ips@[k]@, now@) by {
                assert(out.observations@[k] == before[k]);
            }
            assert forall|k: int| 0 <= k < mx@.len() implies dns_observation(
                #[trigger] out.observations@[ips@.len() + k],
                *input,
                "mx"@,
                "dns_mx"@,
                mx@[k]@,
                now@,
            ) by {
                assert(out.observations@[ips@.len() + k] == before[ips@.len() + k]);
            }
            assert forall|k: int| 0 <= k < t + 1 implies dns_observation(
                #[trigger] out.observations@[base + k],
                *input,
                "txt"@,
                "dns_txt"@,
                txt@[k]@,
                now@,
            ) by {
                if k < t {
                    assert(out.observations@[base + k] == before[base + k]);
                }
            }
        }
        t = t + 1;
    }
    out
}

} // verus!
