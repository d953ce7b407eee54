//! Certificate Transparency transform: the certificates crt.sh knows for a
//! domain, one entity per distinct common name.

use vstd::prelude::*;
use crate::entity::{
    AdmiraltyCode, Entity, EntityKind, InformationCredibility, Observation, PropertyValue, Provenance,
    SourceReliability,
};
use crate::text::{decimal, decimal_spec, push_str};
use crate::transform::{Relation, TransformError, TransformInput, TransformOutput};

verus! {

/// One entry of the crt.sh JSON answer.
#[derive(Debug, Clone)]
pub struct CrtShEntry {
    pub issuer: Option<String>,
    pub common_name: Option<String>,
    pub name_value: Option<String>,
    pub entry_timestamp: Option<String>,
}

/// Certificate Transparency transform.
pub struct CtTransform;

impl CtTransform {
    pub fn new() -> (r: CtTransform)
        ensures
            r == CtTransform,
    {
        CtTransform
    }

    /// Identifier of the transform.
    pub fn id(&self) -> (r: &'static str)
        ensures
            r@ == "ct:search"@,
    {
        "ct:search"
    }

    /// Name shown to the analyst.
    pub fn display_name(&self) -> (r: &'static str)
        ensures
            r@ == "Certificate Transparency (crt.sh)"@,
    {
        "Certificate Transparency (crt.sh)"
    }

    /// Accepted input kinds.
    pub fn input_kinds(&self) -> (r: Vec<EntityKind>)
        ensures
            r@ == seq![EntityKind::Domain],
    {
        let mut v = Vec::new();
        v.push(EntityKind::Domain);
        assert(v@ =~= seq![EntityKind::Domain]);
        v
    }
}

/// The answer of crt.sh is usable only with a success status (2xx).
pub fn check_ct_status(status: u16) -> (r: Result<(), TransformError>)
    ensures
        r is Ok <==> 200 <= status <= 299,
        r matches Err(e) ==> e matches TransformError::NetworkError(m) && m@ == "crt.sh répond HTTP "@
            + decimal_spec(status as nat),
{
    if status >= 200 && status <= 299 {
        Ok(())
    } else {
        let mut m = String::from_str("crt.sh répond HTTP ");
        push_str(&mut m, decimal(status as u64).as_str());
        Err(TransformError::NetworkError(m))
    }
}

/// The common name of an entry, empty when absent.
pub open spec fn common_name_of(e: CrtShEntry) -> Seq<char> {
    match e.common_name {
        Some(c) => c@,
        None => Seq::empty(),
    }
}

/// The common names of a list of entries.
pub open spec fn names_of(s: Seq<CrtShEntry>) -> Seq<Seq<char>> {
    s.map_values(|e: CrtShEntry| common_name_of(e))
}

/// The entries kept, in order: the first with each non-empty common name.
pub open spec fn kept_entries(s: Seq<CrtShEntry>) -> Seq<CrtShEntry>
    decreases s.len(),
{
    if s.len() == 0 {
        Seq::empty()
    } else {
        let k = kept_entries(s.drop_last());
        let cn = common_name_of(s.last());
        if cn.len() > 0 && !names_of(k).contains(cn) {
            k.push(s.last())
        } else {
            k
        }
    }
}

/// The kept entries that name an issuer, in order.
pub open spec fn with_issuer(s: Seq<CrtShEntry>) -> Seq<CrtShEntry>
    decreases s.len(),
{
    if s.len() == 0 {
        Seq::empty()
    } else if s.last().issuer is Some {
        with_issuer(s.drop_last()).push(s.last())
    } else {
        with_issuer(s.drop_last())
    }
}

/// The entity of a certificate's common name.
pub open spec fn cert_entity(x: Entity, cn: Seq<char>, now: Seq<char>) -> bool {
    &&& x.id@ == "cert-"@ + cn
    &&& x.kind == EntityKind::Domain
    &&& x.canonical_value@ == cn
    &&& x.display_label@ == cn
    &&& x.properties@.len() == 0
    &&& x.created_at@ == now
    &&& x.merged_from@.len() == 0
}

/// The observation of a certificate's issuer.
pub open spec fn issuer_observation(o: Observation, input: TransformInput, e: CrtShEntry, now: Seq<char>) -> bool {
    &&& o.id@ == "obs-ct-issuer-"@ + common_name_of(e)
    &&& o.subject@ == input.entity.id@
    &&& o.predicate@ == "ct_issuer"@
    &&& e.issuer matches Some(i) && o.value matches PropertyValue::String(v) && v@ == i@
    &&& o.source@ == "ct:search"@
    &&& o.method@ == "HTTP_GET"@
    &&& o.observed_at@ == now
    &&& o.valid_from is None && o.valid_to is None
    &&& o.confidence == (AdmiraltyCode {
        source_reliability: SourceReliability::B,
        information_credibility: InformationCredibility::V2,
    })
    &&& o.provenance == Provenance::Collected
    &&& o.raw_hash is None
    &&& o.operator@ == "SPECTRA"@
}

/// What the transform returns for the entries of crt.sh.
pub open spec fn ct_output_is(out: TransformOutput, input: TransformInput, entries: Seq<CrtShEntry>, now: Seq<char>) -> bool {
    let kept = kept_entries(entries);
    let issued = with_issuer(kept);
    &&& out.entities@.len() == kept.len()
    &&& out.relations@.len() == kept.len()
    &&& out.observations@.len() == issued.len()
    &&& forall|i: int| 0 <= i < kept.len() ==> cert_entity(#[trigger] out.entities@[i], common_name_of(kept[i]), now)
    &&& forall|i: int|
        0 <= i < kept.len() ==> {
            let r = #[trigger] out.relations@[i];
            &&& r.source@ == input.entity.id@
            &&& r.target@ == "cert-"@ + common_name_of(kept[i])
            &&& r.kind@ == "has_certificate"@
            &&& r.properties@.len() == 0
        }
    &&& forall|i: int| 0 <= i < issued.len() ==> issuer_observation(#[trigger] out.observations@[i], input, issued[i], now)
}

fn has_name(names: &Vec<String>, cn: &String) -> (r: bool)
    ensures
        r == names@.map_values(|s: String| s@).contains(cn@),
{
    let mut i: usize = 0;
    while i < names.len()
        invariant
            i <= names.len(),
            forall|k: int| 0 <= k < i ==> names@[k]@ != cn@,
        decreases names.len() - i,
    {
        if names[i] == *cn {
            assert(names@.map_values(|s: String| s@)[i as int] == cn@);
            return true;
        }
        i = i + 1;
    }
    proof {
        let m = names@.map_values(|s: String| s@);
        if m.contains(cn@) {
            let k = choose|k: int| 0 <= k < m.len() && #[trigger] m[k] == cn@;
            assert(names@[k]@ == cn@);
        }
    }
    false
}

/// What the transform returns for an input domain and the entries crt.sh
/// gave, observed at `now`: for each distinct non-empty common name, in
/// the order of first appearance, a domain entity that the input has a
/// certificate for, and the issuer of that first entry when it names one.
pub fn ct_output(input: &TransformInput, entries: Vec<CrtShEntry>, now: String) -> (r: TransformOutput)
    ensures
        ct_output_is(r, *input, entries@, now@),
{
    let mut out = TransformOutput { entities: Vec::new(), observations: Vec::new(), relations: Vec::new() };
    let mut names: Vec<String> = Vec::new();
    let ghost kept: Seq<CrtShEntry> = Seq::empty();
    let mut i: usize = 0;
    while i < entries.len()
        invariant
            i <= entries.len(),
            kept == kept_entries(entries@.take(i as int)),
            names@.map_values(|s: String| s@) == names_of(kept),
            ct_output_is(out, *input, entries@.take(i as int), now@),
        decreases entries.len() - i,
    {
        proof {
            assert(entries@.take(i + 1).drop_last() =~= entries@.take(i as int));
            assert(entries@.take(i + 1).last() == entries@[i as int]);
        }
        let e = &entries[i];
        let cn = match &e.common_name {
            Some(c) => c.clone(),
            None => String::new(),
        };
        assert(cn@ == common_name_of(entries@[i as int]));
        if !cn.as_str().is_empty() && !has_name(&names, &cn) {
            let mut id = String::from_str("cert-");
            push_str(&mut id, cn.as_str());
            let ghost before_obs = out.observations@;
            let ghost before_ent = out.entities@;
            let ghost before_rel = out.relations@;
            out.entities.push(Entity {
                id: id.clone(),
                kind: EntityKind::Domain,
                canonical_value: cn.clone(),
                display_label: cn.clone(),
                properties: Vec::new(),
                created_at: now.clone(),
                merged_from: Vec::new(),
            });
            out.relations.push(Relation {
                source: input.entity.id.clone(),
                target: id,
                kind: String::from_str("has_certificate"),
                properties: Vec::new(),
            });
            match &e.issuer {
                Some(issuer) => {
                    let mut oid = String::from_str("obs-ct-issuer-");
                    push_str(&mut oid, cn.as_str());
                    out.observations.push(Observation {
                        id: oid,
                        subject: input.entity.id.clone(),
                        predicate: String::from_str("ct_issuer"),
                        value: PropertyValue::String(issuer.clone()),
                        source: String::from_str("ct:search"),
                        method: String::from_str("HTTP_GET"),
                        observed_at: now.clone(),
                        valid_from: None,
                        valid_to: None,
                        confidence: AdmiraltyCode {
                            source_reliability: SourceReliability::B,
                            information_credibility: InformationCredibility::V2,
                        },
                        provenance: Provenance::Collected,
                        raw_hash: None,
                        operator: String::from_str("SPECTRA"),
                    });
                },
                None => {},
            }
            let ghost new_kept = kept.push(entries@[i as int]);
            proof {
                assert(new_kept == kept_entries(entries@.take(i + 1)));
                assert(new_kept.drop_last() =~= kept);
                assert(with_issuer(new_kept).len() == out.observations@.len());
                assert forall|j: int| 0 <= j < with_issuer(new_kept).len() implies issuer_observation(
                    #[trigger] out.observations@[j],
                    *input,
                    with_issuer(new_kept)[j],
                    now@,
                ) by {
                    if j < before_obs.len() {
                        assert(out.observations@[j] == before_obs[j]);
                    }
                }
                assert forall|j: int| 0 <= j < new_kept.len() implies cert_entity(
                    #[trigger] out.entities@[j],
                    common_name_of(new_kept[j]),
                    now@,
                ) by {
                    if j < before_ent.len() {
                        assert(out.entities@[j] == before_ent[j]);
                    }
                }
                assert forall|j: int| 0 <= j < new_kept.len() implies {
                    let r = #[trigger] out.relations@[j];
                    &&& r.source@ == input.entity.id@
                    &&& r.target@ == "cert-"@ + common_name_of(new_kept[j])
                    &&& r.kind@ == "has_certificate"@
                    &&& r.properties@.len() == 0
                } by {
                    if j < before_rel.len() {
                        assert(out.relations@[j] == before_rel[j]);
                    }
                }
            }
            let ghost before_names = names@.map_values(|s: String| s@);
            names.push(cn);
            proof {
                assert(names@.map_values(|s: String| s@) =~= before_names.push(common_name_of(entries@[i as int])));
                assert(names_of(new_kept) =~= names_of(kept).push(common_name_of(entries@[i as int])));
                kept = new_kept;
            }
        } else {
            proof {
                assert(kept == kept_entries(entries@.take(i + 1)));
            }
        }
        i = i + 1;
    }
    assert(entries@.take(i as int) =~= entries@);
    out
}

} // verus!
