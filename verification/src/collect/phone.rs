//! Phone transform: E.164 normalisation and operator guess.

use vstd::prelude::*;
use crate::entity::{
    AdmiraltyCode, Entity, EntityKind, InformationCredibility, Observation, PropertyValue, Provenance,
    SourceReliability, insert_property, keys_sorted, property_map,
};
use crate::text::{push_char, push_str};
use crate::transform::{TransformError, TransformInput, TransformOutput, now_rfc3339};

verus! {

/// `c` is an ASCII digit.
pub open spec fn is_digit(c: char) -> bool {
    '0' <= c && c <= '9'
}

/// The ASCII digits of `s`, in order.
pub open spec fn ascii_digits(s: Seq<char>) -> Seq<char>
    decreases s.len(),
{
    if s.len() == 0 {
        s
    } else if is_digit(s.last()) {
        ascii_digits(s.drop_last()).push(s.last())
    } else {
        ascii_digits(s.drop_last())
    }
}

/// E.164 form of a raw number: a national French number `0XXXXXXXXX` gets
/// `+33` in place of its `0`; eleven digits starting with `1` (US) or `33`
/// get a `+`; a number written with a leading `+` keeps it. Fewer than 8
/// digits, or any other shape, gives `None`.
pub open spec fn e164_spec(raw: Seq<char>) -> Option<Seq<char>> {
    let d = ascii_digits(raw);
    if d.len() < 8 {
        None
    } else if d[0] == '0' && d.len() == 10 {
        Some("+33"@ + d.drop_first())
    } else if d[0] == '1' && d.len() == 11 {
        Some(seq!['+'] + d)
    } else if d[0] == '3' && d[1] == '3' && d.len() == 11 {
        Some(seq!['+'] + d)
    } else if raw.len() > 0 && raw[0] == '+' {
        Some(seq!['+'] + d)
    } else {
        None
    }
}

/// Operator guessed from a French E.164 number: `6` or `7` after `+33` is a
/// mobile, `1`–`5` or `9` a landline; anything else is unknown.
pub open spec fn operator_spec(e164: Seq<char>) -> Seq<char> {
    if e164.len() > 3 && e164[0] == '+' && e164[1] == '3' && e164[2] == '3' {
        let c = e164[3];
        if c == '6' || c == '7' {
            "Mobile"@
        } else if c == '1' || c == '2' || c == '3' || c == '4' || c == '5' || c == '9' {
            "Fixe"@
        } else {
            "Inconnu"@
        }
    } else {
        "Inconnu"@
    }
}

/// Native phone transform.
pub struct PhoneTransform;

impl PhoneTransform {
    pub fn new() -> (r: PhoneTransform)
        ensures
            r == PhoneTransform,
    {
        PhoneTransform
    }

    /// Identifier of the transform.
    pub fn id(&self) -> (r: &'static str)
        ensures
            r@ == "collect:phone"@,
    {
        "collect:phone"
    }

    /// Name shown to the analyst.
    pub fn display_name(&self) -> (r: &'static str)
        ensures
            r@ == "Téléphone — E.164, opérateur"@,
    {
        "Téléphone — E.164, opérateur"
    }

    /// Accepted input kinds.
    pub fn input_kinds(&self) -> (r: Vec<EntityKind>)
        ensures
            r@ == seq![EntityKind::PhoneNumber],
    {
        let mut v = Vec::new();
        v.push(EntityKind::PhoneNumber);
        assert(v@ =~= seq![EntityKind::PhoneNumber]);
        v
    }

    /// Normalises a number to a basic E.164 form; accepts
    /// `+33 6 12 34 56 78`, `06 12 34 56 78`, ...
    pub fn normalize_e164(raw: &str) -> (r: Option<String>)
        ensures
            match r {
                Some(s) => e164_spec(raw@) == Some(s@),
                None => e164_spec(raw@) is None,
            },
    {
        let n = raw.unicode_len();
        let mut digits: Vec<char> = Vec::new();
        let mut i: usize = 0;
        while i < n
            invariant
                n == raw@.len(),
                i <= n,
                digits@ == ascii_digits(raw@.take(i as int)),
            decreases n - i,
        {
            let c = raw.get_char(i);
            proof {
                assert(raw@.take(i + 1).drop_last() =~= raw@.take(i as int));
            }
            if c >= '0' && c <= '9' {
                digits.push(c);
            }
            i = i + 1;
        }
        assert(raw@.take(n as int) =~= raw@);
        let d = digits.len();
        if d < 8 {
            return None;
        }
        let first_plus = n > 0 && raw.get_char(0) == '+';
        let mut out = String::new();
        if digits[0] == '0' && d == 10 {
            push_str(&mut out, "+33");
            let mut k: usize = 1;
            while k < d
                invariant
                    d == digits@.len(),
                    1 <= k <= d,
                    out@ == "+33"@ + digits@.subrange(1, k as int),
                decreases d - k,
            {
                push_char(&mut out, digits[k]);
                k = k + 1;
                assert(out@ =~= "+33"@ + digits@.subrange(1, k as int));
            }
            assert(digits@.subrange(1, d as int) =~= digits@.drop_first());
            return Some(out);
        }
        let shaped = (digits[0] == '1' && d == 11) || (digits[0] == '3' && digits[1] == '3' && d == 11)
            || first_plus;
        if !shaped {
            return None;
        }
        push_char(&mut out, '+');
        let mut k: usize = 0;
        while k < d
            invariant
                d == digits@.len(),
                k <= d,
                out@ == seq!['+'] + digits@.take(k as int),
            decreases d - k,
        {
            push_char(&mut out, digits[k]);
            k = k + 1;
            assert(out@ =~= seq!['+'] + digits@.take(k as int));
        }
        assert(digits@.take(d as int) =~= digits@);
        Some(out)
    }

    /// Guesses the operator from a French E.164 prefix.
    pub fn infer_operator(e164: &str) -> (r: &'static str)
        ensures
            r@ == operator_spec(e164@),
    {
        proof {
            reveal_strlit("Mobile");
            reveal_strlit("Fixe");
            reveal_strlit("Inconnu");
        }
        let n = e164.unicode_len();
        if n > 3 && e164.get_char(0) == '+' && e164.get_char(1) == '3' && e164.get_char(2) == '3' {
            let c = e164.get_char(3);
            if c == '6' || c == '7' {
                "Mobile"
            } else if c == '1' || c == '2' || c == '3' || c == '4' || c == '5' || c == '9' {
                "Fixe"
            } else {
                "Inconnu"
            }
        } else {
            "Inconnu"
        }
    }

    /// Runs the transform on an entity at the current time.
    pub fn run(&self, input: &TransformInput) -> (r: Result<TransformOutput, TransformError>)
        ensures
            exists|t: Seq<char>| phone_output_is(r, *input, t),
    {
        let now = now_rfc3339();
        let r = phone_output(input, now);
        assert(phone_output_is(r, *input, now@));
        r
    }
}

/// What the phone transform returns for an input entity, observed at `now`.
pub open spec fn phone_output_is(r: Result<TransformOutput, TransformError>, input: TransformInput, now: Seq<char>) -> bool {
    &&& (r is Err <==> e164_spec(input.entity.canonical_value@) is None)
    &&& (r matches Err(e) ==> (e matches TransformError::UnsupportedEntityType(m) && m@
            == "numéro de téléphone malformé"@))
    &&& (match r {
            Err(_) => true,
            Ok(out) => {
                let e164 = e164_spec(input.entity.canonical_value@)->0;
                let op = operator_spec(e164);
                &&& e164_spec(input.entity.canonical_value@) is Some
                &&& out.observations@.len() == 2
                &&& out.observations@[0].id@ == "obs-phone-e164-"@ + e164
                &&& out.observations@[0].subject@ == input.entity.id@
                &&& out.observations@[0].predicate@ == "e164"@
                &&& out.observations@[0].value matches PropertyValue::String(v) && v@ == e164
                &&& out.observations@[0].source@ == "collect:phone"@
                &&& out.observations@[0].method@ == "NORMALIZE"@
                &&& out.observations@[0].observed_at@ == now
                &&& out.observations@[0].confidence == (AdmiraltyCode {
                    source_reliability: SourceReliability::A,
                    information_credibility: InformationCredibility::V1,
                })
                &&& out.observations@[0].provenance == Provenance::Collected
                &&& out.observations@[1].id@ == "obs-phone-op-"@ + e164
                &&& out.observations@[1].subject@ == input.entity.id@
                &&& out.observations@[1].predicate@ == "inferred_operator"@
                &&& out.observations@[1].value matches PropertyValue::String(v) && v@ == op
                &&& out.observations@[1].method@ == "PREFIX_LOOKUP"@
                &&& out.observations@[1].confidence == (AdmiraltyCode {
                    source_reliability: SourceReliability::C,
                    information_credibility: InformationCredibility::V3,
                })
                &&& out.observations@[1].provenance == Provenance::Inferred
                &&& out.entities@.len() == 1
                &&& out.entities@[0].id@ == input.entity.id@
                &&& out.entities@[0].kind == EntityKind::PhoneNumber
                &&& out.entities@[0].canonical_value@ == input.entity.canonical_value@
                &&& out.entities@[0].display_label@ == input.entity.display_label@
                &&& out.entities@[0].created_at@ == now
                &&& keys_sorted(out.entities@[0].properties@)
                &&& property_map(out.entities@[0].properties@).dom() =~= set!["e164"@, "operator"@]
                &&& property_map(out.entities@[0].properties@)["e164"@] matches PropertyValue::String(v) && v@ == e164
                &&& property_map(out.entities@[0].properties@)["operator"@] matches PropertyValue::String(v) && v@ == op
                &&& out.relations@.len() == 0
            },
        })
}

/// What the phone transform returns for an input entity, observed at `now`.
#[verifier::rlimit(50)]
pub fn phone_output(input: &TransformInput, now: String) -> (r: Result<TransformOutput, TransformError>)
    ensures
        phone_output_is(r, *input, now@),
{
    let raw = &input.entity.canonical_value;
    let e164 = match PhoneTransform::normalize_e164(raw.as_str()) {
        Some(e) => e,
        None => {
            return Err(TransformError::UnsupportedEntityType(String::from_str("numéro de téléphone malformé")));
        },
    };
    let operator = PhoneTransform::infer_operator(e164.as_str());
    let mut id0 = String::from_str("obs-phone-e164-");
    push_str(&mut id0, e164.as_str());
    let mut id1 = String::from_str("obs-phone-op-");
    push_str(&mut id1, e164.as_str());
    let mut observations: Vec<Observation> = Vec::new();
    observations.push(Observation {
        id: id0,
        subject: input.entity.id.clone(),
        predicate: String::from_str("e164"),
        value: PropertyValue::String(e164.clone()),
        source: String::from_str("collect:phone"),
        method: String::from_str("NORMALIZE"),
        observed_at: now.clone(),
        valid_from: None,
        valid_to: None,
        confidence: AdmiraltyCode {
            source_reliability: SourceReliability::A,
            information_credibility: InformationCredibility::V1,
        },
        provenance: Provenance::Collected,
        raw_hash: None,
        operator: String::from_str("SPECTRA"),
    });
    observations.push(Observation {
        id: id1,
        subject: input.entity.id.clone(),
        predicate: String::from_str("inferred_operator"),
        value: PropertyValue::String(String::from_str(operator)),
        source: String::from_str("collect:phone"),
        method: String::from_str("PREFIX_LOOKUP"),
        observed_at: now.clone(),
        valid_from: None,
        valid_to: None,
        confidence: AdmiraltyCode {
            source_reliability: SourceReliability::C,
            information_credibility: InformationCredibility::V3,
        },
        provenance: Provenance::Inferred,
        raw_hash: None,
        operator: String::from_str("SPECTRA"),
    });
    let mut properties: Vec<(String, PropertyValue)> = Vec::new();
    let v1 = PropertyValue::String(e164.clone());
    let ghost gv1 = v1;
    insert_property(&mut properties, String::from_str("e164"), v1);
    let ghost m1 = property_map(properties@);
    proof {
        assert(property_map(Seq::<(String, PropertyValue)>::empty()) =~= Map::empty());
        assert(m1 == Map::<Seq<char>, PropertyValue>::empty().insert("e164"@, gv1));
    }
    let v2 = PropertyValue::String(String::from_str(operator));
    let ghost gv2 = v2;
    insert_property(&mut properties, String::from_str("operator"), v2);
    proof {
        reveal_strlit("e164");
        reveal_strlit("operator");
        assert("e164"@.len() == 4 && "operator"@.len() == 8);
        assert("e164"@ != "operator"@);
        assert(property_map(properties@) == m1.insert("operator"@, gv2));
        assert(property_map(properties@)["e164"@] == gv1);
    }
    let mut entities: Vec<Entity> = Vec::new();
    entities.push(Entity {
        id: input.entity.id.clone(),
        kind: EntityKind::PhoneNumber,
        canonical_value: raw.clone(),
        display_label: input.entity.display_label.clone(),
        properties,
        created_at: now,
        merged_from: Vec::new(),
    });
    proof {
        reveal_strlit("e164");
        reveal_strlit("operator");
        let pm = property_map(entities@[0].properties@);
        assert(pm.dom() =~= set!["e164"@, "operator"@]);
        assert(pm["e164"@] matches PropertyValue::String(v) && v@ == e164@);
    }
    Ok(TransformOutput { entities, observations, relations: Vec::new() })
}

// ---------------------------------------------------------------------------
// Normalisation is idempotent
// ---------------------------------------------------------------------------

proof fn lemma_digits_concat(a: Seq<char>, b: Seq<char>)
    ensures
        ascii_digits(a + b) == ascii_digits(a) + ascii_digits(b),
    decreases b.len(),
{
    if b.len() == 0 {
        assert(a + b =~= a);
        assert(ascii_digits(a) + ascii_digits(b) =~= ascii_digits(a));
    } else {
        lemma_digits_concat(a, b.drop_last());
        assert((a + b).drop_last() =~= a + b.drop_last());
        assert((a + b).last() == b.last());
        if is_digit(b.last()) {
            assert(ascii_digits(a) + ascii_digits(b) =~= (ascii_digits(a) + ascii_digits(b.drop_last())).push(b.last()));
        }
    }
}

proof fn lemma_digits_are_digits(s: Seq<char>)
    ensures
        forall|i: int| 0 <= i < ascii_digits(s).len() ==> is_digit(#[trigger] ascii_digits(s)[i]),
    decreases s.len(),
{
    if s.len() > 0 {
        lemma_digits_are_digits(s.drop_last());
        let p = ascii_digits(s.drop_last());
        if is_digit(s.last()) {
            assert forall|i: int| 0 <= i < ascii_digits(s).len() implies is_digit(#[trigger] ascii_digits(s)[i]) by {
                if i < p.len() {
                    assert(ascii_digits(s)[i] == p[i]);
                }
            }
        }
    }
}

proof fn lemma_digits_of_digits(s: Seq<char>)
    requires
        forall|i: int| 0 <= i < s.len() ==> is_digit(#[trigger] s[i]),
    ensures
        ascii_digits(s) == s,
    decreases s.len(),
{
    if s.len() > 0 {
        lemma_digits_of_digits(s.drop_last());
        assert(s.drop_last().push(s.last()) =~= s);
    }
}

/// A normalised number normalises to itself.
pub proof fn law_normalize_e164_idempotent(raw: Seq<char>)
    ensures
        e164_spec(raw) matches Some(y) ==> e164_spec(y) == Some(y),
{
    if let Some(y) = e164_spec(raw) {
        let d = ascii_digits(raw);
        lemma_digits_are_digits(raw);
        reveal_strlit("+33");
        if d[0] == '0' && d.len() == 10 {
            let t = d.drop_first();
            assert forall|i: int| 0 <= i < t.len() implies is_digit(#[trigger] t[i]) by {
                assert(t[i] == d[i + 1]);
            }
            lemma_digits_of_digits(t);
            lemma_digits_concat(seq!['+'], seq!['3', '3'] + t);
            assert(y =~= seq!['+'] + (seq!['3', '3'] + t));
            assert(ascii_digits(seq!['+']) =~= Seq::<char>::empty()) by {
                assert(seq!['+'].drop_last() =~= Seq::<char>::empty());
                assert(seq!['+'].last() == '+');
                assert(!is_digit('+'));
                reveal_with_fuel(ascii_digits, 2);
            }
            let u = seq!['3', '3'] + t;
            assert forall|i: int| 0 <= i < u.len() implies is_digit(#[trigger] u[i]) by {
                if i >= 2 {
                    assert(u[i] == t[i - 2]);
                }
            }
            lemma_digits_of_digits(u);
            assert(ascii_digits(y) =~= u);
        } else {
            lemma_digits_of_digits(d);
            lemma_digits_concat(seq!['+'], d);
            assert(ascii_digits(seq!['+']) =~= Seq::<char>::empty()) by {
                assert(seq!['+'].drop_last() =~= Seq::<char>::empty());
                assert(seq!['+'].last() == '+');
                assert(!is_digit('+'));
                reveal_with_fuel(ascii_digits, 2);
            }
            assert(y =~= seq!['+'] + d);
            assert(ascii_digits(y) =~= d);
        }
    }
}

} // verus!
