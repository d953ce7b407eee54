//! Hash chain of the investigation's audit journal.
//!
//! Each link hashes the canonical JSON text of an event together with the
//! hash of the previous link of the same case:
//! `hash(n) = SHA-256(canonical_json(event n with previous_hash = hash(n-1)))`,
//! written in lower-case hexadecimal. Verification recomputes every hash.

use vstd::prelude::*;
use crate::json::{
    JsonValue, canonical_json, canonical_spec, json_quoted, rendered_entry, texts_of, join_comma,
    key_lt, sort_by_key, canonical_items, insert_by_key, strictly_sorted, rendered_entries, hex_digit,
    lemma_key_lt_transitive,
};
use crate::text::{decimal, decimal_spec, push_str};
use vstd::utf8::encode_utf8;

verus! {

// ---------------------------------------------------------------------------
// Outside functions
// ---------------------------------------------------------------------------

/// The SHA-256 digest of a byte sequence.
pub uninterp spec fn sha256_digest(data: Seq<u8>) -> Seq<u8>;

/// `sha2::Sha256::digest`: the 32-byte SHA-256 digest of `data`.
#[verifier::external_body]
fn sha256(data: &[u8]) -> (r: Vec<u8>)
    ensures
        r@ == sha256_digest(data@),
        r@.len() == 32,
{
    <sha2::Sha256 as sha2::Digest>::digest(data).to_vec()
}

/// Lower-case hexadecimal text of a byte sequence, two digits per byte.
pub open spec fn hex_lower(bytes: Seq<u8>) -> Seq<char>
    decreases bytes.len(),
{
    if bytes.len() == 0 {
        Seq::empty()
    } else {
        seq![hex_digit((bytes[0] / 16) as nat), hex_digit((bytes[0] % 16) as nat)] + hex_lower(
            bytes.drop_first(),
        )
    }
}

/// Two digits per byte.
pub proof fn lemma_hex_lower_len(bytes: Seq<u8>)
    ensures
        hex_lower(bytes).len() == 2 * bytes.len(),
    decreases bytes.len(),
{
    if bytes.len() > 0 {
        lemma_hex_lower_len(bytes.drop_first());
    }
}

/// `hex::encode`: each byte written as two lower-case hexadecimal digits.
#[verifier::external_body]
fn hex_encode(bytes: &[u8]) -> (r: String)
    ensures
        r@ == hex_lower(bytes@),
{
    hex::encode(bytes)
}

// ---------------------------------------------------------------------------
// Events and links
// ---------------------------------------------------------------------------

/// An audit event, reduced to what the chain hashes.
#[derive(Debug, Clone)]
pub struct AuditEvent {
    /// Unique identifier of the event.
    pub id: String,
    /// Identifier of the case.
    pub case_id: String,
    /// Action: `"create"`, `"update"`, `"delete"`, `"access"`, `"export"`.
    pub action: String,
    /// Kind of entity: `"case"`, `"evidence"`, `"subject"`, ...
    pub entity_kind: String,
    /// Identifier of the entity, if any.
    pub entity_id: Option<String>,
    /// Analyst or process.
    pub actor: String,
    /// Monotone sequence number within the case.
    pub sequence: u64,
    /// Everything else the event carries.
    pub payload: JsonValue,
}

/// A computed link of the chain.
#[derive(Debug, Clone)]
pub struct ChainLink {
    /// Hexadecimal hash of the event.
    pub hash: String,
    /// Hash of the previous link (empty for the first one).
    pub previous_hash: String,
}

/// The entries of the object that a link hashes, as `(key, "key":value)`, in
/// key order.
pub open spec fn link_entries(e: AuditEvent, previous_hash: Seq<char>) -> Seq<(Seq<char>, Seq<char>)> {
    seq![
        rendered_entry("action"@, json_quoted(e.action@)),
        rendered_entry("actor"@, json_quoted(e.actor@)),
        rendered_entry("case_id"@, json_quoted(e.case_id@)),
        rendered_entry(
            "entity_id"@,
            match e.entity_id {
                Some(id) => json_quoted(id@),
                None => "null"@,
            },
        ),
        rendered_entry("entity_kind"@, json_quoted(e.entity_kind@)),
        rendered_entry("id"@, json_quoted(e.id@)),
        rendered_entry("payload"@, canonical_spec(e.payload)),
        rendered_entry("previous_hash"@, json_quoted(previous_hash)),
        rendered_entry("sequence"@, decimal_spec(e.sequence as nat)),
    ]
}

/// The canonical JSON text that a link hashes.
pub open spec fn link_text(e: AuditEvent, previous_hash: Seq<char>) -> Seq<char> {
    seq!['{'] + join_comma(texts_of(link_entries(e, previous_hash))) + seq!['}']
}

/// The hash of a link: hex of the SHA-256 of the UTF-8 bytes of its text.
pub open spec fn link_hash(e: AuditEvent, previous_hash: Seq<char>) -> Seq<char> {
    hex_lower(sha256_digest(encode_utf8(link_text(e, previous_hash))))
}

impl Clone for JsonValue {
    /// A copy of the value, with the same canonical text.
    fn clone(&self) -> (r: JsonValue)
        ensures
            canonical_spec(r) == canonical_spec(*self),
    {
        self.copy()
    }
}

impl JsonValue {
    /// A copy of the value, with the same canonical text.
    pub fn copy(&self) -> (r: JsonValue)
        ensures
            canonical_spec(r) == canonical_spec(*self),
        decreases self,
    {
        match self {
            JsonValue::Null => JsonValue::Null,
            JsonValue::Bool(b) => JsonValue::Bool(*b),
            JsonValue::Number(t) => JsonValue::Number(t.clone()),
            JsonValue::String(s) => JsonValue::String(s.clone()),
            JsonValue::Array(items) => {
                let mut out: Vec<JsonValue> = Vec::new();
                let mut i: usize = 0;
                while i < items.len()
                    invariant
                        i <= items.len(),
                        *self == JsonValue::Array(*items),
                        canonical_items(out@) == canonical_items(items@.take(i as int)),
                    decreases items.len() - i,
                {
                    proof {
                        vstd::std_specs::vec::axiom_vec_index_decreases(*items, i as int);
                        assert(decreases_to!(*self => (*self)->Array_0));
                    }
                    let c = items[i].copy();
                    let ghost before = out@;
                    out.push(c);
                    proof {
                        assert(out@.drop_last() =~= before);
                        assert(items@.take(i + 1).drop_last() =~= items@.take(i as int));
                    }
                    i = i + 1;
                }
                assert(items@.take(items.len() as int) =~= items@);
                JsonValue::Array(out)
            },
            JsonValue::Object(entries) => {
                let mut out: Vec<(String, JsonValue)> = Vec::new();
                let mut i: usize = 0;
                while i < entries.len()
                    invariant
                        i <= entries.len(),
                        *self == JsonValue::Object(*entries),
                        rendered_entries(out@) == rendered_entries(entries@.take(i as int)),
                    decreases entries.len() - i,
                {
                    proof {
                        vstd::std_specs::vec::axiom_vec_index_decreases(*entries, i as int);
                        assert(decreases_to!(*self => (*self)->Object_0));
                        assert(decreases_to!(entries[i as int] => entries[i as int].1));
                    }
                    let k = entries[i].0.clone();
                    let c = entries[i].1.copy();
                    let ghost before = out@;
                    out.push((k, c));
                    proof {
                        assert(out@.drop_last() =~= before);
                        assert(entries@.take(i + 1).drop_last() =~= entries@.take(i as int));
                    }
                    i = i + 1;
                }
                assert(entries@.take(entries.len() as int) =~= entries@);
                JsonValue::Object(out)
            },
        }
    }
}

proof fn lemma_sorted_is_fixed(s: Seq<(Seq<char>, Seq<char>)>)
    requires
        strictly_sorted(s),
    ensures
        sort_by_key(s) == s,
    decreases s.len(),
{
    if s.len() > 0 {
        let t = s.drop_last();
        assert(strictly_sorted(t)) by {
            assert forall|i: int, j: int| 0 <= i < j < t.len() implies key_lt(#[trigger] t[i].0, #[trigger] t[j].0) by {
                assert(t[i] == s[i] && t[j] == s[j]);
            }
        }
        lemma_sorted_is_fixed(t);
        assert forall|k: int| 0 <= k < t.len() implies key_lt(#[trigger] t[k].0, s.last().0) by {
            assert(t[k] == s[k]);
        }
        lemma_insert_at_end(s.last(), t);
        assert(t.push(s.last()) =~= s);
    }
}

proof fn lemma_insert_at_end(p: (Seq<char>, Seq<char>), s: Seq<(Seq<char>, Seq<char>)>)
    requires
        forall|k: int| 0 <= k < s.len() ==> key_lt(#[trigger] s[k].0, p.0),
    ensures
        insert_by_key(p, s) == s.push(p),
    decreases s.len(),
{
    if s.len() > 0 {
        let t = s.drop_first();
        assert forall|k: int| 0 <= k < t.len() implies key_lt(#[trigger] t[k].0, p.0) by {
            assert(t[k] == s[k + 1]);
        }
        lemma_insert_at_end(p, t);
        assert(seq![s[0]] + t.push(p) =~= s.push(p));
    }
}

proof fn lemma_adjacent_sorted(s: Seq<(Seq<char>, Seq<char>)>)
    requires
        forall|i: int| 0 <= i < s.len() - 1 ==> key_lt(#[trigger] s[i].0, s[i + 1].0),
    ensures
        strictly_sorted(s),
{
    assert forall|i: int, j: int| 0 <= i < j < s.len() implies key_lt(#[trigger] s[i].0, #[trigger] s[j].0) by {
        lemma_adjacent_sorted_from(s, i, j);
    }
}

proof fn lemma_adjacent_sorted_from(s: Seq<(Seq<char>, Seq<char>)>, i: int, j: int)
    requires
        forall|k: int| 0 <= k < s.len() - 1 ==> key_lt(#[trigger] s[k].0, s[k + 1].0),
        0 <= i < j < s.len(),
    ensures
        key_lt(s[i].0, s[j].0),
    decreases j - i,
{
    if j > i + 1 {
        lemma_adjacent_sorted_from(s, i, j - 1);
        assert(key_lt(s[j - 1].0, s[j].0));
        lemma_key_lt_transitive(s[i].0, s[j - 1].0, s[j].0);
    }
}

proof fn lemma_link_keys_sorted(e: AuditEvent, previous_hash: Seq<char>)
    ensures
        strictly_sorted(link_entries(e, previous_hash)),
{
    let s = link_entries(e, previous_hash);
    reveal_strlit("action");
    reveal_strlit("actor");
    reveal_strlit("case_id");
    reveal_strlit("entity_id");
    reveal_strlit("entity_kind");
    reveal_strlit("id");
    reveal_strlit("payload");
    reveal_strlit("previous_hash");
    reveal_strlit("sequence");
    reveal_with_fuel(key_lt, 12);
    assert(key_lt("action"@, "actor"@));
    assert(key_lt("actor"@, "case_id"@));
    assert(key_lt("case_id"@, "entity_id"@));
    assert(key_lt("entity_id"@, "entity_kind"@));
    assert(key_lt("entity_kind"@, "id"@));
    assert(key_lt("id"@, "payload"@));
    assert(key_lt("payload"@, "previous_hash"@));
    assert(key_lt("previous_hash"@, "sequence"@));
    assert forall|i: int| 0 <= i < s.len() - 1 implies key_lt(#[trigger] s[i].0, s[i + 1].0) by {
        if i == 0 {
        } else if i == 1 {
        } else if i == 2 {
        } else if i == 3 {
        } else if i == 4 {
        } else if i == 5 {
        } else if i == 6 {
        } else {
        }
    }
    lemma_adjacent_sorted(s);
}

fn push_entry(entries: &mut Vec<(String, JsonValue)>, key: &str, v: JsonValue)
    ensures
        rendered_entries(final(entries)@) == rendered_entries(old(entries)@).push(
            rendered_entry(key@, canonical_spec(v)),
        ),
{
    let ghost before = entries@;
    entries.push((String::from_str(key), v));
    assert(entries@.drop_last() =~= before);
}

/// Computes the link of `event` given the hash of the previous link.
pub fn compute_link(event: &AuditEvent, previous_hash: &str) -> (r: ChainLink)
    ensures
        r.hash@ == link_hash(*event, previous_hash@),
        r.hash@.len() == 64,
        r.previous_hash@ == previous_hash@,
{
    let mut entries: Vec<(String, JsonValue)> = Vec::new();
    assert(rendered_entries(entries@) =~= Seq::<(Seq<char>, Seq<char>)>::empty());
    push_entry(&mut entries, "action", JsonValue::String(event.action.clone()));
    push_entry(&mut entries, "actor", JsonValue::String(event.actor.clone()));
    push_entry(&mut entries, "case_id", JsonValue::String(event.case_id.clone()));
    let entity_id = match &event.entity_id {
        Some(id) => JsonValue::String(id.clone()),
        None => JsonValue::Null,
    };
    push_entry(&mut entries, "entity_id", entity_id);
    push_entry(&mut entries, "entity_kind", JsonValue::String(event.entity_kind.clone()));
    push_entry(&mut entries, "id", JsonValue::String(event.id.clone()));
    push_entry(&mut entries, "payload", event.payload.copy());
    push_entry(&mut entries, "previous_hash", JsonValue::String(String::from_str(previous_hash)));
    push_entry(&mut entries, "sequence", JsonValue::Number(decimal(event.sequence)));
    proof {
        let l = link_entries(*event, previous_hash@);
        assert(rendered_entries(entries@) =~= l);
        lemma_link_keys_sorted(*event, previous_hash@);
        lemma_sorted_is_fixed(l);
    }
    let canonical = canonical_json(&JsonValue::Object(entries));
    let bytes = canonical.as_str().as_bytes();
    let digest = sha256(bytes);
    let hash = hex_encode(digest.as_slice());
    proof {
        lemma_hex_lower_len(digest@);
    }
    ChainLink { hash, previous_hash: String::from_str(previous_hash) }
}


/// The message of a link whose recomputed hash differs from the stored one.
pub open spec fn bad_hash_message(id: Seq<char>, expected: Seq<char>, computed: Seq<char>) -> Seq<char> {
    "hachage invalide pour l'événement "@ + id + " : attendu "@ + expected + ", obtenu "@ + computed
}

/// Checks one link: `Ok` exactly when `expected_hash` is the hash that
/// `compute_link` gives for `event` after `previous_hash`.
pub fn verify_link(event: &AuditEvent, expected_hash: &str, previous_hash: &str) -> (r: Result<(), String>)
    ensures
        r is Ok <==> expected_hash@ == link_hash(*event, previous_hash@),
        r matches Err(m) ==> m@ == bad_hash_message(
            event.id@,
            expected_hash@,
            link_hash(*event, previous_hash@),
        ),
{
    let computed = compute_link(event, previous_hash);
    let expected = String::from_str(expected_hash);
    if computed.hash == expected {
        Ok(())
    } else {
        let mut m = String::from_str("hachage invalide pour l'événement ");
        push_str(&mut m, event.id.as_str());
        push_str(&mut m, " : attendu ");
        push_str(&mut m, expected_hash);
        push_str(&mut m, ", obtenu ");
        push_str(&mut m, computed.hash.as_str());
        Err(m)
    }
}

/// The previous hash that link `i` must carry: empty for the first link,
/// else the hash of link `i - 1`.
pub open spec fn expected_previous(links: Seq<ChainLink>, i: int) -> Seq<char> {
    if i == 0 {
        Seq::empty()
    } else {
        links[i - 1].hash@
    }
}

/// Link `i` references the link before it and its hash is the recomputed one.
pub open spec fn link_valid(events: Seq<AuditEvent>, links: Seq<ChainLink>, i: int) -> bool {
    &&& links[i].previous_hash@ == expected_previous(links, i)
    &&& links[i].hash@ == link_hash(events[i], expected_previous(links, i))
}

/// The message when events and links differ in number.
pub open spec fn count_mismatch_message(n_events: nat, n_links: nat) -> Seq<char> {
    "nombre d'événements ("@ + decimal_spec(n_events) + ") != nombre de maillons ("@
        + decimal_spec(n_links) + ")"@
}

/// The message when a link does not reference the one before it.
pub open spec fn broken_chain_message(i: nat, expected: Seq<char>, got: Seq<char>) -> Seq<char> {
    "rupture de chaînage à l'index "@ + decimal_spec(i) + " : previous_hash attendu "@ + expected
        + ", obtenu "@ + got
}

/// Checks a whole chain: returns the number of events, or the index of the
/// first broken link with the reason.
pub fn verify_chain(events: &[AuditEvent], links: &[ChainLink]) -> (r: Result<usize, (usize, String)>)
    ensures
        r is Ok <==> (events@.len() == links@.len() && forall|i: int|
            0 <= i < links@.len() ==> link_valid(events@, links@, i)),
        match r {
            Ok(n) => n == events@.len(),
            Err((i, m)) => if events@.len() != links@.len() {
                i == 0 && m@ == count_mismatch_message(events@.len(), links@.len())
            } else {
                &&& i < links@.len()
                &&& forall|j: int| 0 <= j < i ==> link_valid(events@, links@, j)
                &&& !link_valid(events@, links@, i as int)
                &&& m@ == if links@[i as int].previous_hash@ != expected_previous(links@, i as int) {
                    broken_chain_message(
                        i as nat,
                        expected_previous(links@, i as int),
                        links@[i as int].previous_hash@,
                    )
                } else {
                    bad_hash_message(
                        events@[i as int].id@,
                        links@[i as int].hash@,
                        link_hash(events@[i as int], expected_previous(links@, i as int)),
                    )
                }
            },
        },
{
    if events.len() != links.len() {
        let mut m = String::from_str("nombre d'événements (");
        let ne = decimal(events.len() as u64);
        push_str(&mut m, ne.as_str());
        push_str(&mut m, ") != nombre de maillons (");
        let nl = decimal(links.len() as u64);
        push_str(&mut m, nl.as_str());
        push_str(&mut m, ")");
        return Err((0, m));
    }
    let mut previous_hash = String::new();
    let mut i: usize = 0;
    while i < events.len()
        invariant
            events@.len() == links@.len(),
            i <= events@.len(),
            previous_hash@ == expected_previous(links@, i as int),
            forall|j: int| 0 <= j < i ==> link_valid(events@, links@, j),
        decreases events.len() - i,
    {
        let event = &events[i];
        let link = &links[i];
        if link.previous_hash != previous_hash {
            let mut m = String::from_str("rupture de chaînage à l'index ");
            let idx = decimal(i as u64);
            push_str(&mut m, idx.as_str());
            push_str(&mut m, " : previous_hash attendu ");
            push_str(&mut m, previous_hash.as_str());
            push_str(&mut m, ", obtenu ");
            push_str(&mut m, link.previous_hash.as_str());
            assert(!link_valid(events@, links@, i as int));
            return Err((i, m));
        }
        match verify_link(event, link.hash.as_str(), previous_hash.as_str()) {
            Ok(()) => {},
            Err(reason) => {
                assert(!link_valid(events@, links@, i as int));
                return Err((i, reason));
            },
        }
        previous_hash = link.hash.clone();
        i = i + 1;
    }
    Ok(events.len())
}

/// The hash of link `i` of the chain that `compute_link` builds from
/// `events`, starting from an empty previous hash.
pub open spec fn chain_hash(events: Seq<AuditEvent>, i: nat) -> Seq<char>
    decreases i,
{
    if i == 0 {
        link_hash(events[0], Seq::empty())
    } else {
        link_hash(events[i as int], chain_hash(events, (i - 1) as nat))
    }
}

/// `links` is the chain that successive calls of `compute_link` build from
/// `events`: each link carries the hash of the one before it (empty first).
pub open spec fn built_chain(events: Seq<AuditEvent>, links: Seq<ChainLink>) -> bool {
    &&& links.len() == events.len()
    &&& forall|i: int| 0 <= i < links.len() ==> #[trigger] links[i].hash@ == chain_hash(events, i as nat)
    &&& forall|i: int|
        0 <= i < links.len() ==> #[trigger] links[i].previous_hash@ == if i == 0 {
            Seq::<char>::empty()
        } else {
            chain_hash(events, (i - 1) as nat)
        }
}

/// Law: `verify_chain` accepts a chain exactly when it is the one that
/// `compute_link` builds from the events, link after link.
pub proof fn law_chain_accepted_iff_built(events: Seq<AuditEvent>, links: Seq<ChainLink>)
    ensures
        built_chain(events, links) <==> (events.len() == links.len() && forall|i: int|
            0 <= i < links.len() ==> link_valid(events, links, i)),
{
    if built_chain(events, links) {
        assert forall|i: int| 0 <= i < links.len() implies link_valid(events, links, i) by {
            if i > 0 {
                assert(links[i - 1].hash@ == chain_hash(events, (i - 1) as nat));
            }
            assert(links[i].hash@ == chain_hash(events, i as nat));
            assert(links[i].previous_hash@ == expected_previous(links, i));
        }
    }
    if events.len() == links.len() && forall|i: int| 0 <= i < links.len() ==> link_valid(events, links, i) {
        assert forall|i: int| 0 <= i < links.len() implies #[trigger] links[i].hash@ == chain_hash(events, i as nat) by {
            lemma_valid_links_are_built(events, links, i);
        }
        assert forall|i: int| 0 <= i < links.len() implies #[trigger] links[i].previous_hash@ == if i == 0 {
            Seq::<char>::empty()
        } else {
            chain_hash(events, (i - 1) as nat)
        } by {
            assert(link_valid(events, links, i));
            if i > 0 {
                lemma_valid_links_are_built(events, links, i - 1);
            }
        }
    }
}

proof fn lemma_valid_links_are_built(events: Seq<AuditEvent>, links: Seq<ChainLink>, i: int)
    requires
        events.len() == links.len(),
        forall|j: int| 0 <= j < links.len() ==> link_valid(events, links, j),
        0 <= i < links.len(),
    ensures
        links[i].hash@ == chain_hash(events, i as nat),
    decreases i,
{
    assert(link_valid(events, links, i));
    if i > 0 {
        lemma_valid_links_are_built(events, links, i - 1);
    }
}

} // verus!
