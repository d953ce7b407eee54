//! Merging a case fragment into a case: what to do with each incoming
//! entity, observation and relation, and the count of what was done.
//!
//! Entities merge their `merged_from` lists as a grow-only set and keep the
//! properties of the most recent creation; observations are last-writer-wins
//! on `observed_at`; a relation already known by source, target and kind is
//! not inserted again.

use vstd::prelude::*;
use crate::entity::Entity;
use crate::json::{JsonValue, key_less, key_lt};
use crate::text::chars_of;

verus! {

// ---------------------------------------------------------------------------
// Sorted sets of strings
// ---------------------------------------------------------------------------

/// Strictly increasing strings: a set kept in order.
pub open spec fn strs_sorted(s: Seq<String>) -> bool {
    forall|i: int, j: int| 0 <= i < j < s.len() ==> key_lt(#[trigger] s[i]@, #[trigger] s[j]@)
}

/// `x` is one of the strings of `s`.
pub open spec fn has_str(s: Seq<String>, x: Seq<char>) -> bool {
    exists|i: int| 0 <= i < s.len() && s[i]@ == x
}

/// Adds a string to a set kept in order.
fn insert_str_sorted(v: &mut Vec<String>, x: String)
    requires
        strs_sorted(old(v)@),
    ensures
        strs_sorted(final(v)@),
        forall|y: Seq<char>| has_str(final(v)@, y) <==> (has_str(old(v)@, y) || y == x@),
{
    let xc = chars_of(x.as_str());
    let mut j: usize = 0;
    while j < v.len()
        invariant
            v@ == old(v)@,
            j <= v.len(),
            xc@ == x@,
            forall|k: int| 0 <= k < j ==> key_lt(#[trigger] v@[k]@, x@),
        ensures
            j <= v.len(),
            j < v.len() ==> !key_lt(v@[j as int]@, x@),
            forall|k: int| 0 <= k < j ==> key_lt(#[trigger] v@[k]@, x@),
        decreases v.len() - j,
    {
        let vc = chars_of(v[j].as_str());
        if !key_less(&vc, &xc) {
            break;
        }
        j = j + 1;
    }
    if j < v.len() && v[j] == x {
        return;
    }
    let ghost old_v = v@;
    let ghost xv = x@;
    v.insert(j, x);
    proof {
        let p = v@;
        assert(p =~= old_v.take(j as int) + seq![p[j as int]] + old_v.skip(j as int));
        if j < old_v.len() {
            crate::json::lemma_key_lt_total(old_v[j as int]@, xv);
        }
        assert forall|a: int, b: int| 0 <= a < b < p.len() implies key_lt(#[trigger] p[a]@, #[trigger] p[b]@) by {
            if a < j && b < j {
                assert(p[a] == old_v[a] && p[b] == old_v[b]);
            } else if a < j && b == j {
            } else if a < j && b > j {
                assert(p[b] == old_v[b - 1]);
                assert(p[a] == old_v[a]);
                if b - 1 > a {
                    assert(key_lt(old_v[a]@, old_v[b - 1]@));
                }
            } else if a == j {
                assert(p[b] == old_v[b - 1]);
                if b - 1 > j {
                    assert(key_lt(old_v[j as int]@, old_v[b - 1]@));
                    crate::json::lemma_key_lt_transitive(xv, old_v[j as int]@, old_v[b - 1]@);
                }
            } else {
                assert(p[a] == old_v[a - 1] && p[b] == old_v[b - 1]);
            }
        }
        assert forall|y: Seq<char>| has_str(p, y) <==> (has_str(old_v, y) || y == xv) by {
            if has_str(p, y) {
                let i = choose|i: int| 0 <= i < p.len() && p[i]@ == y;
                if i < j {
                    assert(p[i] == old_v[i]);
                } else if i > j {
                    assert(p[i] == old_v[i - 1]);
                }
            }
            if has_str(old_v, y) {
                let i = choose|i: int| 0 <= i < old_v.len() && old_v[i]@ == y;
                if i < j {
                    assert(p[i] == old_v[i]);
                } else {
                    assert(p[i + 1] == old_v[i]);
                }
            }
            if y == xv {
                assert(p[j as int]@ == xv);
            }
        }
    }
}

/// Whether `x` is one of the strings of `v`.
fn contains_str(v: &Vec<String>, x: &String) -> (r: bool)
    ensures
        r == has_str(v@, x@),
{
    let mut i: usize = 0;
    while i < v.len()
        invariant
            i <= v.len(),
            forall|k: int| 0 <= k < i ==> v@[k]@ != x@,
        decreases v.len() - i,
    {
        if v[i] == *x {
            return true;
        }
        i = i + 1;
    }
    false
}

/// The union of two lists of strings, in order, each string once.
fn sorted_union(a: Vec<String>, b: Vec<String>) -> (r: Vec<String>)
    ensures
        strs_sorted(r@),
        forall|y: Seq<char>| has_str(r@, y) <==> (has_str(a@, y) || has_str(b@, y)),
{
    let mut r: Vec<String> = Vec::new();
    let ghost a0 = a@;
    let ghost b0 = b@;
    let mut a = a;
    let mut b = b;
    // Drain `a`, then `b`, from the back.
    while a.len() > 0
        invariant
            strs_sorted(r@),
            forall|y: Seq<char>| (has_str(r@, y) || has_str(a@, y)) <==> has_str(a0, y),
        decreases a.len(),
    {
        let ghost before = a@;
        let x = a.pop().unwrap();
        proof {
            assert(before == a@.push(x));
            assert forall|y: Seq<char>| has_str(before, y) <==> (has_str(a@, y) || y == x@) by {
                if has_str(before, y) {
                    let i = choose|i: int| 0 <= i < before.len() && before[i]@ == y;
                    if i < a@.len() {
                        assert(a@[i] == before[i]);
                    }
                }
                if has_str(a@, y) {
                    let i = choose|i: int| 0 <= i < a@.len() && a@[i]@ == y;
                    assert(before[i] == a@[i]);
                }
                if y == x@ {
                    assert(before[a@.len() as int] == x);
                }
            }
        }
        insert_str_sorted(&mut r, x);
    }
    while b.len() > 0
        invariant
            strs_sorted(r@),
            forall|y: Seq<char>| (has_str(r@, y) || has_str(b@, y)) <==> (has_str(a0, y) || has_str(b0, y)),
        decreases b.len(),
    {
        let ghost before = b@;
        let x = b.pop().unwrap();
        proof {
            assert(before == b@.push(x));
            assert forall|y: Seq<char>| has_str(before, y) <==> (has_str(b@, y) || y == x@) by {
                if has_str(before, y) {
                    let i = choose|i: int| 0 <= i < before.len() && before[i]@ == y;
                    if i < b@.len() {
                        assert(b@[i] == before[i]);
                    }
                }
                if has_str(b@, y) {
                    let i = choose|i: int| 0 <= i < b@.len() && b@[i]@ == y;
                    assert(before[i] == b@[i]);
                }
                if y == x@ {
                    assert(before[b@.len() as int] == x);
                }
            }
        }
        insert_str_sorted(&mut r, x);
    }
    r
}

// ---------------------------------------------------------------------------
// Entities
// ---------------------------------------------------------------------------

/// What importing an entity does.
#[derive(Debug, Clone)]
pub enum EntityImport {
    /// The case does not know it: insert it.
    Insert(Entity),
    /// The fragment brings nothing newer: leave the case as it is.
    Skip,
    /// Replace the case's entity with this merge.
    Merge(Entity),
}

/// The incoming entity was created after the one the case holds.
pub open spec fn created_later(existing: Entity, incoming: Entity) -> bool {
    key_lt(existing.created_at@, incoming.created_at@)
}

/// The incoming entity absorbed an entity the case's one did not.
pub open spec fn absorbs_more(existing: Entity, incoming: Entity) -> bool {
    exists|i: int| 0 <= i < incoming.merged_from@.len() && !has_str(existing.merged_from@, incoming.merged_from@[i]@)
}

/// The merge of `incoming` into `existing`: the incoming entity, with the
/// union of both `merged_from` lists (in order, each once), and the
/// properties of the later creation (the case's when not strictly later).
pub open spec fn is_merge(m: Entity, existing: Entity, incoming: Entity) -> bool {
    &&& m.id == incoming.id
    &&& m.kind == incoming.kind
    &&& m.canonical_value == incoming.canonical_value
    &&& m.display_label == incoming.display_label
    &&& m.created_at == incoming.created_at
    &&& m.properties == if created_later(existing, incoming) {
        incoming.properties
    } else {
        existing.properties
    }
    &&& strs_sorted(m.merged_from@)
    &&& forall|y: Seq<char>| has_str(m.merged_from@, y) <==> (has_str(existing.merged_from@, y) || has_str(
        incoming.merged_from@,
        y,
    ))
}

/// The decision for an incoming entity, given the case's entity with the
/// same identifier, if any.
pub open spec fn entity_import_is(r: EntityImport, existing: Option<Entity>, incoming: Entity) -> bool {
    match existing {
        None => r == EntityImport::Insert(incoming),
        Some(x) => if !created_later(x, incoming) && !absorbs_more(x, incoming) {
            r is Skip
        } else {
            r matches EntityImport::Merge(m) && is_merge(m, x, incoming)
        },
    }
}

/// Decides what importing `incoming` does to a case that holds `existing`
/// under the same identifier.
pub fn decide_entity_import(existing: Option<Entity>, incoming: Entity) -> (r: EntityImport)
    ensures
        entity_import_is(r, existing, incoming),
{
    match existing {
        None => EntityImport::Insert(incoming),
        Some(x) => {
            let xc = chars_of(x.created_at.as_str());
            let ic = chars_of(incoming.created_at.as_str());
            let newer = key_less(&xc, &ic);
            let mut grew = false;
            let mut i: usize = 0;
            while i < incoming.merged_from.len()
                invariant
                    i <= incoming.merged_from.len(),
                    grew <==> exists|k: int| 0 <= k < i && !has_str(x.merged_from@, incoming.merged_from@[k]@),
                decreases incoming.merged_from.len() - i,
            {
                if !contains_str(&x.merged_from, &incoming.merged_from[i]) {
                    grew = true;
                }
                i = i + 1;
            }
            if !newer && !grew {
                return EntityImport::Skip;
            }
            let ghost x0 = x;
            let ghost i0 = incoming;
            let Entity { id, kind, canonical_value, display_label, properties, created_at, merged_from } =
                incoming;
            let Entity { properties: old_properties, merged_from: old_merged, .. } = x;
            let union = sorted_union(old_merged, merged_from);
            let properties = if newer { properties } else { old_properties };
            let m = Entity { id, kind, canonical_value, display_label, properties, created_at, merged_from: union };
            proof {
                assert(is_merge(m, x0, i0));
            }
            EntityImport::Merge(m)
        },
    }
}

// ---------------------------------------------------------------------------
// Observations and relations
// ---------------------------------------------------------------------------

/// What importing an observation or a record does.
#[derive(Debug, Clone, Copy, PartialEq, Eq, Structural)]
pub enum RecordImport {
    /// The case does not know it.
    Insert,
    /// The incoming one is more recent: it replaces the case's.
    Update,
    /// The case's one is as recent or more: nothing changes.
    Skip,
}

/// Last writer wins on the observation time: the decision for an incoming
/// observation observed at `incoming`, the case holding one with the same
/// identifier observed at `existing`, if any.
pub open spec fn observation_import_spec(existing: Option<Seq<char>>, incoming: Seq<char>) -> RecordImport {
    match existing {
        None => RecordImport::Insert,
        Some(t) => if key_lt(t, incoming) {
            RecordImport::Update
        } else {
            RecordImport::Skip
        },
    }
}

/// Decides what importing an observation observed at `incoming` does.
pub fn decide_observation_import(existing: Option<&str>, incoming: &str) -> (r: RecordImport)
    ensures
        r == observation_import_spec(
            match existing {
                None => None,
                Some(t) => Some(t@),
            },
            incoming@,
        ),
{
    match existing {
        None => RecordImport::Insert,
        Some(t) => {
            let tc = chars_of(t);
            let ic = chars_of(incoming);
            if key_less(&tc, &ic) {
                RecordImport::Update
            } else {
                RecordImport::Skip
            }
        },
    }
}

/// A directed relation between two entities of a case.
#[derive(Debug, Clone)]
pub struct StoredRelation {
    /// Identifier in the case, absent until the relation is stored.
    pub id: Option<i64>,
    /// Entity the link starts from.
    pub source: String,
    /// Entity the link goes to.
    pub target: String,
    /// Meaning of the link (`owns`, `mentions`, `resolves_to`, ...).
    pub kind: String,
    /// Free properties of the link, by key.
    pub properties: Vec<(String, JsonValue)>,
}

/// One of the relations has the target and the kind of `r` (the relations
/// given are those starting from `r`'s source).
pub open spec fn relation_known_spec(from_source: Seq<StoredRelation>, r: StoredRelation) -> bool {
    exists|i: int| 0 <= i < from_source.len() && from_source[i].target@ == r.target@ && from_source[i].kind@ == r.kind@
}

/// Whether a relation is already known among those that leave its source.
pub fn relation_known(from_source: &Vec<StoredRelation>, r: &StoredRelation) -> (b: bool)
    ensures
        b == relation_known_spec(from_source@, *r),
{
    let mut i: usize = 0;
    while i < from_source.len()
        invariant
            i <= from_source.len(),
            forall|k: int| 0 <= k < i ==> !(from_source@[k].target@ == r.target@ && from_source@[k].kind@ == r.kind@),
        decreases from_source.len() - i,
    {
        if from_source[i].target == r.target && from_source[i].kind == r.kind {
            return true;
        }
        i = i + 1;
    }
    false
}

// ---------------------------------------------------------------------------
// Summary
// ---------------------------------------------------------------------------

/// What an import did.
#[derive(Debug, Clone, Copy)]
pub struct ImportSummary {
    /// Entities the case did not hold, created.
    pub entities_inserted: usize,
    /// Entities left unchanged, the fragment bringing nothing newer.
    pub entities_skipped: usize,
    /// Entities of the case updated by a merge.
    pub entities_merged: usize,
    /// Observations created.
    pub observations_inserted: usize,
    /// Observations left out, the case's being as recent.
    pub observations_skipped: usize,
    /// Observations replaced by a more recent one.
    pub observations_updated: usize,
    /// Relations created.
    pub relations_inserted: usize,
    /// Relations already known, left out.
    pub relations_skipped: usize,
}

impl ImportSummary {
    /// A summary of an import that did nothing yet.
    pub fn new() -> (r: ImportSummary)
        ensures
            r.entities_inserted == 0 && r.entities_skipped == 0 && r.entities_merged == 0,
            r.observations_inserted == 0 && r.observations_skipped == 0 && r.observations_updated == 0,
            r.relations_inserted == 0 && r.relations_skipped == 0,
    {
        ImportSummary {
            entities_inserted: 0,
            entities_skipped: 0,
            entities_merged: 0,
            observations_inserted: 0,
            observations_skipped: 0,
            observations_updated: 0,
            relations_inserted: 0,
            relations_skipped: 0,
        }
    }

    /// Counts an entity decision.
    pub fn count_entity(&mut self, d: &EntityImport)
        requires
            old(self).entities_inserted < usize::MAX,
            old(self).entities_skipped < usize::MAX,
            old(self).entities_merged < usize::MAX,
        ensures
            final(self).entities_inserted == old(self).entities_inserted + if d is Insert { 1int } else { 0 },
            final(self).entities_skipped == old(self).entities_skipped + if d is Skip { 1int } else { 0 },
            final(self).entities_merged == old(self).entities_merged + if d is Merge { 1int } else { 0 },
            final(self).observations_inserted == old(self).observations_inserted,
            final(self).observations_skipped == old(self).observations_skipped,
            final(self).observations_updated == old(self).observations_updated,
            final(self).relations_inserted == old(self).relations_inserted,
            final(self).relations_skipped == old(self).relations_skipped,
    {
        match d {
            EntityImport::Insert(_) => self.entities_inserted = self.entities_inserted + 1,
            EntityImport::Skip => self.entities_skipped = self.entities_skipped + 1,
            EntityImport::Merge(_) => self.entities_merged = self.entities_merged + 1,
        }
    }

    /// Counts an observation decision.
    pub fn count_observation(&mut self, d: RecordImport)
        requires
            old(self).observations_inserted < usize::MAX,
            old(self).observations_skipped < usize::MAX,
            old(self).observations_updated < usize::MAX,
        ensures
            final(self).observations_inserted == old(self).observations_inserted + if d is Insert { 1int } else { 0 },
            final(self).observations_updated == old(self).observations_updated + if d is Update { 1int } else { 0 },
            final(self).observations_skipped == old(self).observations_skipped + if d is Skip { 1int } else { 0 },
            final(self).entities_inserted == old(self).entities_inserted,
            final(self).entities_skipped == old(self).entities_skipped,
            final(self).entities_merged == old(self).entities_merged,
            final(self).relations_inserted == old(self).relations_inserted,
            final(self).relations_skipped == old(self).relations_skipped,
    {
        match d {
            RecordImport::Insert => self.observations_inserted = self.observations_inserted + 1,
            RecordImport::Update => self.observations_updated = self.observations_updated + 1,
            RecordImport::Skip => self.observations_skipped = self.observations_skipped + 1,
        }
    }

    /// Counts a relation: left out when already known, else inserted.
    pub fn count_relation(&mut self, known: bool)
        requires
            old(self).relations_inserted < usize::MAX,
            old(self).relations_skipped < usize::MAX,
        ensures
            final(self).relations_skipped == old(self).relations_skipped + if known { 1int } else { 0 },
            final(self).relations_inserted == old(self).relations_inserted + if known { 0int } else { 1 },
            final(self).entities_inserted == old(self).entities_inserted,
            final(self).entities_skipped == old(self).entities_skipped,
            final(self).entities_merged == old(self).entities_merged,
            final(self).observations_inserted == old(self).observations_inserted,
            final(self).observations_skipped == old(self).observations_skipped,
            final(self).observations_updated == old(self).observations_updated,
    {
        if known {
            self.relations_skipped = self.relations_skipped + 1;
        } else {
            self.relations_inserted = self.relations_inserted + 1;
        }
    }
}

// ---------------------------------------------------------------------------
// Laws
// ---------------------------------------------------------------------------

/// Importing an entity the case already holds, unchanged, is left out.
pub proof fn law_reimported_entity_is_skipped(e: Entity, r: EntityImport)
    requires
        entity_import_is(r, Some(e), e),
    ensures
        r is Skip,
{
    crate::json::lemma_key_lt_irreflexive(e.created_at@);
    assert(!absorbs_more(e, e)) by {
        assert forall|i: int| 0 <= i < e.merged_from@.len() implies has_str(e.merged_from@, e.merged_from@[i]@) by {}
    }
}

/// A merge is idempotent: importing the same entity again into the result
/// of its merge changes nothing.
pub proof fn law_merge_is_idempotent(existing: Entity, incoming: Entity, m: Entity, r: EntityImport)
    requires
        is_merge(m, existing, incoming),
        entity_import_is(r, Some(m), incoming),
    ensures
        r is Skip,
{
    crate::json::lemma_key_lt_irreflexive(incoming.created_at@);
    assert(!absorbs_more(m, incoming)) by {
        assert forall|i: int| 0 <= i < incoming.merged_from@.len() implies has_str(m.merged_from@, incoming.merged_from@[i]@) by {
            assert(has_str(incoming.merged_from@, incoming.merged_from@[i]@));
        }
    }
}

/// A merge loses no absorbed entity of either side (`merged_from` only
/// grows).
pub proof fn law_merge_keeps_absorbed(existing: Entity, incoming: Entity, m: Entity, y: Seq<char>)
    requires
        is_merge(m, existing, incoming),
        has_str(existing.merged_from@, y) || has_str(incoming.merged_from@, y),
    ensures
        has_str(m.merged_from@, y),
{
}

/// Observations are last-writer-wins: re-importing an observation with the
/// same time is left out, and a strictly later one replaces the case's.
pub proof fn law_observation_last_writer_wins(t: Seq<char>, u: Seq<char>)
    ensures
        observation_import_spec(Some(t), t) == RecordImport::Skip,
        key_lt(t, u) ==> observation_import_spec(Some(t), u) == RecordImport::Update,
        key_lt(t, u) ==> observation_import_spec(Some(u), t) == RecordImport::Skip,
{
    crate::json::lemma_key_lt_irreflexive(t);
    if key_lt(t, u) {
        crate::json::lemma_key_lt_asymmetric(t, u);
    }
}

} // verus!
