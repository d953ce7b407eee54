//! The contract shared by every transform, and its manifests.
//!
//! A transform takes an entity and returns new entities, observations and
//! relations. Native transforms do their I/O at the edge; what they decide
//! from the data they got stands here.

use vstd::prelude::*;
use crate::entity::{Entity, EntityKind, Observation};
use crate::json::JsonValue;

verus! {

/// Input of a transform: an entity and the parameters of the run.
#[derive(Debug, Clone)]
pub struct TransformInput {
    /// Entity the transform works on.
    pub entity: Entity,
    /// Parameters given by the analyst or the orchestrator, by key.
    pub params: Vec<(String, JsonValue)>,
}

/// Output of a transform.
#[derive(Debug, Clone)]
pub struct TransformOutput {
    /// New entities.
    pub entities: Vec<Entity>,
    /// Observations on the input entity or the new ones.
    pub observations: Vec<Observation>,
    /// Relations between the input entity and the new ones.
    pub relations: Vec<Relation>,
}

impl TransformOutput {
    /// An output with nothing in it.
    pub fn empty() -> (r: TransformOutput)
        ensures
            r.entities@.len() == 0,
            r.observations@.len() == 0,
            r.relations@.len() == 0,
    {
        TransformOutput { entities: Vec::new(), observations: Vec::new(), relations: Vec::new() }
    }
}

/// A directed relation between two entities.
#[derive(Debug, Clone)]
pub struct Relation {
    /// Entity the link starts from.
    pub source: String,
    /// Entity the link goes to.
    pub target: String,
    /// Meaning: `"resolves_to"`, `"hosted_on"`, `"registered_by"`, ...
    pub kind: String,
    /// Properties of the relation, by key.
    pub properties: Vec<(String, JsonValue)>,
}

/// Context of a run.
#[derive(Debug, Clone)]
pub struct TransformContext {
    /// Identifier of the case.
    pub case_id: String,
    /// Network profile: `"direct"`, `"proxy"`, `"tor"`.
    pub network_profile: String,
    /// User agent of HTTP requests.
    pub user_agent: String,
    /// Operator behind the collection.
    pub operator: String,
}

/// Error of a transform.
#[derive(Debug, Clone)]
pub enum TransformError {
    /// The kind of the input entity is not supported.
    UnsupportedEntityType(String),
    /// A network error.
    NetworkError(String),
    /// The transform ran out of time.
    Timeout,
    /// The run was cancelled.
    Cancelled,
    /// The transform tried to leave its sandbox.
    SandboxViolation(String),
    /// Internal error.
    Internal(String),
}

/// `chrono::Utc::now().to_rfc3339()`: the current time. Nothing is promised
/// of the text, which depends on the clock.
#[verifier::external_body]
pub(crate) fn now_rfc3339() -> (r: String) {
    chrono::Utc::now().to_rfc3339()
}

// ---------------------------------------------------------------------------
// Manifests
// ---------------------------------------------------------------------------

/// Network permission: the domains a transform may reach.
#[derive(Debug, Clone)]
pub struct NetworkPermission {
    /// Allowed domains (no scheme, no path), each once.
    pub allowlist: Vec<String>,
    /// Maximum number of HTTP requests per run.
    pub max_requests_per_run: usize,
    /// Maximum response size in bytes.
    pub max_response_bytes: usize,
}

/// Permissions a transform asks for.
#[derive(Debug, Clone)]
pub struct TransformPermission {
    /// Network access.
    pub network: NetworkPermission,
}

/// Limits that protect the host.
#[derive(Debug, Clone)]
pub struct TransformQuotas {
    /// Maximum run time in seconds.
    pub timeout_seconds: u64,
    /// Maximum memory in megabytes.
    pub max_memory_mb: usize,
}

impl TransformQuotas {
    /// The default quotas: 30 seconds, 128 MB.
    pub fn default() -> (r: TransformQuotas)
        ensures
            r.timeout_seconds == 30,
            r.max_memory_mb == 128,
    {
        TransformQuotas { timeout_seconds: 30, max_memory_mb: 128 }
    }
}

/// Manifest of a transform (native or WASM).
#[derive(Debug, Clone)]
pub struct TransformManifest {
    /// Unique technical name.
    pub id: String,
    /// Name shown to the analyst.
    pub name: String,
    /// Short description.
    pub description: String,
    /// Semver version.
    pub version: String,
    /// Author and contact.
    pub author: String,
    /// SPDX licence.
    pub license: String,
    /// Accepted input kinds.
    pub input_kinds: Vec<EntityKind>,
    /// Kinds it may produce.
    pub output_kinds: Vec<EntityKind>,
    /// Permissions it needs.
    pub permissions: TransformPermission,
    /// Run limits.
    pub quotas: TransformQuotas,
}

/// The views of a list of strings.
pub open spec fn views(s: Seq<String>) -> Seq<Seq<char>> {
    s.map_values(|x: String| x@)
}

/// `d` is one of the strings of `list`.
pub fn list_contains(list: &Vec<String>, d: &str) -> (r: bool)
    ensures
        r == views(list@).contains(d@),
{
    let target = String::from_str(d);
    let mut i: usize = 0;
    while i < list.len()
        invariant
            i <= list.len(),
            target@ == d@,
            forall|k: int| 0 <= k < i ==> list@[k]@ != d@,
        decreases list.len() - i,
    {
        if list[i] == target {
            assert(views(list@)[i as int] == d@);
            return true;
        }
        i = i + 1;
    }
    proof {
        if views(list@).contains(d@) {
            let k = choose|k: int| 0 <= k < views(list@).len() && views(list@)[k] == d@;
            assert(list@[k]@ == d@);
        }
    }
    false
}

impl TransformManifest {
    /// The domain is on the allowlist.
    pub fn allows_domain(&self, domain: &str) -> (r: bool)
        ensures
            r == views(self.permissions.network.allowlist@).contains(domain@),
    {
        list_contains(&self.permissions.network.allowlist, domain)
    }
}

} // verus!
