//! Internal probe schema.

use vstd::prelude::*;
use crate::json::JsonValue;

verus! {

/// Unique probe identifier: `"wmn:github"`, `"sherlock:reddit"`.
#[derive(Debug, Clone, PartialEq, Eq, Hash)]
pub struct ProbeId(pub String);

/// Category of a site.
#[derive(Debug, Clone, Copy, PartialEq, Eq, Structural)]
pub enum Category {
    Social,
    Dev,
    Gaming,
    Forum,
    Adult,
    Finance,
    Shopping,
    News,
    Education,
    Music,
    Video,
    Dating,
    Other,
}

/// Kind of selector a probe looks up.
#[derive(Debug, Clone, Copy, PartialEq, Eq, Structural)]
pub enum SelectorKind {
    Username,
    Email,
    Phone,
}

/// HTTP method.
#[derive(Debug, Clone, Copy, PartialEq, Eq, Structural)]
pub enum Method {
    Get,
    Post,
    Head,
    Options,
}

/// Body of a request, with `{selector}` to substitute.
#[derive(Debug, Clone)]
pub enum BodyTemplate {
    /// JSON text.
    Json(String),
    /// Form fields.
    Form(Vec<(String, String)>),
}

/// HTTP request template.
#[derive(Debug, Clone)]
pub struct RequestTemplate {
    pub method: Method,
    /// URL with `{selector}` to substitute.
    pub url: String,
    /// HTTP headers.
    pub headers: Vec<(String, String)>,
    pub body: Option<BodyTemplate>,
    /// Follow redirections.
    pub follow_redirects: bool,
    /// Request timeout, in milliseconds.
    pub timeout_ms: u64,
}

/// The value a missing `follow_redirects` takes.
pub fn default_true() -> (r: bool)
    ensures
        r,
{
    true
}

/// A condition on an HTTP answer.
#[derive(Debug, Clone)]
pub enum Assertion {
    /// Exact status code.
    StatusCode(u16),
    /// Status code in a closed interval.
    StatusIn { min: u16, max: u16 },
    /// The body contains a text.
    BodyContains(String),
    /// The body does not contain a text.
    BodyNotContains(String),
    /// The body matches a regular expression.
    BodyMatches(String),
    /// The final URL contains a text.
    FinalUrlContains(String),
    /// The final URL is a given one.
    FinalUrlEquals(String),
    /// A header is present.
    HeaderPresent(String),
    /// The JSON value at a pointer of the body is a given one.
    JsonPointerEquals { pointer: String, value: JsonValue },
    /// The body is longer than N bytes.
    ContentLengthGreaterThan(usize),
}

/// Decision rules, evaluated in a strict order: blocked, exists, missing.
#[derive(Debug, Clone)]
pub struct DecisionRules {
    /// Any of these means the account exists.
    pub exists_if: Vec<Assertion>,
    /// Any of these means the account is missing.
    pub missing_if: Vec<Assertion>,
    /// Any of these means the site blocks us.
    pub blocked_if: Vec<Assertion>,
}

/// Metadata to extract when the account exists.
#[derive(Debug, Clone)]
pub struct Extraction {
    pub name: String,
    pub selector: String,
    pub kind: ExtractionKind,
}

/// How to extract a piece of metadata.
#[derive(Debug, Clone)]
pub enum ExtractionKind {
    Text,
    Attribute { attr: String },
    JsonPointer { pointer: String },
    Regex { pattern: String },
}

/// Confidence in a probe.
#[derive(Debug, Clone, Copy, PartialEq, Eq, Structural)]
pub enum ConfidenceLevel {
    Unknown,
    High,
    Medium,
    Low,
    Degraded,
}

/// Measured quality of a probe. The two rates are floating-point numbers
/// between 0 and 1, held by their IEEE-754 bits.
#[derive(Debug, Clone)]
pub struct ProbeQuality {
    pub control_success_rate_bits: u64,
    pub block_rate_bits: u64,
    pub median_latency_ms: u64,
    /// Last successful check (RFC 3339), if any.
    pub last_success: Option<String>,
    pub confidence: ConfidenceLevel,
}

impl Default for ProbeQuality {
    /// A probe never checked: rates at zero, no latency, confidence unknown.
    fn default() -> (r: ProbeQuality)
        ensures
            r.control_success_rate_bits == 0,
            r.block_rate_bits == 0,
            r.median_latency_ms == 0,
            r.last_success is None,
            r.confidence == ConfidenceLevel::Unknown,
    {
        ProbeQuality {
            control_success_rate_bits: 0,
            block_rate_bits: 0,
            median_latency_ms: 0,
            last_success: None,
            confidence: ConfidenceLevel::Unknown,
        }
    }
}

/// The name of a confidence level in the health database.
pub open spec fn confidence_name_spec(c: ConfidenceLevel) -> Seq<char> {
    match c {
        ConfidenceLevel::High => "high"@,
        ConfidenceLevel::Medium => "medium"@,
        ConfidenceLevel::Low => "low"@,
        ConfidenceLevel::Degraded => "degraded"@,
        ConfidenceLevel::Unknown => "unknown"@,
    }
}

/// The level a name stands for; any other name is `Unknown`.
pub open spec fn confidence_of_name(s: Seq<char>) -> ConfidenceLevel {
    if s == "high"@ {
        ConfidenceLevel::High
    } else if s == "medium"@ {
        ConfidenceLevel::Medium
    } else if s == "low"@ {
        ConfidenceLevel::Low
    } else if s == "degraded"@ {
        ConfidenceLevel::Degraded
    } else {
        ConfidenceLevel::Unknown
    }
}

impl ConfidenceLevel {
    /// The name of the level in the health database.
    pub fn name(&self) -> (r: &'static str)
        ensures
            r@ == confidence_name_spec(*self),
    {
        match self {
            ConfidenceLevel::High => "high",
            ConfidenceLevel::Medium => "medium",
            ConfidenceLevel::Low => "low",
            ConfidenceLevel::Degraded => "degraded",
            ConfidenceLevel::Unknown => "unknown",
        }
    }

    /// The level a name of the health database stands for; any other name
    /// gives `Unknown`.
    pub fn from_name(s: &str) -> (r: ConfidenceLevel)
        ensures
            r == confidence_of_name(s@),
    {
        let t = String::from_str(s);
        if t == String::from_str("high") {
            ConfidenceLevel::High
        } else if t == String::from_str("medium") {
            ConfidenceLevel::Medium
        } else if t == String::from_str("low") {
            ConfidenceLevel::Low
        } else if t == String::from_str("degraded") {
            ConfidenceLevel::Degraded
        } else {
            ConfidenceLevel::Unknown
        }
    }
}

/// Reading back the name of a level gives the level.
pub proof fn law_confidence_name_roundtrip(c: ConfidenceLevel)
    ensures
        confidence_of_name(confidence_name_spec(c)) == c,
{
    reveal_strlit("high");
    reveal_strlit("medium");
    reveal_strlit("low");
    reveal_strlit("degraded");
    reveal_strlit("unknown");
    assert("high"@.len() == 4 && "medium"@.len() == 6 && "low"@.len() == 3);
    assert("degraded"@.len() == 8 && "unknown"@.len() == 7);
    assert("high"@[0] == 'h' && "low"@[0] == 'l');
    assert("degraded"@[0] == 'd' && "unknown"@[0] == 'u');
}

/// Origin of a probe.
#[derive(Debug, Clone)]
pub struct DataSource {
    /// `"wmn"`, `"sherlock"`, `"maigret"`, `"holehe"`, `"manual"`.
    pub source: String,
    /// `"CC-BY-SA-4.0"`, `"MIT"`, `"GPL-3.0"`, `"internal"`.
    pub license: String,
    pub source_url: Option<String>,
    pub source_hash: Option<String>,
}

/// A complete probe.
#[derive(Debug, Clone)]
pub struct Probe {
    pub id: ProbeId,
    pub site_name: String,
    pub category: Category,
    pub selector_kind: SelectorKind,
    pub request: RequestTemplate,
    pub decision: DecisionRules,
    pub extract: Vec<Extraction>,
    pub quality: ProbeQuality,
    pub source: DataSource,
}

/// Why a site blocks us.
#[derive(Debug, Clone)]
pub enum BlockReason {
    Cloudflare,
    Captcha,
    RateLimit,
    Waf,
    Other(String),
}

/// Technical error of a probe.
#[derive(Debug, Clone)]
pub enum ProbeError {
    Network(String),
    Timeout,
    InvalidUrl(String),
    ParseError(String),
    Internal(String),
}

/// Evidence behind a decision, for the chain of custody.
#[derive(Debug, Clone)]
pub struct Evidence {
    /// The assertion that fired.
    pub triggered_assertion: Option<String>,
    pub status_code: u16,
    /// Final URL, after redirections.
    pub final_url: String,
    /// BLAKE3 hash of the body.
    pub body_hash: String,
    /// The body cut to 256 characters.
    pub body_preview: Option<String>,
    /// Time of the request (RFC 3339).
    pub timestamp: String,
}

/// What a probe found.
#[derive(Debug, Clone)]
pub enum ProbeOutcome {
    /// The account exists.
    Exists { evidence: Evidence, extracted: Vec<(String, String)> },
    /// The account does not exist.
    Missing,
    /// The site blocks us.
    Blocked { reason: BlockReason },
    /// Undecided: nothing fired.
    Indeterminate { reason: String },
    /// Technical error.
    Error(ProbeError),
}

/// Result of one probe run.
#[derive(Debug, Clone)]
pub struct ProbeResult {
    pub probe_id: ProbeId,
    pub selector: String,
    pub outcome: ProbeOutcome,
    pub elapsed_ms: u64,
}

} // verus!
