//! Control probes: before a campaign, each probe is run on a random
//! selector that exists nowhere. A probe that then says "missing" works; one
//! that says "exists" is broken.

use vstd::prelude::*;
use rand::Rng;
use crate::probe::schema::{BlockReason, ProbeError, ProbeId, ProbeOutcome, SelectorKind};
use crate::text::{push_char, push_str};

verus! {

/// `rand::rng().random_range(0..n)`: a number below `n`, drawn at random.
#[verifier::external_body]
fn random_below(n: u32) -> (r: u32)
    requires
        n > 0,
    ensures
        r < n,
{
    rand::rng().random_range(0..n)
}

/// Letters and digits: `a`–`z` for 0–25, `A`–`Z` for 26–51, `0`–`9` for
/// 52–61.
pub open spec fn alnum_char(i: u32) -> char {
    if i < 26 {
        ((97 + i) as u8) as char
    } else if i < 52 {
        ((65 + i - 26) as u8) as char
    } else {
        ((48 + i - 52) as u8) as char
    }
}

/// Lower-case letters and digits: `a`–`z` for 0–25, `0`–`9` for 26–35.
pub open spec fn lower_alnum_char(i: u32) -> char {
    if i < 26 {
        ((97 + i) as u8) as char
    } else {
        ((48 + i - 26) as u8) as char
    }
}

fn alnum(i: u32) -> (c: char)
    requires
        i < 62,
    ensures
        c == alnum_char(i),
{
    if i < 26 {
        ((97 + i) as u8) as char
    } else if i < 52 {
        ((65 + i - 26) as u8) as char
    } else {
        ((48 + i - 52) as u8) as char
    }
}

fn lower_alnum(i: u32) -> (c: char)
    requires
        i < 36,
    ensures
        c == lower_alnum_char(i),
{
    if i < 26 {
        ((97 + i) as u8) as char
    } else {
        ((48 + i - 26) as u8) as char
    }
}

/// The decimal digit of `d < 10`.
pub open spec fn digit_of(d: nat) -> char {
    ((48 + d) as u8) as char
}

/// `n` in decimal on `w` digits, with leading zeros.
pub open spec fn padded(n: nat, w: nat) -> Seq<char>
    decreases w,
{
    if w == 0 {
        Seq::empty()
    } else {
        padded(n / 10, (w - 1) as nat).push(digit_of(n % 10))
    }
}

fn padded_exec(n: u32, w: u32) -> (r: Vec<char>)
    ensures
        r@ == padded(n as nat, w as nat),
    decreases w,
{
    if w == 0 {
        Vec::new()
    } else {
        let mut v = padded_exec(n / 10, w - 1);
        v.push(((48 + n % 10) as u8) as char);
        v
    }
}

/// The draws fit the selector kind: twelve below 62 for a user name, ten
/// below 36 for an email, one below 10^8 for a phone number.
pub open spec fn draws_fit(kind: SelectorKind, d: Seq<u32>) -> bool {
    match kind {
        SelectorKind::Username => d.len() == 12 && forall|i: int| 0 <= i < 12 ==> d[i] < 62,
        SelectorKind::Email => d.len() == 10 && forall|i: int| 0 <= i < 10 ==> d[i] < 36,
        SelectorKind::Phone => d.len() == 1 && d[0] < 100_000_000,
    }
}

/// The control selector given by the draws: twelve letters and digits; ten
/// lower-case letters and digits at `example.com`; `+336` and eight digits.
pub open spec fn control_selector_spec(kind: SelectorKind, d: Seq<u32>) -> Seq<char> {
    match kind {
        SelectorKind::Username => Seq::new(12, |i: int| alnum_char(d[i])),
        SelectorKind::Email => Seq::new(10, |i: int| lower_alnum_char(d[i])) + "@example.com"@,
        SelectorKind::Phone => "+336"@ + padded(d[0] as nat, 8),
    }
}

/// The control selector given by a set of draws.
pub fn control_selector_from(kind: &SelectorKind, draws: &Vec<u32>) -> (r: String)
    requires
        draws_fit(*kind, draws@),
    ensures
        r@ == control_selector_spec(*kind, draws@),
{
    match kind {
        SelectorKind::Username => {
            let mut r = String::new();
            let mut i: usize = 0;
            while i < 12
                invariant
                    draws_fit(*kind, draws@),
                    *kind == SelectorKind::Username,
                    i <= 12,
                    r@ == Seq::new(i as nat, |k: int| alnum_char(draws@[k])),
                decreases 12 - i,
            {
                push_char(&mut r, alnum(draws[i]));
                i = i + 1;
                assert(r@ =~= Seq::new(i as nat, |k: int| alnum_char(draws@[k])));
            }
            r
        },
        SelectorKind::Email => {
            let mut r = String::new();
            let mut i: usize = 0;
            while i < 10
                invariant
                    draws_fit(*kind, draws@),
                    *kind == SelectorKind::Email,
                    i <= 10,
                    r@ == Seq::new(i as nat, |k: int| lower_alnum_char(draws@[k])),
                decreases 10 - i,
            {
                push_char(&mut r, lower_alnum(draws[i]));
                i = i + 1;
                assert(r@ =~= Seq::new(i as nat, |k: int| lower_alnum_char(draws@[k])));
            }
            push_str(&mut r, "@example.com");
            r
        },
        SelectorKind::Phone => {
            let mut r = String::from_str("+336");
            let digits = padded_exec(draws[0], 8);
            let mut i: usize = 0;
            let ghost start = r@;
            while i < digits.len()
                invariant
                    i <= digits.len(),
                    r@ == start + digits@.take(i as int),
                decreases digits.len() - i,
            {
                push_char(&mut r, digits[i]);
                i = i + 1;
                assert(r@ =~= start + digits@.take(i as int));
            }
            assert(digits@.take(i as int) =~= digits@);
            r
        },
    }
}

/// A random selector of the kind's shape, that exists nowhere.
pub fn generate_control_selector(kind: &SelectorKind) -> (r: String)
    ensures
        exists|d: Seq<u32>| draws_fit(*kind, d) && r@ == control_selector_spec(*kind, d),
{
    let (n, bound): (usize, u32) = match kind {
        SelectorKind::Username => (12, 62),
        SelectorKind::Email => (10, 36),
        SelectorKind::Phone => (1, 100_000_000),
    };
    let mut draws: Vec<u32> = Vec::new();
    let mut i: usize = 0;
    while i < n
        invariant
            i <= n,
            draws@.len() == i,
            forall|k: int| 0 <= k < i ==> draws@[k] < bound,
            bound > 0,
        decreases n - i,
    {
        draws.push(random_below(bound));
        i = i + 1;
    }
    control_selector_from(kind, &draws)
}

// ---------------------------------------------------------------------------
// Control results
// ---------------------------------------------------------------------------

/// Verdict of a control run.
#[derive(Debug, Clone)]
pub enum ControlStatus {
    /// The probe says "missing" for a random selector: it works.
    Healthy,
    /// The probe says "exists" for a random selector: it is broken.
    Degraded { reason: String },
    /// The site blocks us.
    Blocked { reason: BlockReason },
    /// The probe could not decide.
    Indeterminate { reason: String },
    /// Technical error.
    Error(String),
}

/// Result of a control run.
#[derive(Debug)]
pub struct ControlResult {
    pub probe_id: ProbeId,
    pub status: ControlStatus,
    pub elapsed: std::time::Duration,
}

/// A text as `{:?}` writes it (quoted, with escapes).
pub uninterp spec fn debug_quoted(s: Seq<char>) -> Seq<char>;

/// `format!("{:?}", s)` for a string.
#[verifier::external_body]
fn debug_string(s: &str) -> (r: String)
    ensures
        r@ == debug_quoted(s@),
{
    format!("{:?}", s)
}

/// A probe error as `{:?}` writes it.
pub open spec fn probe_error_debug(e: ProbeError) -> Seq<char> {
    match e {
        ProbeError::Network(s) => "Network"@ + "("@ + debug_quoted(s@) + ")"@,
        ProbeError::Timeout => "Timeout"@,
        ProbeError::InvalidUrl(s) => "InvalidUrl"@ + "("@ + debug_quoted(s@) + ")"@,
        ProbeError::ParseError(s) => "ParseError"@ + "("@ + debug_quoted(s@) + ")"@,
        ProbeError::Internal(s) => "Internal"@ + "("@ + debug_quoted(s@) + ")"@,
    }
}

fn wrapped_debug(name: &str, s: &String) -> (r: String)
    ensures
        r@ == name@ + "("@ + debug_quoted(s@) + ")"@,
{
    let mut r = String::from_str(name);
    push_str(&mut r, "(");
    push_str(&mut r, debug_string(s.as_str()).as_str());
    push_str(&mut r, ")");
    r
}

/// A probe error as `{:?}` writes it.
pub fn probe_error_text(e: &ProbeError) -> (r: String)
    ensures
        r@ == probe_error_debug(*e),
{
    match e {
        ProbeError::Network(s) => wrapped_debug("Network", s),
        ProbeError::Timeout => String::from_str("Timeout"),
        ProbeError::InvalidUrl(s) => wrapped_debug("InvalidUrl", s),
        ProbeError::ParseError(s) => wrapped_debug("ParseError", s),
        ProbeError::Internal(s) => wrapped_debug("Internal", s),
    }
}

/// The verdict a control run gives: missing is healthy; exists is
/// degraded; a block or an undecided answer is passed on; an error is
/// reported by its text.
pub fn control_status(outcome: ProbeOutcome) -> (r: ControlStatus)
    ensures
        outcome is Missing <==> r is Healthy,
        outcome is Exists <==> (r matches ControlStatus::Degraded { reason } && reason@
            == "la sonde retourne 'existe' pour un sélecteur aléatoire"@),
        outcome matches ProbeOutcome::Blocked { reason } ==> r == (ControlStatus::Blocked { reason }),
        outcome matches ProbeOutcome::Indeterminate { reason } ==> r == (ControlStatus::Indeterminate { reason }),
        outcome matches ProbeOutcome::Error(e) ==> (r matches ControlStatus::Error(m) && m@ == probe_error_debug(e)),
{
    match outcome {
        ProbeOutcome::Missing => ControlStatus::Healthy,
        ProbeOutcome::Exists { .. } => ControlStatus::Degraded {
            reason: String::from_str("la sonde retourne 'existe' pour un sélecteur aléatoire"),
        },
        ProbeOutcome::Blocked { reason } => ControlStatus::Blocked { reason },
        ProbeOutcome::Indeterminate { reason } => ControlStatus::Indeterminate { reason },
        ProbeOutcome::Error(e) => ControlStatus::Error(probe_error_text(&e)),
    }
}

/// The result of a control run that gave no probe result at all.
pub fn no_result(probe_id: ProbeId, elapsed: std::time::Duration) -> (r: ControlResult)
    ensures
        r.probe_id == probe_id,
        r.status matches ControlStatus::Error(m) && m@ == "aucun résultat"@,
        r.elapsed == elapsed,
{
    ControlResult { probe_id, status: ControlStatus::Error(String::from_str("aucun résultat")), elapsed }
}

} // verus!
