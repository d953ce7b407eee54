//! Decision engine: what an HTTP answer means for a probe.
//!
//! Strict order: blocked, then exists, then missing, else undecided. No
//! network here: the answer has already been received.

use vstd::prelude::*;
use crate::json::{JsonValue, canonical_json, canonical_spec};
use crate::probe::schema::{Assertion, BlockReason, DecisionRules, Evidence, ProbeOutcome};
use crate::transform::now_rfc3339;
use crate::text::{contains, contains_spec, decimal, decimal_spec, push_str, chars_of, string_of};

verus! {

// ---------------------------------------------------------------------------
// Outside functions
// ---------------------------------------------------------------------------

/// What `regex::Regex::new(pattern)` then `is_match(text)` give: whether
/// the text matches, or the error text of an invalid pattern.
pub uninterp spec fn regex_match_outcome(pattern: Seq<char>, text: Seq<char>) -> Result<bool, Seq<char>>;

/// `regex::Regex::new` and `Regex::is_match`: `Ok` with whether `text`
/// matches `pattern`, or `Err` with the error text of an invalid pattern.
#[verifier::external_body]
fn regex_match(pattern: &str, text: &str) -> (r: Result<bool, String>)
    ensures
        match r {
            Ok(b) => regex_match_outcome(pattern@, text@) == Ok::<bool, Seq<char>>(b),
            Err(m) => regex_match_outcome(pattern@, text@) == Err::<bool, Seq<char>>(m@),
        },
{
    match regex::Regex::new(pattern) {
        Ok(re) => Ok(re.is_match(text)),
        Err(e) => Err(e.to_string()),
    }
}

/// What the JSON value at `pointer` of the text `body` is: `None` when the
/// body is not JSON, `Some(None)` when nothing is there, `Some(Some((true,
/// s)))` for a string `s`, `Some(Some((false, t)))` for any other value of
/// compact JSON text `t`.
pub uninterp spec fn json_pointer_value(body: Seq<char>, pointer: Seq<char>) -> Option<Option<(bool, Seq<char>)>>;

/// `serde_json::from_str::<Value>` then `Value::pointer`, the value read as
/// above.
#[verifier::external_body]
pub(crate) fn json_pointer(body: &str, pointer: &str) -> (r: Option<Option<(bool, String)>>)
    ensures
        json_pointer_value(body@, pointer@) == match r {
            None => None,
            Some(None) => Some(None),
            Some(Some((b, t))) => Some(Some((b, t@))),
        },
{
    match serde_json::from_str::<serde_json::Value>(body) {
        Err(_) => None,
        Ok(v) => Some(match v.pointer(pointer) {
            None => None,
            Some(serde_json::Value::String(s)) => Some((true, s.clone())),
            Some(other) => Some((false, other.to_string())),
        }),
    }
}

/// The BLAKE3 hash of a byte sequence, in hexadecimal.
pub uninterp spec fn blake3_hex(data: Seq<u8>) -> Seq<char>;

/// `blake3::hash`, written in hexadecimal.
#[verifier::external_body]
fn blake3_hash_hex(data: &[u8]) -> (r: String)
    ensures
        r@ == blake3_hex(data@),
{
    blake3::hash(data).to_string()
}

// ---------------------------------------------------------------------------
// Small texts
// ---------------------------------------------------------------------------

/// `true` or `false`, as `{}` writes a boolean.
pub open spec fn bool_text(b: bool) -> Seq<char> {
    if b { "true"@ } else { "false"@ }
}

fn bool_string(b: bool) -> (r: String)
    ensures
        r@ == bool_text(b),
{
    if b {
        String::from_str("true")
    } else {
        String::from_str("false")
    }
}

/// ASCII letters in lower case, every other character kept.
pub open spec fn ascii_lower_char(c: char) -> char {
    if 'A' <= c && c <= 'Z' {
        ((c as u32) + 32) as char
    } else {
        c
    }
}

/// A text with its ASCII letters in lower case.
pub open spec fn ascii_lower(s: Seq<char>) -> Seq<char> {
    s.map_values(|c: char| ascii_lower_char(c))
}

fn ascii_lower_exec(s: &str) -> (r: String)
    ensures
        r@ == ascii_lower(s@),
{
    let v = chars_of(s);
    let mut out: Vec<char> = Vec::new();
    let mut i: usize = 0;
    while i < v.len()
        invariant
            i <= v.len(),
            out@ == ascii_lower(v@.take(i as int)),
        decreases v.len() - i,
    {
        let c = v[i];
        let d = if c >= 'A' && c <= 'Z' {
            ((c as u8) + 32) as char
        } else {
            c
        };
        proof {
            if 'A' <= c && c <= 'Z' {
                assert((c as u32) < 128);
                assert(d == ascii_lower_char(c));
            }
        }
        out.push(d);
        i = i + 1;
        assert(out@ =~= ascii_lower(v@.take(i as int)));
    }
    assert(v@.take(v.len() as int) =~= v@);
    string_of(&out)
}

/// The answer has a header named `name` (names compare case-insensitively;
/// the answer's names are lower case).
pub open spec fn header_present(headers: Seq<(String, String)>, name: Seq<char>) -> bool {
    exists|i: int| 0 <= i < headers.len() && headers[i].0@ == ascii_lower(name)
}

fn has_header(headers: &Vec<(String, String)>, name: &str) -> (r: bool)
    ensures
        r == header_present(headers@, name@),
{
    let lower = ascii_lower_exec(name);
    let mut i: usize = 0;
    while i < headers.len()
        invariant
            i <= headers.len(),
            lower@ == ascii_lower(name@),
            forall|k: int| 0 <= k < i ==> headers@[k].0@ != ascii_lower(name@),
        decreases headers.len() - i,
    {
        if headers[i].0 == lower {
            return true;
        }
        i = i + 1;
    }
    false
}


// ---------------------------------------------------------------------------
// Assertions
// ---------------------------------------------------------------------------

/// The value read at a JSON pointer is the expected one: a string compares
/// by its characters, any other value by its JSON text.
pub open spec fn pointed_equals(p: Option<(bool, Seq<char>)>, v: JsonValue) -> bool {
    match p {
        None => false,
        Some(found) => match v {
            JsonValue::String(s) => found.0 && found.1 == s@,
            _ => !found.0 && found.1 == canonical_spec(v),
        },
    }
}

/// The length in bytes of a text's UTF-8 encoding, as `str::len` gives it.
pub open spec fn byte_len(s: Seq<char>) -> nat {
    (vstd::utf8::encode_utf8(s).len() as usize) as nat
}

/// Whether an assertion holds of an answer, and the detail it reports.
pub open spec fn assertion_spec(
    a: Assertion,
    status: u16,
    body: Seq<char>,
    final_url: Seq<char>,
    headers: Seq<(String, String)>,
) -> (bool, Seq<char>) {
    match a {
        Assertion::StatusCode(code) => (
            status == code,
            "status="@ + decimal_spec(status as nat) + ", attendu="@ + decimal_spec(code as nat),
        ),
        Assertion::StatusIn { min, max } => (
            min <= status && status <= max,
            "status="@ + decimal_spec(status as nat) + ", intervalle=["@ + decimal_spec(min as nat)
                + ","@ + decimal_spec(max as nat) + "]"@,
        ),
        Assertion::BodyContains(t) => (
            contains_spec(body, t@),
            "body contains '"@ + t@ + "': "@ + bool_text(contains_spec(body, t@)),
        ),
        Assertion::BodyNotContains(t) => (
            !contains_spec(body, t@),
            "body not contains '"@ + t@ + "': "@ + bool_text(!contains_spec(body, t@)),
        ),
        Assertion::BodyMatches(p) => match regex_match_outcome(p@, body) {
            Ok(m) => (m, "regex '"@ + p@ + "' matched: "@ + bool_text(m)),
            Err(e) => (false, "regex invalide: "@ + e),
        },
        Assertion::FinalUrlContains(t) => (
            contains_spec(final_url, t@),
            "url '"@ + final_url + "' contains '"@ + t@ + "': "@ + bool_text(
                contains_spec(final_url, t@),
            ),
        ),
        Assertion::FinalUrlEquals(u) => (
            final_url == u@,
            "url '"@ + final_url + "' == '"@ + u@ + "': "@ + bool_text(final_url == u@),
        ),
        Assertion::HeaderPresent(n) => (
            header_present(headers, n@),
            "header '"@ + n@ + "' present: "@ + bool_text(header_present(headers, n@)),
        ),
        Assertion::JsonPointerEquals { pointer, value } => match json_pointer_value(body, pointer@) {
            None => (false, "body n'est pas du JSON valide"@),
            Some(p) => (
                pointed_equals(p, value),
                "pointer '"@ + pointer@ + "' matched: "@ + bool_text(pointed_equals(p, value)),
            ),
        },
        Assertion::ContentLengthGreaterThan(len) => (
            byte_len(body) > len,
            "body.len()="@ + decimal_spec(byte_len(body)) + " > "@ + decimal_spec(len as nat) + ": "@
                + bool_text(byte_len(body) > len),
        ),
    }
}

/// Result of evaluating an assertion.
#[derive(Debug, Clone)]
pub struct AssertionResult {
    pub matched: bool,
    pub detail: Option<String>,
}

fn pointed_matches(p: &Option<(bool, String)>, v: &JsonValue) -> (r: bool)
    ensures
        r == pointed_equals(
            match *p {
                None => None,
                Some((b, t)) => Some((b, t@)),
            },
            *v,
        ),
{
    match p {
        None => false,
        Some((is_str, t)) => match v {
            JsonValue::String(s) => *is_str && *t == *s,
            _ => {
                let c = canonical_json(v);
                !*is_str && *t == c
            },
        },
    }
}

fn status_code_detail(status: u16, code: u16) -> (d: String)
    ensures
        d@ == "status="@ + decimal_spec(status as nat) + ", attendu="@ + decimal_spec(code as nat),
{
    let mut d = String::from_str("status=");
    push_str(&mut d, decimal(status as u64).as_str());
    push_str(&mut d, ", attendu=");
    push_str(&mut d, decimal(code as u64).as_str());
    d
}

fn status_in_detail(status: u16, min: u16, max: u16) -> (d: String)
    ensures
        d@ == "status="@ + decimal_spec(status as nat) + ", intervalle=["@ + decimal_spec(min as nat)
            + ","@ + decimal_spec(max as nat) + "]"@,
{
    let mut d = String::from_str("status=");
    push_str(&mut d, decimal(status as u64).as_str());
    push_str(&mut d, ", intervalle=[");
    push_str(&mut d, decimal(min as u64).as_str());
    push_str(&mut d, ",");
    push_str(&mut d, decimal(max as u64).as_str());
    push_str(&mut d, "]");
    d
}

/// `prefix`, `quoted`, `middle` and the boolean, one after the other.
fn quoted_detail(prefix: &str, quoted: &str, middle: &str, b: bool) -> (d: String)
    ensures
        d@ == prefix@ + quoted@ + middle@ + bool_text(b),
{
    let mut d = String::from_str(prefix);
    push_str(&mut d, quoted);
    push_str(&mut d, middle);
    push_str(&mut d, bool_string(b).as_str());
    d
}

fn url_detail(final_url: &str, middle: &str, t: &str, b: bool) -> (d: String)
    ensures
        d@ == "url '"@ + final_url@ + middle@ + t@ + "': "@ + bool_text(b),
{
    let mut d = String::from_str("url '");
    push_str(&mut d, final_url);
    push_str(&mut d, middle);
    push_str(&mut d, t);
    push_str(&mut d, "': ");
    push_str(&mut d, bool_string(b).as_str());
    d
}

fn length_detail(n: usize, len: usize, b: bool) -> (d: String)
    ensures
        d@ == "body.len()="@ + decimal_spec(n as nat) + " > "@ + decimal_spec(len as nat) + ": "@
            + bool_text(b),
{
    let mut d = String::from_str("body.len()=");
    push_str(&mut d, decimal(n as u64).as_str());
    push_str(&mut d, " > ");
    push_str(&mut d, decimal(len as u64).as_str());
    push_str(&mut d, ": ");
    push_str(&mut d, bool_string(b).as_str());
    d
}

fn regex_result(pattern: &String, body: &str) -> (r: AssertionResult)
    ensures
        r.detail matches Some(d) && (r.matched, d@) == (match regex_match_outcome(pattern@, body@) {
            Ok(m) => (m, "regex '"@ + pattern@ + "' matched: "@ + bool_text(m)),
            Err(e) => (false, "regex invalide: "@ + e),
        }),
{
    match regex_match(pattern.as_str(), body) {
        Ok(m) => {
            let d = quoted_detail("regex '", pattern.as_str(), "' matched: ", m);
            AssertionResult { matched: m, detail: Some(d) }
        },
        Err(e) => {
            let mut d = String::from_str("regex invalide: ");
            push_str(&mut d, e.as_str());
            AssertionResult { matched: false, detail: Some(d) }
        },
    }
}

fn json_pointer_result(pointer: &String, value: &JsonValue, body: &str) -> (r: AssertionResult)
    ensures
        r.detail matches Some(d) && (r.matched, d@) == (match json_pointer_value(body@, pointer@) {
            None => (false, "body n'est pas du JSON valide"@),
            Some(p) => (
                pointed_equals(p, *value),
                "pointer '"@ + pointer@ + "' matched: "@ + bool_text(pointed_equals(p, *value)),
            ),
        }),
{
    match json_pointer(body, pointer.as_str()) {
        None => AssertionResult {
            matched: false,
            detail: Some(String::from_str("body n'est pas du JSON valide")),
        },
        Some(p) => {
            let m = pointed_matches(&p, value);
            let d = quoted_detail("pointer '", pointer.as_str(), "' matched: ", m);
            AssertionResult { matched: m, detail: Some(d) }
        },
    }
}

/// Evaluates an assertion on an HTTP answer.
pub fn evaluate_assertion(
    assertion: &Assertion,
    status: u16,
    body: &str,
    final_url: &str,
    headers: &Vec<(String, String)>,
) -> (r: AssertionResult)
    ensures
        r.matched == assertion_spec(*assertion, status, body@, final_url@, headers@).0,
        r.detail matches Some(d) && d@ == assertion_spec(*assertion, status, body@, final_url@, headers@).1,
{
    match assertion {
        Assertion::StatusCode(code) => {
            AssertionResult { matched: status == *code, detail: Some(status_code_detail(status, *code)) }
        },
        Assertion::StatusIn { min, max } => {
            let d = status_in_detail(status, *min, *max);
            AssertionResult { matched: status >= *min && status <= *max, detail: Some(d) }
        },
        Assertion::BodyContains(text) => {
            let m = contains(body, text.as_str());
            let d = quoted_detail("body contains '", text.as_str(), "': ", m);
            AssertionResult { matched: m, detail: Some(d) }
        },
        Assertion::BodyNotContains(text) => {
            let m = !contains(body, text.as_str());
            let d = quoted_detail("body not contains '", text.as_str(), "': ", m);
            AssertionResult { matched: m, detail: Some(d) }
        },
        Assertion::BodyMatches(pattern) => regex_result(pattern, body),
        Assertion::FinalUrlContains(text) => {
            let m = contains(final_url, text.as_str());
            let d = url_detail(final_url, "' contains '", text.as_str(), m);
            AssertionResult { matched: m, detail: Some(d) }
        },
        Assertion::FinalUrlEquals(url) => {
            let fu = String::from_str(final_url);
            let m = fu == *url;
            let d = url_detail(final_url, "' == '", url.as_str(), m);
            AssertionResult { matched: m, detail: Some(d) }
        },
        Assertion::HeaderPresent(name) => {
            let m = has_header(headers, name.as_str());
            let d = quoted_detail("header '", name.as_str(), "' present: ", m);
            AssertionResult { matched: m, detail: Some(d) }
        },
        Assertion::JsonPointerEquals { pointer, value } => json_pointer_result(pointer, value, body),
        Assertion::ContentLengthGreaterThan(len) => {
            let n = body.len();
            let m = n > *len;
            let d = length_detail(n, *len, m);
            AssertionResult { matched: m, detail: Some(d) }
        },
    }
}

// ---------------------------------------------------------------------------
// Block reasons
// ---------------------------------------------------------------------------

/// The reason a blocked answer is put down to: Cloudflare (status 403 or a
/// `cf-ray` header), a captcha page, rate limiting (status 429 or a
/// `retry-after` header), a firewall (status 406), else the status itself.
pub open spec fn block_reason_is(
    r: BlockReason,
    status: u16,
    body: Seq<char>,
    headers: Seq<(String, String)>,
) -> bool {
    let cloudflare = status == 403 || header_present(headers, "cf-ray"@);
    let captcha = contains_spec(body, "captcha"@) || contains_spec(body, "CAPTCHA"@)
        || contains_spec(body, "robot"@);
    let rate_limit = status == 429 || header_present(headers, "retry-after"@);
    let waf = status == 403 || status == 406;
    match r {
        BlockReason::Cloudflare => cloudflare,
        BlockReason::Captcha => !cloudflare && captcha,
        BlockReason::RateLimit => !cloudflare && !captcha && rate_limit,
        BlockReason::Waf => !cloudflare && !captcha && !rate_limit && waf,
        BlockReason::Other(t) => !cloudflare && !captcha && !rate_limit && !waf && t@ == "status="@
            + decimal_spec(status as nat),
    }
}

/// Puts a blocked answer down to a cause.
pub fn detect_block_reason(status: u16, body: &str, headers: &Vec<(String, String)>) -> (r:
    BlockReason)
    ensures
        block_reason_is(r, status, body@, headers@),
{
    if status == 403 || has_header(headers, "cf-ray") {
        return BlockReason::Cloudflare;
    }
    if contains(body, "captcha") || contains(body, "CAPTCHA") || contains(body, "robot") {
        return BlockReason::Captcha;
    }
    if status == 429 || has_header(headers, "retry-after") {
        return BlockReason::RateLimit;
    }
    if status == 403 || status == 406 {
        return BlockReason::Waf;
    }
    let mut t = String::from_str("status=");
    push_str(&mut t, decimal(status as u64).as_str());
    BlockReason::Other(t)
}

// ---------------------------------------------------------------------------
// Decisions
// ---------------------------------------------------------------------------

/// The detail of the first assertion of `rules` that holds of the answer,
/// if one does.
pub open spec fn first_fired(
    rules: Seq<Assertion>,
    status: u16,
    body: Seq<char>,
    final_url: Seq<char>,
    headers: Seq<(String, String)>,
) -> Option<Seq<char>>
    decreases rules.len(),
{
    if rules.len() == 0 {
        None
    } else if assertion_spec(rules[0], status, body, final_url, headers).0 {
        Some(assertion_spec(rules[0], status, body, final_url, headers).1)
    } else {
        first_fired(rules.drop_first(), status, body, final_url, headers)
    }
}

proof fn lemma_first_fired_skip(
    rules: Seq<Assertion>,
    i: int,
    status: u16,
    body: Seq<char>,
    final_url: Seq<char>,
    headers: Seq<(String, String)>,
)
    requires
        0 <= i < rules.len(),
    ensures
        first_fired(rules.skip(i), status, body, final_url, headers) == if assertion_spec(
            rules[i],
            status,
            body,
            final_url,
            headers,
        ).0 {
            Some(assertion_spec(rules[i], status, body, final_url, headers).1)
        } else {
            first_fired(rules.skip(i + 1), status, body, final_url, headers)
        },
{
    assert(rules.skip(i).drop_first() =~= rules.skip(i + 1));
    assert(rules.skip(i)[0] == rules[i]);
}

/// When some assertion of a list holds of an answer, one of them fires.
proof fn lemma_holding_assertion_fires(
    rules: Seq<Assertion>,
    i: int,
    status: u16,
    body: Seq<char>,
    final_url: Seq<char>,
    headers: Seq<(String, String)>,
)
    requires
        0 <= i < rules.len(),
        assertion_spec(rules[i], status, body, final_url, headers).0,
    ensures
        first_fired(rules, status, body, final_url, headers) is Some,
    decreases rules.len(),
{
    if i > 0 && !assertion_spec(rules[0], status, body, final_url, headers).0 {
        assert(rules.drop_first()[i - 1] == rules[i]);
        lemma_holding_assertion_fires(rules.drop_first(), i - 1, status, body, final_url, headers);
    }
}

/// Runs the assertions of `rules` in order and gives the detail of the
/// first that holds.
fn first_firing(
    rules: &Vec<Assertion>,
    status: u16,
    body: &str,
    final_url: &str,
    headers: &Vec<(String, String)>,
) -> (r: Option<String>)
    ensures
        match r {
            None => first_fired(rules@, status, body@, final_url@, headers@) is None,
            Some(d) => first_fired(rules@, status, body@, final_url@, headers@) == Some(d@),
        },
{
    let mut i: usize = 0;
    proof {
        assert(rules@.skip(0) =~= rules@);
    }
    while i < rules.len()
        invariant
            i <= rules.len(),
            first_fired(rules@, status, body@, final_url@, headers@) == first_fired(
                rules@.skip(i as int),
                status,
                body@,
                final_url@,
                headers@,
            ),
        decreases rules.len() - i,
    {
        proof {
            lemma_first_fired_skip(rules@, i as int, status, body@, final_url@, headers@);
        }
        let res = evaluate_assertion(&rules[i], status, body, final_url, headers);
        if res.matched {
            return res.detail;
        }
        i = i + 1;
    }
    proof {
        assert(rules@.skip(i as int).len() == 0);
    }
    None
}

/// Bytes a character takes in UTF-8.
pub open spec fn utf8_width(c: char) -> int {
    let v = c as u32;
    if v <= 0x7F {
        1
    } else if v <= 0x7FF {
        2
    } else if v <= 0xFFFF {
        3
    } else {
        4
    }
}

/// The longest prefix of a text whose UTF-8 encoding fits in `budget`
/// bytes: it ends on a character boundary.
pub open spec fn prefix_within(s: Seq<char>, budget: int) -> Seq<char>
    decreases s.len(),
{
    if s.len() == 0 || utf8_width(s[0]) > budget {
        Seq::empty()
    } else {
        seq![s[0]] + prefix_within(s.drop_first(), budget - utf8_width(s[0]))
    }
}

/// The preview of a body: its longest prefix of at most 256 bytes, cut on
/// a character boundary.
pub open spec fn preview_of(body: Seq<char>) -> Seq<char> {
    prefix_within(body, 256)
}

/// A character's UTF-8 encoding has `utf8_width` bytes.
pub proof fn lemma_char_width(c: char)
    ensures
        vstd::utf8::encode_scalar(c as u32).len() == utf8_width(c),
{
    vstd::utf8::char_is_scalar(c);
}

/// The encoding of a text is as long as the widths of its characters.
proof fn lemma_encode_prefix(s: Seq<char>)
    ensures
        s.len() > 0 ==> vstd::utf8::encode_utf8(s).len() == utf8_width(s[0]) + vstd::utf8::encode_utf8(s.drop_first()).len(),
{
    if s.len() > 0 {
        lemma_char_width(s[0]);
    }
}

/// What a prefix within a budget is: a prefix of the text, encoded in at
/// most `budget` bytes, and the whole text when that fits.
pub proof fn lemma_prefix_within(s: Seq<char>, budget: int)
    requires
        budget >= 0,
    ensures
        prefix_within(s, budget).len() <= s.len(),
        prefix_within(s, budget) == s.take(prefix_within(s, budget).len() as int),
        vstd::utf8::encode_utf8(prefix_within(s, budget)).len() <= budget,
        vstd::utf8::encode_utf8(s).len() <= budget ==> prefix_within(s, budget) == s,
    decreases s.len(),
{
    lemma_encode_prefix(s);
    if s.len() == 0 {
    } else if utf8_width(s[0]) > budget {
        assert(vstd::utf8::encode_utf8(s).len() > budget) by {
            assert(vstd::utf8::encode_utf8(s.drop_first()).len() >= 0);
        }
        assert(s.take(0) =~= Seq::<char>::empty());
    } else {
        let t = s.drop_first();
        let b = budget - utf8_width(s[0]);
        lemma_prefix_within(t, b);
        let p = prefix_within(t, b);
        lemma_encode_prefix(seq![s[0]] + p);
        assert((seq![s[0]] + p).drop_first() =~= p);
        assert(seq![s[0]] + p =~= s.take(p.len() as int + 1)) by {
            assert forall|k: int| 0 <= k < p.len() + 1 implies #[trigger] (seq![s[0]] + p)[k] == s[k] by {
                if k > 0 {
                    assert(p[k - 1] == t.take(p.len() as int)[k - 1]);
                }
            }
        }
        if vstd::utf8::encode_utf8(s).len() <= budget {
            assert(seq![s[0]] + t =~= s);
        }
    }
}

/// The preview keeps at most 256 bytes of the body, from its start, and
/// all of a body that fits.
pub proof fn lemma_preview(body: Seq<char>)
    ensures
        preview_of(body) == body.take(preview_of(body).len() as int),
        preview_of(body).len() <= body.len(),
        byte_len(preview_of(body)) <= 256,
        vstd::utf8::encode_utf8(body).len() <= 256 ==> preview_of(body) == body,
{
    lemma_prefix_within(body, 256);
}

fn char_width(c: char) -> (w: usize)
    ensures
        w == utf8_width(c),
{
    let v = c as u32;
    if v <= 0x7F {
        1
    } else if v <= 0x7FF {
        2
    } else if v <= 0xFFFF {
        3
    } else {
        4
    }
}

fn preview(body: &str) -> (r: String)
    ensures
        r@ == preview_of(body@),
{
    let v = chars_of(body);
    let mut out: Vec<char> = Vec::new();
    let mut budget: usize = 256;
    let mut i: usize = 0;
    proof {
        assert(v@.skip(0) =~= v@);
        assert(v@.take(0) + prefix_within(v@.skip(0), 256) =~= prefix_within(v@, 256));
    }
    while i < v.len()
        invariant_except_break
            i <= v.len(),
            budget <= 256,
            out@ == v@.take(i as int),
            v@.take(i as int) + prefix_within(v@.skip(i as int), budget as int) == prefix_within(v@, 256),
        ensures
            out@ == prefix_within(v@, 256),
        decreases v.len() - i,
    {
        let w = char_width(v[i]);
        let ghost rest = v@.skip(i as int);
        proof {
            assert(rest[0] == v@[i as int]);
        }
        if w > budget {
            proof {
                assert(prefix_within(rest, budget as int) =~= Seq::<char>::empty());
                assert(v@.take(i as int) + Seq::<char>::empty() =~= v@.take(i as int));
            }
            break;
        }
        proof {
            assert(rest.drop_first() =~= v@.skip(i as int + 1));
            assert(v@.take(i as int + 1) =~= v@.take(i as int) + seq![v@[i as int]]);
            assert(v@.take(i as int) + (seq![v@[i as int]] + prefix_within(v@.skip(i as int + 1), budget - w))
                =~= v@.take(i as int + 1) + prefix_within(v@.skip(i as int + 1), budget - w));
        }
        out.push(v[i]);
        budget = budget - w;
        i = i + 1;
        proof {
            assert(out@ =~= v@.take(i as int));
            if i == v.len() {
                assert(v@.skip(i as int) =~= Seq::<char>::empty());
                assert(v@.take(i as int) + Seq::<char>::empty() =~= v@.take(i as int));
            }
        }
    }
    proof {
        if i == v.len() {
            assert(v@.skip(i as int) =~= Seq::<char>::empty());
            assert(v@.take(i as int) + Seq::<char>::empty() =~= v@.take(i as int));
        }
    }
    string_of(&out)
}

/// The reason given when no rule fires.
pub open spec fn undecided_reason(status: u16, body: Seq<char>) -> Seq<char> {
    "aucune règle déclenchée (status="@ + decimal_spec(status as nat) + ", body_len="@
        + decimal_spec(byte_len(body)) + ")"@
}

/// The outcome the rules give an answer, the time of the request aside: the
/// first rule set with an assertion that holds decides, blocked before
/// exists before missing; when none does, the answer is undecided.
pub open spec fn decision_is(
    o: ProbeOutcome,
    rules: DecisionRules,
    status: u16,
    body: Seq<char>,
    final_url: Seq<char>,
    headers: Seq<(String, String)>,
) -> bool {
    let blocked = first_fired(rules.blocked_if@, status, body, final_url, headers);
    let exists = first_fired(rules.exists_if@, status, body, final_url, headers);
    let missing = first_fired(rules.missing_if@, status, body, final_url, headers);
    if blocked is Some {
        o matches ProbeOutcome::Blocked { reason } && block_reason_is(reason, status, body, headers)
    } else if exists is Some {
        &&& o matches ProbeOutcome::Exists { evidence, extracted }
        &&& extracted@.len() == 0
        &&& evidence.triggered_assertion matches Some(t)
        &&& exists == Some(t@)
        &&& evidence.status_code == status
        &&& evidence.final_url@ == final_url
        &&& evidence.body_hash@ == blake3_hex(vstd::utf8::encode_utf8(body))
        &&& evidence.body_preview matches Some(p)
        &&& p@ == preview_of(body)
    } else if missing is Some {
        o is Missing
    } else {
        o matches ProbeOutcome::Indeterminate { reason } && reason@ == undecided_reason(status, body)
    }
}

/// Applies the decision rules to an answer received at `timestamp`.
pub fn evaluate_decision_at(
    rules: &DecisionRules,
    status: u16,
    body: &str,
    final_url: &str,
    headers: &Vec<(String, String)>,
    timestamp: String,
) -> (r: ProbeOutcome)
    ensures
        decision_is(r, *rules, status, body@, final_url@, headers@),
        r matches ProbeOutcome::Exists { evidence, .. } ==> evidence.timestamp == timestamp,
{
    if first_firing(&rules.blocked_if, status, body, final_url, headers).is_some() {
        return ProbeOutcome::Blocked { reason: detect_block_reason(status, body, headers) };
    }
    match first_firing(&rules.exists_if, status, body, final_url, headers) {
        Some(detail) => {
            let bytes = body.as_bytes();
            let evidence = Evidence {
                triggered_assertion: Some(detail),
                status_code: status,
                final_url: String::from_str(final_url),
                body_hash: blake3_hash_hex(bytes),
                body_preview: Some(preview(body)),
                timestamp,
            };
            return ProbeOutcome::Exists { evidence, extracted: Vec::new() };
        },
        None => {},
    }
    if first_firing(&rules.missing_if, status, body, final_url, headers).is_some() {
        return ProbeOutcome::Missing;
    }
    let mut reason = String::from_str("aucune règle déclenchée (status=");
    push_str(&mut reason, decimal(status as u64).as_str());
    push_str(&mut reason, ", body_len=");
    push_str(&mut reason, decimal(body.len() as u64).as_str());
    push_str(&mut reason, ")");
    ProbeOutcome::Indeterminate { reason }
}

/// Applies the decision rules to an answer just received; the evidence of
/// an existing account is stamped with the current time.
pub fn evaluate_decision(
    rules: &DecisionRules,
    status: u16,
    body: &str,
    final_url: &str,
    headers: &Vec<(String, String)>,
) -> (r: ProbeOutcome)
    ensures
        decision_is(r, *rules, status, body@, final_url@, headers@),
{
    evaluate_decision_at(rules, status, body, final_url, headers, now_rfc3339())
}

/// Law: blocked rules come first. Whenever one assertion of `blocked_if`
/// holds of an answer, the outcome decided for it is `Blocked`, whatever
/// `exists_if` and `missing_if` say; and when none does, it is not.
pub proof fn law_blocked_takes_precedence(
    o: ProbeOutcome,
    rules: DecisionRules,
    status: u16,
    body: Seq<char>,
    final_url: Seq<char>,
    headers: Seq<(String, String)>,
)
    requires
        decision_is(o, rules, status, body, final_url, headers),
    ensures
        (exists|i: int|
            0 <= i < rules.blocked_if@.len() && #[trigger] assertion_spec(rules.blocked_if@[i], status, body, final_url, headers).0)
            <==> o is Blocked,
{
    if exists|i: int|
        0 <= i < rules.blocked_if@.len() && #[trigger] assertion_spec(rules.blocked_if@[i], status, body, final_url, headers).0 {
        let i = choose|i: int|
            0 <= i < rules.blocked_if@.len() && #[trigger] assertion_spec(rules.blocked_if@[i], status, body, final_url, headers).0;
        lemma_holding_assertion_fires(rules.blocked_if@, i, status, body, final_url, headers);
    } else {
        lemma_fired_holds(rules.blocked_if@, status, body, final_url, headers);
    }
}

/// When an assertion of a list fires, it holds.
proof fn lemma_fired_holds(
    rules: Seq<Assertion>,
    status: u16,
    body: Seq<char>,
    final_url: Seq<char>,
    headers: Seq<(String, String)>,
)
    ensures
        first_fired(rules, status, body, final_url, headers) is Some ==> exists|i: int|
            0 <= i < rules.len() && #[trigger] assertion_spec(rules[i], status, body, final_url, headers).0,
    decreases rules.len(),
{
    if rules.len() > 0 {
        if assertion_spec(rules[0], status, body, final_url, headers).0 {
        } else {
            lemma_fired_holds(rules.drop_first(), status, body, final_url, headers);
            if first_fired(rules, status, body, final_url, headers) is Some {
                let k = choose|k: int|
                    0 <= k < rules.drop_first().len() && #[trigger] assertion_spec(rules.drop_first()[k], status, body, final_url, headers).0;
                assert(rules[k + 1] == rules.drop_first()[k]);
            }
        }
    }
}

} // verus!
