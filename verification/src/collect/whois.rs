//! WHOIS transform: registry server choice and reading of the answer.

use vstd::prelude::*;
use crate::entity::{
    AdmiraltyCode, EntityKind, InformationCredibility, Observation, PropertyValue, Provenance,
    SourceReliability,
};
use crate::text::{
    ends_with, ends_with_spec, lowercase, push_char, push_str, starts_with, starts_with_spec,
    string_of, to_lowercase, trim, trimmed,
};
use crate::transform::{TransformInput, TransformOutput};

verus! {

/// The WHOIS server of a domain, by its top-level domain.
pub open spec fn whois_server_spec(d: Seq<char>) -> Seq<char> {
    if ends_with_spec(d, ".com"@) || ends_with_spec(d, ".net"@) {
        "whois.verisign-grs.com"@
    } else if ends_with_spec(d, ".org"@) {
        "whois.publicinterestregistry.net"@
    } else if ends_with_spec(d, ".fr"@) {
        "whois.nic.fr"@
    } else if ends_with_spec(d, ".de"@) {
        "whois.denic.de"@
    } else if ends_with_spec(d, ".uk"@) {
        "whois.nic.uk"@
    } else if ends_with_spec(d, ".io"@) {
        "whois.nic.io"@
    } else {
        "whois.iana.org"@
    }
}

/// Drops one trailing carriage return.
pub open spec fn strip_cr(s: Seq<char>) -> Seq<char> {
    if s.len() > 0 && s.last() == '\r' {
        s.drop_last()
    } else {
        s
    }
}

/// Index of the first `c` in `s`, if any.
pub open spec fn first_index(s: Seq<char>, c: char) -> Option<int> {
    if exists|i: int| 0 <= i < s.len() && s[i] == c {
        Some(choose|i: int| 0 <= i < s.len() && s[i] == c && forall|k: int| 0 <= k < i ==> s[k] != c)
    } else {
        None
    }
}

/// The lines of a text, as `str::lines` gives them: split after each
/// `\n`, which is dropped with a `\r` just before it; no line after a final
/// `\n`.
pub closed spec fn lines_spec(s: Seq<char>) -> Seq<Seq<char>>
    decreases s.len(),
{
    if s.len() == 0 {
        Seq::empty()
    } else {
        match first_index(s, '\n') {
            Some(i) => if 0 <= i < s.len() {
                seq![strip_cr(s.take(i))] + lines_spec(s.skip(i + 1))
            } else {
                seq![s]
            },
            None => seq![s],
        }
    }
}

/// An empty text has no line.
pub proof fn lemma_no_lines(s: Seq<char>)
    requires
        s.len() == 0,
    ensures
        lines_spec(s) == Seq::<Seq<char>>::empty(),
{
}

/// What follows the first `:` of a line (nothing if there is none).
pub open spec fn after_colon(s: Seq<char>) -> Seq<char> {
    match first_index(s, ':') {
        Some(i) => s.skip(i + 1),
        None => Seq::empty(),
    }
}

/// The fields read from a WHOIS answer.
#[derive(Debug, Clone)]
pub struct WhoisFields {
    pub registrar: Option<String>,
    pub creation_date: Option<String>,
    pub expiry_date: Option<String>,
}

/// A lower-cased line announces the registrar.
pub open spec fn is_registrar_line(lower: Seq<char>) -> bool {
    starts_with_spec(lower, "registrar:"@)
}

/// A lower-cased line announces the creation date.
pub open spec fn is_creation_line(lower: Seq<char>) -> bool {
    starts_with_spec(lower, "creation date:"@) || starts_with_spec(lower, "created:"@)
}

/// A lower-cased line announces the expiry date.
pub open spec fn is_expiry_line(lower: Seq<char>) -> bool {
    starts_with_spec(lower, "registry expiry date:"@) || starts_with_spec(lower, "expires:"@)
        || starts_with_spec(lower, "expiration date:"@)
}

/// The line announces field `f` (0 registrar, 1 creation, 2 expiry).
pub open spec fn announces(f: int, line: Seq<char>) -> bool {
    if f == 0 {
        is_registrar_line(lowercase(line))
    } else if f == 1 {
        is_creation_line(lowercase(line))
    } else {
        is_expiry_line(lowercase(line))
    }
}

/// The value of field `f`: the trimmed text after the colon of the first
/// line of `lines` that announces it.
pub open spec fn field_value(lines: Seq<Seq<char>>, f: int) -> Option<Seq<char>>
    decreases lines.len(),
{
    if lines.len() == 0 {
        None
    } else if announces(f, lines[0]) {
        Some(trimmed(after_colon(lines[0])))
    } else {
        field_value(lines.drop_first(), f)
    }
}

/// The option's text, if any.
pub open spec fn opt_view(o: Option<String>) -> Option<Seq<char>> {
    match o {
        Some(s) => Some(s@),
        None => None,
    }
}

/// Native WHOIS transform.
pub struct WhoisTransform;

fn first_colon_rest(line: &Vec<char>) -> (r: Vec<char>)
    ensures
        r@ == after_colon(line@),
{
    let mut i: usize = 0;
    while i < line.len()
        invariant
            i <= line.len(),
            forall|k: int| 0 <= k < i ==> line@[k] != ':',
        decreases line.len() - i,
    {
        if line[i] == ':' {
            let mut r: Vec<char> = Vec::new();
            let mut j: usize = i + 1;
            while j < line.len()
                invariant
                    i < line.len(),
                    i + 1 <= j <= line.len(),
                    r@ == line@.subrange(i + 1, j as int),
                decreases line.len() - j,
            {
                r.push(line[j]);
                j = j + 1;
                assert(r@ =~= line@.subrange(i + 1, j as int));
            }
            proof {
                let w = choose|w: int| 0 <= w < line@.len() && line@[w] == ':' && forall|k: int| 0 <= k < w ==> line@[k] != ':';
                assert(w == i) by {
                    if w < i {
                    } else if w > i {
                    }
                }
                assert(r@ =~= line@.skip(i + 1));
            }
            return r;
        }
        i = i + 1;
    }
    Vec::new()
}

impl WhoisTransform {
    pub fn new() -> (r: WhoisTransform)
        ensures
            r == WhoisTransform,
    {
        WhoisTransform
    }

    /// Identifier of the transform.
    pub fn id(&self) -> (r: &'static str)
        ensures
            r@ == "whois:lookup"@,
    {
        "whois:lookup"
    }

    /// Name shown to the analyst.
    pub fn display_name(&self) -> (r: &'static str)
        ensures
            r@ == "Requête WHOIS"@,
    {
        "Requête WHOIS"
    }

    /// Accepted input kinds.
    pub fn input_kinds(&self) -> (r: Vec<EntityKind>)
        ensures
            r@ == seq![EntityKind::Domain, EntityKind::IpAddress],
    {
        let mut v = Vec::new();
        v.push(EntityKind::Domain);
        v.push(EntityKind::IpAddress);
        assert(v@ =~= seq![EntityKind::Domain, EntityKind::IpAddress]);
        v
    }

    /// The WHOIS server to ask about a domain, by its top-level domain.
    pub fn guess_server(domain: &str) -> (r: &'static str)
        ensures
            r@ == whois_server_spec(domain@),
    {
        if ends_with(domain, ".com") || ends_with(domain, ".net") {
            "whois.verisign-grs.com"
        } else if ends_with(domain, ".org") {
            "whois.publicinterestregistry.net"
        } else if ends_with(domain, ".fr") {
            "whois.nic.fr"
        } else if ends_with(domain, ".de") {
            "whois.denic.de"
        } else if ends_with(domain, ".uk") {
            "whois.nic.uk"
        } else if ends_with(domain, ".io") {
            "whois.nic.io"
        } else {
            "whois.iana.org"
        }
    }
}


/// A lower-cased line starts with one of the creation prefixes of WHOIS
/// answers: `creation date:` (Verisign) or `created:` (AFNIC, RIPE).
pub open spec fn starts_creation(line: Seq<char>) -> bool {
    starts_with_spec(lowercase(line), "creation date:"@) || starts_with_spec(lowercase(line), "created:"@)
}

/// Law: the creation date is read from the first line that starts (in any
/// case) with `creation date:` or `created:`: it is the trimmed text after
/// that line's colon; with no such line there is none.
pub proof fn law_creation_date_from_first_created_line(lines: Seq<Seq<char>>, i: int)
    requires
        0 <= i < lines.len(),
        forall|j: int| 0 <= j < i ==> !starts_creation(#[trigger] lines[j]),
    ensures
        starts_creation(lines[i]) ==> field_value(lines, 1) == Some(trimmed(after_colon(lines[i]))),
        (forall|j: int| 0 <= j < lines.len() ==> !starts_creation(#[trigger] lines[j])) ==> field_value(lines, 1) is None,
    decreases i,
{
    if i > 0 {
        assert forall|j: int| 0 <= j < i - 1 implies !starts_creation(#[trigger] lines.drop_first()[j]) by {
            assert(lines.drop_first()[j] == lines[j + 1]);
        }
        assert(lines.drop_first()[i - 1] == lines[i]);
        assert(!starts_creation(lines[0]));
        law_creation_date_from_first_created_line(lines.drop_first(), i - 1);
        if forall|j: int| 0 <= j < lines.len() ==> !starts_creation(#[trigger] lines[j]) {
            assert forall|j: int| 0 <= j < lines.drop_first().len() implies !starts_creation(#[trigger] lines.drop_first()[j]) by {
                assert(lines.drop_first()[j] == lines[j + 1]);
            }
        }
    } else {
        if forall|j: int| 0 <= j < lines.len() ==> !starts_creation(#[trigger] lines[j]) {
            lemma_no_creation_line(lines);
        }
    }
}

proof fn lemma_no_creation_line(lines: Seq<Seq<char>>)
    requires
        forall|j: int| 0 <= j < lines.len() ==> !starts_creation(#[trigger] lines[j]),
    ensures
        field_value(lines, 1) is None,
    decreases lines.len(),
{
    if lines.len() > 0 {
        assert(!starts_creation(lines[0]));
        assert forall|j: int| 0 <= j < lines.drop_first().len() implies !starts_creation(#[trigger] lines.drop_first()[j]) by {
            assert(lines.drop_first()[j] == lines[j + 1]);
        }
        lemma_no_creation_line(lines.drop_first());
    }
}

proof fn lemma_field_value_push(done: Seq<Seq<char>>, line: Seq<char>, f: int)
    ensures
        field_value(done.push(line), f) == match field_value(done, f) {
            Some(v) => Some(v),
            None => if announces(f, line) {
                Some(trimmed(after_colon(line)))
            } else {
                None
            },
        },
    decreases done.len(),
{
    if done.len() == 0 {
        assert(done.push(line) =~= seq![line]);
        assert(seq![line].drop_first() =~= Seq::<Seq<char>>::empty());
    } else {
        assert(done.push(line).drop_first() =~= done.drop_first().push(line));
        lemma_field_value_push(done.drop_first(), line, f);
    }
}

fn update_field(field: &mut Option<String>, announced: bool, line: &Vec<char>, ghost_done: Ghost<Seq<Seq<char>>>, f: Ghost<int>)
    requires
        opt_view(*old(field)) == field_value(ghost_done@, f@),
        announced == announces(f@, line@),
    ensures
        opt_view(*final(field)) == field_value(ghost_done@.push(line@), f@),
{
    proof {
        lemma_field_value_push(ghost_done@, line@, f@);
    }
    if field.is_none() && announced {
        let rest = first_colon_rest(line);
        let rest_s = string_of(&rest);
        let v = trim(rest_s.as_str());
        *field = Some(v);
    }
}

pub(crate) fn next_line(chars: &Vec<char>, p: usize) -> (r: (Vec<char>, usize))
    requires
        p < chars.len(),
    ensures
        p < r.1 <= chars.len(),
        lines_spec(chars@.skip(p as int)) == seq![r.0@] + lines_spec(chars@.skip(r.1 as int)),
{
    let n = chars.len();
    let ghost rest = chars@.skip(p as int);
    let mut q: usize = p;
    while q < n && chars[q] != '\n'
        invariant
            n == chars@.len(),
            p <= q <= n,
            forall|k: int| p <= k < q ==> chars@[k] != '\n',
        decreases n - q,
    {
        q = q + 1;
    }
    let mut line: Vec<char> = Vec::new();
    let mut k: usize = p;
    while k < q
        invariant
            n == chars@.len(),
            p <= k <= q <= n,
            line@ == chars@.subrange(p as int, k as int),
        decreases q - k,
    {
        line.push(chars[k]);
        k = k + 1;
        assert(line@ =~= chars@.subrange(p as int, k as int));
    }
    let found = q < n;
    if found && line.len() > 0 && line[line.len() - 1] == '\r' {
        line.pop();
    }
    proof {
        assert(rest.len() > 0);
        if found {
            let i = (q - p) as int;
            assert(rest[i] == '\n');
            assert(exists|w: int| 0 <= w < rest.len() && rest[w] == '\n');
            let w = choose|w: int| 0 <= w < rest.len() && rest[w] == '\n' && forall|k2: int| 0 <= k2 < w ==> rest[k2] != '\n';
            assert(w == i) by {
                if w < i {
                    assert(chars@[p + w] != '\n');
                } else if w > i {
                }
            }
            assert(first_index(rest, '\n') == Some(i));
            assert(rest.take(i) =~= chars@.subrange(p as int, q as int));
            assert(rest.skip(i + 1) =~= chars@.skip(q + 1));
            assert(line@ =~= strip_cr(rest.take(i)));
            assert(lines_spec(rest) == seq![line@] + lines_spec(chars@.skip(q + 1)));
        } else {
            assert forall|w: int| 0 <= w < rest.len() implies rest[w] != '\n' by {
                assert(rest[w] == chars@[p + w]);
            }
            assert(first_index(rest, '\n') is None);
            assert(line@ =~= rest);
            assert(lines_spec(rest) == seq![line@]);
            assert(chars@.skip(n as int) =~= Seq::<char>::empty());
            assert(lines_spec(chars@.skip(n as int)) =~= Seq::<Seq<char>>::empty());
            assert(seq![line@] + lines_spec(chars@.skip(n as int)) =~= seq![line@]);
        }
    }
    if found {
        (line, q + 1)
    } else {
        (line, n)
    }
}

/// Reads the registrar, creation and expiry dates from a WHOIS answer: for
/// each, the trimmed text after the colon of the first line that announces
/// it (case ignored).
pub fn parse_whois(raw: &str) -> (r: WhoisFields)
    ensures
        opt_view(r.registrar) == field_value(lines_spec(raw@), 0),
        opt_view(r.creation_date) == field_value(lines_spec(raw@), 1),
        opt_view(r.expiry_date) == field_value(lines_spec(raw@), 2),
{
    let chars = crate::text::chars_of(raw);
    let n = chars.len();
    let mut registrar: Option<String> = None;
    let mut creation_date: Option<String> = None;
    let mut expiry_date: Option<String> = None;
    let ghost mut done: Seq<Seq<char>> = Seq::empty();
    let mut p: usize = 0;
    assert(raw@.skip(0) =~= raw@);
    assert(done + lines_spec(raw@) =~= lines_spec(raw@));
    while p < n
        invariant
            n == chars@.len(),
            chars@ == raw@,
            p <= n,
            lines_spec(raw@) == done + lines_spec(raw@.skip(p as int)),
            opt_view(registrar) == field_value(done, 0),
            opt_view(creation_date) == field_value(done, 1),
            opt_view(expiry_date) == field_value(done, 2),
        decreases n - p,
    {
        let (line, next) = next_line(&chars, p);
        let line_s = string_of(&line);
        let lower = to_lowercase(line_s.as_str());
        let is_reg = starts_with(lower.as_str(), "registrar:");
        let is_cre = starts_with(lower.as_str(), "creation date:") || starts_with(lower.as_str(), "created:");
        let is_exp = starts_with(lower.as_str(), "registry expiry date:") || starts_with(lower.as_str(), "expires:")
            || starts_with(lower.as_str(), "expiration date:");
        update_field(&mut registrar, is_reg, &line, Ghost(done), Ghost(0));
        update_field(&mut creation_date, is_cre, &line, Ghost(done), Ghost(1));
        update_field(&mut expiry_date, is_exp, &line, Ghost(done), Ghost(2));
        proof {
            let old_done = done;
            done = done.push(line@);
            assert(done + lines_spec(raw@.skip(next as int)) =~= old_done + (seq![line@] + lines_spec(raw@.skip(next as int))));
        }
        p = next;
    }
    proof {
        assert(raw@.skip(p as int) =~= Seq::<char>::empty());
        assert(done + lines_spec(raw@.skip(p as int)) =~= done);
    }
    WhoisFields { registrar, creation_date, expiry_date }
}

/// The observations the WHOIS transform makes of the fields it read, in the
/// order registrar, creation date, expiry date, each only when present.
pub fn whois_output(input: &TransformInput, fields: WhoisFields, now: String) -> (r: TransformOutput)
    ensures
        r.entities@.len() == 0,
        r.relations@.len() == 0,
        r.observations@.len() == (if fields.registrar is Some { 1int } else { 0 }) + (
        if fields.creation_date is Some { 1int } else { 0 }) + (if fields.expiry_date is Some {
            1int
        } else {
            0
        }),
        forall|i: int|
            0 <= i < r.observations@.len() ==> {
                let o = #[trigger] r.observations@[i];
                &&& o.subject@ == input.entity.id@
                &&& o.source@ == "whois:lookup"@
                &&& o.method@ == "WHOIS_TCP"@
                &&& o.observed_at@ == now@
                &&& o.provenance == Provenance::Collected
                &&& o.confidence == (AdmiraltyCode {
                    source_reliability: SourceReliability::C,
                    information_credibility: InformationCredibility::V3,
                })
            },
        fields.registrar matches Some(v) ==> {
            let o = r.observations@[0];
            &&& o.id@ == "obs-whois-registrar-"@ + input.entity.canonical_value@
            &&& o.predicate@ == "whois_registrar"@
            &&& o.value matches PropertyValue::String(s) && s@ == v@
        },
        fields.creation_date matches Some(v) ==> {
            let o = r.observations@[if fields.registrar is Some { 1int } else { 0 }];
            &&& o.id@ == "obs-whois-created-"@ + input.entity.canonical_value@
            &&& o.predicate@ == "whois_creation_date"@
            &&& o.value matches PropertyValue::String(s) && s@ == v@
        },
        fields.expiry_date matches Some(v) ==> {
            let o = r.observations@[r.observations@.len() - 1];
            &&& o.id@ == "obs-whois-expiry-"@ + input.entity.canonical_value@
            &&& o.predicate@ == "whois_expiry_date"@
            &&& o.value matches PropertyValue::String(s) && s@ == v@
        },
{
    let query = &input.entity.canonical_value;
    let mut out = TransformOutput::empty();
    let ghost fr = fields.registrar;
    let ghost fc = fields.creation_date;
    if let Some(v) = fields.registrar {
        out.observations.push(whois_observation(input, "obs-whois-registrar-", "whois_registrar", v, &now));
    }
    if let Some(v) = fields.creation_date {
        out.observations.push(whois_observation(input, "obs-whois-created-", "whois_creation_date", v, &now));
    }
    if let Some(v) = fields.expiry_date {
        out.observations.push(whois_observation(input, "obs-whois-expiry-", "whois_expiry_date", v, &now));
    }
    out
}

fn whois_observation(input: &TransformInput, id_prefix: &str, predicate: &str, value: String, now: &String) -> (o: Observation)
    ensures
        o.id@ == id_prefix@ + input.entity.canonical_value@,
        o.predicate@ == predicate@,
        o.value matches PropertyValue::String(s) && s@ == value@,
        o.subject@ == input.entity.id@,
        o.source@ == "whois:lookup"@,
        o.method@ == "WHOIS_TCP"@,
        o.observed_at@ == now@,
        o.provenance == Provenance::Collected,
        o.confidence == (AdmiraltyCode {
            source_reliability: SourceReliability::C,
            information_credibility: InformationCredibility::V3,
        }),
{
    let mut id = String::from_str(id_prefix);
    push_str(&mut id, input.entity.canonical_value.as_str());
    Observation {
        id,
        subject: input.entity.id.clone(),
        predicate: String::from_str(predicate),
        value: PropertyValue::String(value),
        source: String::from_str("whois:lookup"),
        method: String::from_str("WHOIS_TCP"),
        observed_at: now.clone(),
        valid_from: None,
        valid_to: None,
        confidence: AdmiraltyCode {
            source_reliability: SourceReliability::C,
            information_credibility: InformationCredibility::V3,
        },
        provenance: Provenance::Collected,
        raw_hash: None,
        operator: String::from_str("SPECTRA"),
    }
}

} // verus!
