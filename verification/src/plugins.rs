//! WASM plugins: manifests, the network policy the host applies, signature
//! checking at installation, and the registry of installed plugins.
//!
//! Every network access of a plugin goes through the host, which refuses
//! any domain outside the plugin's allowlist; only plugins signed with the
//! expected Ed25519 key are installed.

use vstd::prelude::*;
use ed25519_dalek::Verifier;
use crate::entity::EntityKind;
use crate::text::{chars_of, lowercase, push_str, starts_with_spec, string_of, to_lowercase};
use crate::transform::{TransformError, list_contains, views};

verus! {

// ---------------------------------------------------------------------------
// Manifests
// ---------------------------------------------------------------------------

/// Identification of a plugin.
#[derive(Debug, Clone)]
pub struct Meta {
    /// Unique identifier (also the plugin's folder name).
    pub id: String,
    pub name: String,
    pub version: String,
    pub author: String,
    pub license: String,
}

/// A transform a plugin offers.
#[derive(Debug, Clone)]
pub struct TransformSpec {
    pub id: String,
    pub name: String,
    pub description: String,
    pub input_kinds: Vec<EntityKind>,
    pub output_kinds: Vec<EntityKind>,
}

/// Network permissions declared by the manifest and enforced by the host.
#[derive(Debug, Clone)]
pub struct NetworkPermissions {
    /// Reachable domains; any other is refused.
    pub allowlist: Vec<String>,
    pub max_requests_per_run: usize,
    pub max_response_bytes: usize,
}

/// Permissions a plugin asks for.
#[derive(Debug, Clone)]
pub struct Permissions {
    pub network: NetworkPermissions,
}

/// Manifest of a WASM plugin.
#[derive(Debug, Clone)]
pub struct PluginManifest {
    pub meta: Meta,
    pub transforms: Vec<TransformSpec>,
    pub permissions: Permissions,
    /// Expected Ed25519 public key (64 hexadecimal characters).
    pub expected_public_key: Option<String>,
}

impl PluginManifest {
    /// The domain is on the allowlist.
    pub fn allows_domain(&self, domain: &str) -> (r: bool)
        ensures
            r == views(self.permissions.network.allowlist@).contains(domain@),
    {
        list_contains(&self.permissions.network.allowlist, domain)
    }
}

// ---------------------------------------------------------------------------
// Network policy
// ---------------------------------------------------------------------------

/// The network policy the host functions apply.
#[derive(Debug, Clone)]
pub struct NetworkPolicy {
    /// Allowed domains, from the plugin's manifest.
    pub allowlist: Vec<String>,
    pub max_requests_per_run: usize,
    pub max_response_bytes: usize,
    pub timeout_seconds: u64,
}

impl NetworkPolicy {
    /// Accepts a domain of the allowlist, refuses any other.
    pub fn check_domain(&self, domain: &str) -> (r: Result<(), TransformError>)
        ensures
            r is Ok <==> views(self.allowlist@).contains(domain@),
            r matches Err(e) ==> e matches TransformError::SandboxViolation(m) && m@ == "domaine '"@ + domain@
                + "' hors allowlist"@,
    {
        if list_contains(&self.allowlist, domain) {
            Ok(())
        } else {
            let mut m = String::from_str("domaine '");
            push_str(&mut m, domain);
            push_str(&mut m, "' hors allowlist");
            Err(TransformError::SandboxViolation(m))
        }
    }
}

/// `s` without any number of leading copies of `p`.
pub open spec fn strip_prefixes(s: Seq<char>, p: Seq<char>) -> Seq<char>
    decreases s.len(),
{
    if p.len() > 0 && starts_with_spec(s, p) {
        strip_prefixes(s.skip(p.len() as int), p)
    } else {
        s
    }
}

/// `s` up to the first `c` (all of it when there is none).
pub open spec fn before_char(s: Seq<char>, c: char) -> Seq<char>
    decreases s.len(),
{
    if s.len() == 0 {
        s
    } else if s[0] == c {
        Seq::empty()
    } else {
        seq![s[0]] + before_char(s.drop_first(), c)
    }
}

/// The domain of a URL: without its `http://` and `https://` prefixes,
/// cut at the first `/`, then at the first `:`, in lower case.
pub open spec fn domain_of(url: Seq<char>) -> Seq<char> {
    lowercase(before_char(before_char(strip_prefixes(strip_prefixes(url, "http://"@), "https://"@), '/'), ':'))
}

fn strip_all(s: Vec<char>, p: &Vec<char>) -> (r: Vec<char>)
    requires
        p@.len() > 0,
    ensures
        r@ == strip_prefixes(s@, p@),
    decreases s@.len(),
{
    if p.len() <= s.len() {
        let mut i: usize = 0;
        while i < p.len()
            invariant
                i <= p.len() <= s.len(),
                forall|k: int| 0 <= k < i ==> s@[k] == p@[k],
            decreases p.len() - i,
        {
            if s[i] != p[i] {
                assert(s@.subrange(0, p@.len() as int)[i as int] != p@[i as int]);
                return s;
            }
            i = i + 1;
        }
        assert(s@.subrange(0, p@.len() as int) =~= p@);
        let mut rest: Vec<char> = Vec::new();
        let mut k: usize = p.len();
        while k < s.len()
            invariant
                p.len() <= k <= s.len(),
                rest@ == s@.subrange(p@.len() as int, k as int),
            decreases s.len() - k,
        {
            rest.push(s[k]);
            k = k + 1;
            assert(rest@ =~= s@.subrange(p@.len() as int, k as int));
        }
        assert(rest@ =~= s@.skip(p@.len() as int));
        strip_all(rest, p)
    } else {
        s
    }
}

fn cut_at(s: &Vec<char>, c: char) -> (r: Vec<char>)
    ensures
        r@ == before_char(s@, c),
{
    let mut i: usize = 0;
    while i < s.len() && s[i] != c
        invariant
            i <= s.len(),
            forall|k: int| 0 <= k < i ==> s@[k] != c,
        decreases s.len() - i,
    {
        i = i + 1;
    }
    let mut out: Vec<char> = Vec::new();
    let mut k: usize = 0;
    while k < i
        invariant
            k <= i <= s.len(),
            out@ == s@.take(k as int),
        decreases i - k,
    {
        out.push(s[k]);
        k = k + 1;
        assert(out@ =~= s@.take(k as int));
    }
    proof {
        lemma_before_char(s@, c, i as int);
    }
    out
}

proof fn lemma_before_char(s: Seq<char>, c: char, i: int)
    requires
        0 <= i <= s.len(),
        forall|k: int| 0 <= k < i ==> s[k] != c,
        i < s.len() ==> s[i] == c,
    ensures
        before_char(s, c) == s.take(i),
    decreases s.len(),
{
    if s.len() == 0 {
        assert(s.take(i) =~= s);
    } else if i == 0 {
        assert(s.take(0) =~= Seq::<char>::empty());
    } else {
        lemma_before_char(s.drop_first(), c, i - 1);
        assert(seq![s[0]] + s.drop_first().take(i - 1) =~= s.take(i));
    }
}

/// The domain a URL points to.
pub fn extract_domain(url: &str) -> (r: String)
    ensures
        r@ == domain_of(url@),
{
    let http = chars_of("http://");
    let https = chars_of("https://");
    proof {
        reveal_strlit("http://");
        reveal_strlit("https://");
    }
    let a = strip_all(chars_of(url), &http);
    let b = strip_all(a, &https);
    let c = cut_at(&b, '/');
    let d = cut_at(&c, ':');
    let s = string_of(&d);
    to_lowercase(s.as_str())
}

/// What the host's `spectra_http_get` answers a plugin: the request is
/// allowed only for a domain of the allowlist.
pub open spec fn host_http_get_spec(allowlist: Seq<String>, url: Seq<char>) -> Result<Seq<char>, Seq<char>> {
    if views(allowlist).contains(domain_of(url)) {
        Ok("HTTP 200 OK "@ + url)
    } else {
        Err("sandbox violation: domain '"@ + domain_of(url) + "' not in allowlist"@)
    }
}

/// The host function `spectra_http_get`: refuses a URL whose domain is off
/// the allowlist; answers an allowed one.
pub fn host_http_get(allowlist: &Vec<String>, url: &str) -> (r: Result<String, String>)
    ensures
        match r {
            Ok(t) => host_http_get_spec(allowlist@, url@) == Ok::<Seq<char>, Seq<char>>(t@),
            Err(m) => host_http_get_spec(allowlist@, url@) == Err::<Seq<char>, Seq<char>>(m@),
        },
{
    let domain = extract_domain(url);
    if list_contains(allowlist, domain.as_str()) {
        let mut t = String::from_str("HTTP 200 OK ");
        push_str(&mut t, url);
        Ok(t)
    } else {
        let mut m = String::from_str("sandbox violation: domain '");
        push_str(&mut m, domain.as_str());
        push_str(&mut m, "' not in allowlist");
        Err(m)
    }
}

// ---------------------------------------------------------------------------
// Signatures
// ---------------------------------------------------------------------------

/// A byte is an ASCII hexadecimal digit.
pub open spec fn is_hex_byte(b: u8) -> bool {
    (0x30 <= b <= 0x39) || (0x41 <= b <= 0x46) || (0x61 <= b <= 0x66)
}

/// The value of a hexadecimal digit.
pub open spec fn hex_value(b: u8) -> int {
    if 0x30 <= b <= 0x39 {
        b - 0x30
    } else if 0x41 <= b <= 0x46 {
        b - 0x41 + 10
    } else {
        b - 0x61 + 10
    }
}

/// The bytes a hexadecimal text stands for, two digits a byte, when its
/// length is even and every character a hexadecimal digit.
pub open spec fn hex_decoded(t: Seq<u8>) -> Option<Seq<u8>> {
    if t.len() % 2 == 0 && forall|i: int| 0 <= i < t.len() ==> is_hex_byte(#[trigger] t[i]) {
        Some(Seq::new(t.len() / 2, |i: int| (hex_value(t[2 * i]) * 16 + hex_value(t[2 * i + 1])) as u8))
    } else {
        None
    }
}

/// The text of the error `hex::decode` gives for a text it refuses.
pub uninterp spec fn hex_error_text(t: Seq<u8>) -> Seq<char>;

/// `hex::decode`: the bytes of an even-length text of hexadecimal digits,
/// else the error's text.
#[verifier::external_body]
fn hex_decode(s: &str) -> (r: Result<Vec<u8>, String>)
    ensures
        match r {
            Ok(b) => hex_decoded(vstd::utf8::encode_utf8(s@)) == Some(b@),
            Err(m) => hex_decoded(vstd::utf8::encode_utf8(s@)) is None && m@ == hex_error_text(vstd::utf8::encode_utf8(s@)),
        },
{
    match hex::decode(s) {
        Ok(b) => Ok(b),
        Err(e) => Err(e.to_string()),
    }
}

/// What `ed25519_dalek::VerifyingKey::from_bytes` gives for 32 bytes: `Ok`
/// when they encode a curve point, else the error's text.
pub uninterp spec fn ed25519_key_outcome(key: Seq<u8>) -> Result<(), Seq<char>>;

/// `VerifyingKey::from_bytes`, the key itself left aside.
#[verifier::external_body]
fn check_verifying_key(key: &[u8; 32]) -> (r: Result<(), String>)
    ensures
        match r {
            Ok(()) => ed25519_key_outcome(key@) == Ok::<(), Seq<char>>(()),
            Err(m) => ed25519_key_outcome(key@) == Err::<(), Seq<char>>(m@),
        },
{
    match ed25519_dalek::VerifyingKey::from_bytes(key) {
        Ok(_) => Ok(()),
        Err(e) => Err(e.to_string()),
    }
}

/// `ed25519_dalek::Signature::from_slice`: the 64 bytes of a signature;
/// any other length is refused with the text `signature error`.
#[verifier::external_body]
fn signature_from_slice(bytes: &[u8]) -> (r: Result<[u8; 64], String>)
    ensures
        r is Ok <==> bytes@.len() == 64,
        r matches Ok(s) ==> s@ == bytes@,
        r matches Err(m) ==> m@ == "signature error"@,
{
    match ed25519_dalek::Signature::from_slice(bytes) {
        Ok(s) => Ok(s.to_bytes()),
        Err(e) => Err(e.to_string()),
    }
}

/// Whether the Ed25519 signature `sig` of `msg` is valid for the key
/// `key` (what `VerifyingKey::verify` checks).
pub uninterp spec fn ed25519_verifies(key: Seq<u8>, msg: Seq<u8>, sig: Seq<u8>) -> bool;

/// `VerifyingKey::verify`, on a key given by its bytes (which encode a
/// point).
#[verifier::external_body]
fn verify_signature(key: &[u8; 32], msg: &[u8], sig: &[u8; 64]) -> (r: bool)
    requires
        ed25519_key_outcome(key@) is Ok,
    ensures
        r == ed25519_verifies(key@, msg@, sig@),
{
    match ed25519_dalek::VerifyingKey::from_bytes(key) {
        Ok(k) => k.verify(msg, &ed25519_dalek::Signature::from_bytes(sig)).is_ok(),
        Err(_) => false,
    }
}

/// Error of a plugin installation.
#[derive(Debug, Clone)]
pub enum PluginInstallError {
    /// A file of the plugin could not be read.
    Io(String),
    /// The manifest is missing, unreadable or incomplete.
    Manifest(String),
    /// The Ed25519 public key is malformed.
    InvalidKey(String),
    /// The module's signature does not check with the expected key.
    InvalidSignature(String),
}

fn key_array(b: &Vec<u8>) -> (r: [u8; 32])
    requires
        b@.len() == 32,
    ensures
        r@ == b@,
{
    let mut a: [u8; 32] = [0u8; 32];
    let mut i: usize = 0;
    while i < 32
        invariant
            b@.len() == 32,
            i <= 32,
            forall|k: int| 0 <= k < i ==> a@[k] == b@[k],
        decreases 32 - i,
    {
        a[i] = b[i];
        i = i + 1;
    }
    assert(a@ =~= b@);
    a
}

/// The outcome of checking a module's signature: the key must be 32 bytes
/// of hexadecimal text that encode a curve point, the signature 64 bytes,
/// and the signature must check.
pub open spec fn signature_check(key_hex: Seq<u8>, wasm: Seq<u8>, sig: Seq<u8>) -> Result<(), PluginInstallErrorKind> {
    match hex_decoded(key_hex) {
        None => Err(PluginInstallErrorKind::InvalidKey(hex_error_text(key_hex))),
        Some(k) => if k.len() != 32 {
            Err(PluginInstallErrorKind::InvalidKey("taille"@))
        } else {
            match ed25519_key_outcome(k) {
                Err(m) => Err(PluginInstallErrorKind::InvalidKey(m)),
                Ok(_) => if sig.len() != 64 {
                    Err(PluginInstallErrorKind::InvalidSignature("signature error"@))
                } else if !ed25519_verifies(k, wasm, sig) {
                    Err(PluginInstallErrorKind::InvalidSignature("vérification échouée"@))
                } else {
                    Ok(())
                },
            }
        },
    }
}

/// An installation error, by its text.
pub enum PluginInstallErrorKind {
    InvalidKey(Seq<char>),
    InvalidSignature(Seq<char>),
}

/// The error kind of an installation error.
pub open spec fn error_kind(e: PluginInstallError) -> Option<PluginInstallErrorKind> {
    match e {
        PluginInstallError::InvalidKey(m) => Some(PluginInstallErrorKind::InvalidKey(m@)),
        PluginInstallError::InvalidSignature(m) => Some(PluginInstallErrorKind::InvalidSignature(m@)),
        _ => None,
    }
}

/// Checks that `wasm` is signed by the key `public_key_hex`.
pub fn check_plugin_signature(wasm: &Vec<u8>, signature: &Vec<u8>, public_key_hex: &str) -> (r: Result<(), PluginInstallError>)
    ensures
        match r {
            Ok(()) => signature_check(vstd::utf8::encode_utf8(public_key_hex@), wasm@, signature@) is Ok,
            Err(e) => signature_check(vstd::utf8::encode_utf8(public_key_hex@), wasm@, signature@) matches Err(k) && error_kind(e)
                == Some(k),
        },
{
    let key = match hex_decode(public_key_hex) {
        Ok(k) => k,
        Err(m) => {
            return Err(PluginInstallError::InvalidKey(m));
        },
    };
    if key.len() != 32 {
        return Err(PluginInstallError::InvalidKey(String::from_str("taille")));
    }
    let key32 = key_array(&key);
    match check_verifying_key(&key32) {
        Ok(()) => {},
        Err(m) => {
            return Err(PluginInstallError::InvalidKey(m));
        },
    }
    let sig = match signature_from_slice(signature.as_slice()) {
        Ok(s) => s,
        Err(m) => {
            return Err(PluginInstallError::InvalidSignature(m));
        },
    };
    if !verify_signature(&key32, wasm.as_slice(), &sig) {
        return Err(PluginInstallError::InvalidSignature(String::from_str("vérification échouée")));
    }
    Ok(())
}

// ---------------------------------------------------------------------------
// Plugins and the registry
// ---------------------------------------------------------------------------

/// A transform carried out by a WASM plugin.
#[derive(Debug, Clone)]
pub struct PluginTransform {
    pub manifest: PluginManifest,
    pub wasm_bytes: Vec<u8>,
}

impl PluginTransform {
    /// A plugin transform from its manifest and its module.
    pub fn new(manifest: PluginManifest, wasm_bytes: Vec<u8>) -> (r: PluginTransform)
        ensures
            r.manifest == manifest,
            r.wasm_bytes == wasm_bytes,
    {
        PluginTransform { manifest, wasm_bytes }
    }

    /// The domain is allowed by the plugin's manifest.
    pub fn allows_domain(&self, domain: &str) -> (r: bool)
        ensures
            r == views(self.manifest.permissions.network.allowlist@).contains(domain@),
    {
        self.manifest.allows_domain(domain)
    }

    /// Identifier of the transform: the plugin's.
    pub fn id(&self) -> (r: &String)
        ensures
            r == self.manifest.meta.id,
    {
        &self.manifest.meta.id
    }

    /// Name shown to the analyst: the plugin's.
    pub fn display_name(&self) -> (r: &String)
        ensures
            r == self.manifest.meta.name,
    {
        &self.manifest.meta.name
    }

    /// Accepted input kinds: those of the plugin's first transform (none
    /// when it declares none).
    pub fn input_kinds(&self) -> (r: &[EntityKind])
        ensures
            self.manifest.transforms@.len() > 0 ==> r@ == self.manifest.transforms@[0].input_kinds@,
            self.manifest.transforms@.len() == 0 ==> r@.len() == 0,
    {
        if self.manifest.transforms.len() > 0 {
            self.manifest.transforms[0].input_kinds.as_slice()
        } else {
            &[]
        }
    }
}

/// No plugin identifier occurs twice.
pub open spec fn unique_plugins(ps: Seq<PluginTransform>) -> bool {
    forall|i: int, j: int| 0 <= i < j < ps.len() ==> ps[i].manifest.meta.id@ != ps[j].manifest.meta.id@
}

/// Index of the plugin with identifier `id`.
pub open spec fn plugin_index(ps: Seq<PluginTransform>, id: Seq<char>) -> Option<int>
    decreases ps.len(),
{
    if ps.len() == 0 {
        None
    } else if ps.last().manifest.meta.id@ == id {
        Some(ps.len() - 1)
    } else {
        plugin_index(ps.drop_last(), id)
    }
}

/// The plugins after installing `p`: it replaces the plugin with the same
/// identifier, or comes last.
pub open spec fn plugins_insert(ps: Seq<PluginTransform>, p: PluginTransform) -> Seq<PluginTransform> {
    match plugin_index(ps, p.manifest.meta.id@) {
        Some(j) => ps.update(j, p),
        None => ps.push(p),
    }
}

proof fn lemma_plugin_index(ps: Seq<PluginTransform>, id: Seq<char>)
    requires
        unique_plugins(ps),
    ensures
        match plugin_index(ps, id) {
            Some(j) => 0 <= j < ps.len() && ps[j].manifest.meta.id@ == id,
            None => forall|k: int| 0 <= k < ps.len() ==> ps[k].manifest.meta.id@ != id,
        },
        forall|k: int| 0 <= k < ps.len() && ps[k].manifest.meta.id@ == id ==> plugin_index(ps, id) == Some(k),
    decreases ps.len(),
{
    if ps.len() > 0 {
        let t = ps.drop_last();
        assert(unique_plugins(t)) by {
            assert forall|i: int, j: int| 0 <= i < j < t.len() implies t[i].manifest.meta.id@ != t[j].manifest.meta.id@ by {
                assert(t[i] == ps[i] && t[j] == ps[j]);
            }
        }
        lemma_plugin_index(t, id);
        assert forall|k: int| 0 <= k < ps.len() && ps[k].manifest.meta.id@ == id implies plugin_index(ps, id) == Some(k) by {
            if k < ps.len() - 1 {
                assert(t[k] == ps[k]);
                assert(ps[k].manifest.meta.id@ != ps[ps.len() - 1].manifest.meta.id@);
            }
        }
        if plugin_index(ps, id) is None {
            assert forall|k: int| 0 <= k < ps.len() implies ps[k].manifest.meta.id@ != id by {
                if k < ps.len() - 1 {
                    assert(t[k] == ps[k]);
                }
            }
        }
    }
}

/// Local registry of WASM plugins, by identifier.
#[derive(Debug, Clone)]
pub struct PluginRegistry {
    plugins: Vec<PluginTransform>,
}

impl PluginRegistry {
    /// The installed plugins, each identifier once.
    pub closed spec fn installed(&self) -> Seq<PluginTransform> {
        self.plugins@
    }

    /// Well-formed: no identifier twice.
    pub closed spec fn wf(&self) -> bool {
        unique_plugins(self.plugins@)
    }

    /// An empty registry.
    pub fn new() -> (r: PluginRegistry)
        ensures
            r.wf(),
            r.installed().len() == 0,
    {
        PluginRegistry { plugins: Vec::new() }
    }

    fn find(&self, id: &str) -> (r: Option<usize>)
        requires
            self.wf(),
        ensures
            match r {
                Some(j) => plugin_index(self.plugins@, id@) == Some(j as int),
                None => plugin_index(self.plugins@, id@) is None,
            },
    {
        proof {
            lemma_plugin_index(self.plugins@, id@);
        }
        let target = String::from_str(id);
        let mut i: usize = 0;
        while i < self.plugins.len()
            invariant
                i <= self.plugins.len(),
                target@ == id@,
                forall|k: int| 0 <= k < i ==> self.plugins@[k].manifest.meta.id@ != id@,
                forall|k: int| 0 <= k < self.plugins@.len() && self.plugins@[k].manifest.meta.id@ == id@ ==> plugin_index(self.plugins@, id@) == Some(k),
                match plugin_index(self.plugins@, id@) {
                    Some(j) => 0 <= j < self.plugins@.len() && self.plugins@[j].manifest.meta.id@ == id@,
                    None => forall|k: int| 0 <= k < self.plugins@.len() ==> self.plugins@[k].manifest.meta.id@ != id@,
                },
            decreases self.plugins.len() - i,
        {
            if self.plugins[i].manifest.meta.id == target {
                return Some(i);
            }
            i = i + 1;
        }
        None
    }

    /// The plugin installed under `id`, if any.
    pub fn get(&self, id: &str) -> (r: Option<&PluginTransform>)
        requires
            self.wf(),
        ensures
            match plugin_index(self.installed(), id@) {
                Some(j) => r == Some(&self.installed()[j]),
                None => r is None,
            },
    {
        proof {
            lemma_plugin_index(self.plugins@, id@);
        }
        match self.find(id) {
            Some(j) => Some(&self.plugins[j]),
            None => None,
        }
    }

    /// The identifiers of the installed plugins.
    pub fn list(&self) -> (r: Vec<String>)
        ensures
            r@.len() == self.installed().len(),
            forall|i: int| 0 <= i < r@.len() ==> (#[trigger] r@[i])@ == self.installed()[i].manifest.meta.id@,
    {
        let mut r: Vec<String> = Vec::new();
        let mut i: usize = 0;
        while i < self.plugins.len()
            invariant
                i <= self.plugins.len(),
                r@.len() == i,
                forall|k: int| 0 <= k < i ==> (#[trigger] r@[k])@ == self.plugins@[k].manifest.meta.id@,
            decreases self.plugins.len() - i,
        {
            r.push(self.plugins[i].manifest.meta.id.clone());
            i = i + 1;
        }
        r
    }

    /// Adds a plugin, replacing the one with the same identifier.
    pub fn insert(&mut self, p: PluginTransform)
        requires
            old(self).wf(),
        ensures
            final(self).wf(),
            final(self).installed() == plugins_insert(old(self).installed(), p),
    {
        let ghost before = self.plugins@;
        proof {
            lemma_plugin_index(before, p.manifest.meta.id@);
        }
        match self.find(p.manifest.meta.id.as_str()) {
            Some(j) => {
                self.plugins.remove(j);
                self.plugins.insert(j, p);
                proof {
                    assert(self.plugins@ =~= before.update(j as int, p));
                    assert forall|a: int, b: int| 0 <= a < b < self.plugins@.len() implies self.plugins@[a].manifest.meta.id@
                        != self.plugins@[b].manifest.meta.id@ by {
                        if a == j {
                            assert(before[b].manifest.meta.id@ != before[j as int].manifest.meta.id@);
                        } else if b == j {
                            assert(before[a].manifest.meta.id@ != before[j as int].manifest.meta.id@);
                        }
                    }
                }
            },
            None => {
                self.plugins.push(p);
                proof {
                    assert forall|a: int, b: int| 0 <= a < b < self.plugins@.len() implies self.plugins@[a].manifest.meta.id@
                        != self.plugins@[b].manifest.meta.id@ by {
                        if b == before.len() {
                            assert(self.plugins@[a] == before[a]);
                        } else {
                            assert(self.plugins@[a] == before[a] && self.plugins@[b] == before[b]);
                        }
                    }
                }
            },
        }
    }

    /// Installs a plugin from its manifest, its module and the module's
    /// signature, when the signature checks with the key `public_key_hex`.
    pub fn install_verified(
        &mut self,
        manifest: PluginManifest,
        wasm_bytes: Vec<u8>,
        signature_bytes: &Vec<u8>,
        public_key_hex: &str,
    ) -> (r: Result<(), PluginInstallError>)
        requires
            old(self).wf(),
        ensures
            final(self).wf(),
            match r {
                Ok(()) => {
                    &&& signature_check(vstd::utf8::encode_utf8(public_key_hex@), wasm_bytes@, signature_bytes@) is Ok
                    &&& final(self).installed() == plugins_insert(
                        old(self).installed(),
                        PluginTransform { manifest, wasm_bytes },
                    )
                },
                Err(e) => {
                    &&& signature_check(vstd::utf8::encode_utf8(public_key_hex@), wasm_bytes@, signature_bytes@) matches Err(k)
                        && error_kind(e) == Some(k)
                    &&& final(self).installed() == old(self).installed()
                },
            },
    {
        match check_plugin_signature(&wasm_bytes, signature_bytes, public_key_hex) {
            Ok(()) => {
                let pt = PluginTransform::new(manifest, wasm_bytes);
                self.insert(pt);
                Ok(())
            },
            Err(e) => Err(e),
        }
    }
}

/// After a plugin is installed, looking up its identifier gives it, and
/// every other identifier gives what it gave before.
pub proof fn law_installed_plugin_is_found(ps: Seq<PluginTransform>, p: PluginTransform, other: Seq<char>)
    requires
        unique_plugins(ps),
    ensures
        ({
            let qs = plugins_insert(ps, p);
            &&& plugin_index(qs, p.manifest.meta.id@) matches Some(j) && qs[j] == p
            &&& other != p.manifest.meta.id@ ==> match plugin_index(ps, other) {
                Some(j) => plugin_index(qs, other) == Some(j) && qs[j] == ps[j],
                None => plugin_index(qs, other) is None,
            }
        }),
{
    let id = p.manifest.meta.id@;
    let qs = plugins_insert(ps, p);
    lemma_plugin_index(ps, id);
    lemma_plugin_index(ps, other);
    assert(unique_plugins(qs)) by {
        assert forall|a: int, b: int| 0 <= a < b < qs.len() implies qs[a].manifest.meta.id@ != qs[b].manifest.meta.id@ by {
            match plugin_index(ps, id) {
                Some(j) => {
                    if a == j {
                        assert(ps[b].manifest.meta.id@ != ps[j].manifest.meta.id@);
                    } else if b == j {
                        assert(ps[a].manifest.meta.id@ != ps[j].manifest.meta.id@);
                    }
                },
                None => {
                    if b == ps.len() {
                        assert(qs[a] == ps[a]);
                    } else {
                        assert(qs[a] == ps[a] && qs[b] == ps[b]);
                    }
                },
            }
        }
    }
    lemma_plugin_index(qs, id);
    lemma_plugin_index(qs, other);
    match plugin_index(ps, id) {
        Some(j) => {
            assert(qs[j] == p);
        },
        None => {
            assert(qs[ps.len() as int] == p);
        },
    }
    if other != id {
        match plugin_index(ps, other) {
            Some(j) => {
                assert(qs[j] == ps[j]);
            },
            None => {
                assert forall|k: int| 0 <= k < qs.len() implies qs[k].manifest.meta.id@ != other by {
                    if k < ps.len() {
                        match plugin_index(ps, id) {
                            Some(j) => {
                                if k != j {
                                    assert(qs[k] == ps[k]);
                                }
                            },
                            None => {
                                assert(qs[k] == ps[k]);
                            },
                        }
                    }
                }
            },
        }
    }
}

} // verus!
