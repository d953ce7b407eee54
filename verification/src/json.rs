//! JSON values and their canonical serialisation.
//!
//! A canonical text is deterministic: object keys are sorted by code point at
//! every level, `null` is kept, numbers are written as their decimal text and
//! strings are escaped as JSON requires.

use vstd::prelude::*;
use crate::text::{digit_char, chars_of, push_char, push_str};

verus! {

/// A JSON value. A number holds its decimal text (as `serde_json` prints it);
/// an object holds its entries, whose keys are expected to be distinct.
#[derive(Debug)]
pub enum JsonValue {
    Null,
    Bool(bool),
    Number(String),
    String(String),
    Array(Vec<JsonValue>),
    Object(Vec<(String, JsonValue)>),
}

// ---------------------------------------------------------------------------
// String literals
// ---------------------------------------------------------------------------

/// Lower-case hexadecimal digit of `d < 16`.
pub open spec fn hex_digit(d: nat) -> char {
    if d < 10 {
        digit_char(d)
    } else if d == 10 { 'a' }
    else if d == 11 { 'b' }
    else if d == 12 { 'c' }
    else if d == 13 { 'd' }
    else if d == 14 { 'e' }
    else { 'f' }
}

/// How one character is written inside a JSON string literal.
pub open spec fn json_escape_char(c: char) -> Seq<char> {
    if c == '"' {
        seq!['\\', '"']
    } else if c == '\\' {
        seq!['\\', '\\']
    } else if c == '\u{8}' {
        seq!['\\', 'b']
    } else if c == '\t' {
        seq!['\\', 't']
    } else if c == '\n' {
        seq!['\\', 'n']
    } else if c == '\u{c}' {
        seq!['\\', 'f']
    } else if c == '\r' {
        seq!['\\', 'r']
    } else if (c as u32) < 0x20 {
        seq!['\\', 'u', '0', '0', hex_digit((c as u32 / 16) as nat), hex_digit((c as u32 % 16) as nat)]
    } else {
        seq![c]
    }
}

/// The escaped body of a JSON string literal.
pub open spec fn json_escape(s: Seq<char>) -> Seq<char>
    decreases s.len(),
{
    if s.len() == 0 {
        Seq::empty()
    } else {
        json_escape_char(s[0]) + json_escape(s.drop_first())
    }
}

/// A JSON string literal: quotes around the escaped characters.
pub open spec fn json_quoted(s: Seq<char>) -> Seq<char> {
    seq!['"'] + json_escape(s) + seq!['"']
}

/// `serde_json::to_string` on a string: the JSON string literal, with `"`
/// and `\` escaped, the control characters written `\b \t \n \f \r` or
/// `\u00XX` (lower-case hex) and every other character kept as it is.
#[verifier::external_body]
pub(crate) fn json_string_literal(s: &str) -> (r: String)
    ensures
        r@ == json_quoted(s@),
{
    serde_json::to_string(s).unwrap_or_default()
}

// ---------------------------------------------------------------------------
// Key order
// ---------------------------------------------------------------------------

/// Strict lexicographic order on keys, character by character (code points),
/// which is the order of `String`.
pub open spec fn key_lt(a: Seq<char>, b: Seq<char>) -> bool
    decreases a.len(),
{
    if a.len() == 0 {
        b.len() > 0
    } else if b.len() == 0 {
        false
    } else if (a[0] as int) < (b[0] as int) {
        true
    } else if a[0] == b[0] {
        key_lt(a.drop_first(), b.drop_first())
    } else {
        false
    }
}

pub proof fn lemma_key_lt_irreflexive(a: Seq<char>)
    ensures
        !key_lt(a, a),
    decreases a.len(),
{
    if a.len() > 0 {
        lemma_key_lt_irreflexive(a.drop_first());
    }
}

pub proof fn lemma_key_lt_asymmetric(a: Seq<char>, b: Seq<char>)
    ensures
        !(key_lt(a, b) && key_lt(b, a)),
    decreases a.len(),
{
    if a.len() > 0 && b.len() > 0 && a[0] == b[0] {
        lemma_key_lt_asymmetric(a.drop_first(), b.drop_first());
    }
}

pub proof fn lemma_key_lt_transitive(a: Seq<char>, b: Seq<char>, c: Seq<char>)
    requires
        key_lt(a, b),
        key_lt(b, c),
    ensures
        key_lt(a, c),
    decreases a.len(),
{
    if a.len() > 0 && b.len() > 0 && c.len() > 0 && a[0] == b[0] && b[0] == c[0] {
        lemma_key_lt_transitive(a.drop_first(), b.drop_first(), c.drop_first());
    }
}

pub proof fn lemma_key_lt_total(a: Seq<char>, b: Seq<char>)
    ensures
        a == b || key_lt(a, b) || key_lt(b, a),
    decreases a.len(),
{
    if a.len() == 0 {
        if b.len() == 0 {
            assert(a =~= b);
        }
    } else if b.len() > 0 && a[0] != b[0] {
        assert((a[0] as int) != (b[0] as int));
    } else if b.len() > 0 && a[0] == b[0] {
        lemma_key_lt_total(a.drop_first(), b.drop_first());
        if a.drop_first() == b.drop_first() {
            assert(a =~= seq![a[0]] + a.drop_first());
            assert(b =~= seq![b[0]] + b.drop_first());
        }
    }
}

fn key_lt_from(a: &Vec<char>, b: &Vec<char>, i: usize) -> (r: bool)
    requires
        i <= a.len(),
        i <= b.len(),
    ensures
        r == key_lt(a@.skip(i as int), b@.skip(i as int)),
    decreases a.len() - i,
{
    if i == a.len() {
        return i < b.len();
    }
    if i == b.len() {
        return false;
    }
    let ca = a[i];
    let cb = b[i];
    assert(a@.skip(i as int)[0] == ca);
    assert(b@.skip(i as int)[0] == cb);
    assert(a@.skip(i as int).drop_first() =~= a@.skip(i + 1));
    assert(b@.skip(i as int).drop_first() =~= b@.skip(i + 1));
    if ca < cb {
        true
    } else if ca == cb {
        key_lt_from(a, b, i + 1)
    } else {
        false
    }
}

/// `a` comes strictly before `b` in key order.
pub fn key_less(a: &Vec<char>, b: &Vec<char>) -> (r: bool)
    ensures
        r == key_lt(a@, b@),
{
    assert(a@.skip(0) =~= a@);
    assert(b@.skip(0) =~= b@);
    key_lt_from(a, b, 0)
}

// ---------------------------------------------------------------------------
// Sorting rendered entries by key
// ---------------------------------------------------------------------------

/// Inserts `p` into `s` before the first entry whose key is not smaller.
pub open spec fn insert_by_key(p: (Seq<char>, Seq<char>), s: Seq<(Seq<char>, Seq<char>)>) -> Seq<
    (Seq<char>, Seq<char>),
>
    decreases s.len(),
{
    if s.len() == 0 {
        seq![p]
    } else if !key_lt(s[0].0, p.0) {
        seq![p] + s
    } else {
        seq![s[0]] + insert_by_key(p, s.drop_first())
    }
}

/// Insertion sort of `(key, text)` pairs by key.
pub open spec fn sort_by_key(s: Seq<(Seq<char>, Seq<char>)>) -> Seq<(Seq<char>, Seq<char>)>
    decreases s.len(),
{
    if s.len() == 0 {
        s
    } else {
        insert_by_key(s.last(), sort_by_key(s.drop_last()))
    }
}

/// Joins texts with a comma between consecutive ones.
pub open spec fn join_comma(parts: Seq<Seq<char>>) -> Seq<char>
    decreases parts.len(),
{
    if parts.len() == 0 {
        Seq::empty()
    } else if parts.len() == 1 {
        parts[0]
    } else {
        join_comma(parts.drop_last()) + seq![','] + parts.last()
    }
}

// ---------------------------------------------------------------------------
// Canonical text
// ---------------------------------------------------------------------------

/// Canonical texts of the items of an array, in order.
pub open spec fn canonical_items(s: Seq<JsonValue>) -> Seq<Seq<char>>
    decreases s,
{
    if s.len() == 0 {
        Seq::empty()
    } else {
        canonical_items(s.drop_last()).push(canonical_spec(s.last()))
    }
}

/// How one object entry is written: `"key":value`, paired with its key.
pub open spec fn rendered_entry(key: Seq<char>, value_text: Seq<char>) -> (Seq<char>, Seq<char>) {
    (key, json_quoted(key) + seq![':'] + value_text)
}

/// Each entry of an object rendered, in the order given.
pub open spec fn rendered_entries(s: Seq<(String, JsonValue)>) -> Seq<(Seq<char>, Seq<char>)>
    decreases s,
{
    if s.len() == 0 {
        Seq::empty()
    } else {
        rendered_entries(s.drop_last()).push(
            rendered_entry(s.last().0@, canonical_spec(s.last().1)),
        )
    }
}

/// The second components of a sequence of pairs.
pub open spec fn texts_of(s: Seq<(Seq<char>, Seq<char>)>) -> Seq<Seq<char>> {
    s.map_values(|p: (Seq<char>, Seq<char>)| p.1)
}

/// The canonical JSON text of a value.
pub open spec fn canonical_spec(v: JsonValue) -> Seq<char>
    decreases v,
{
    match v {
        JsonValue::Null => "null"@,
        JsonValue::Bool(b) => if b { "true"@ } else { "false"@ },
        JsonValue::Number(t) => t@,
        JsonValue::String(s) => json_quoted(s@),
        JsonValue::Array(items) => seq!['['] + join_comma(canonical_items(items@)) + seq![']'],
        JsonValue::Object(entries) => seq!['{'] + join_comma(
            texts_of(sort_by_key(rendered_entries(entries@))),
        ) + seq!['}'],
    }
}


/// The views of a sequence of strings.
pub open spec fn strings_view(s: Seq<String>) -> Seq<Seq<char>> {
    s.map_values(|x: String| x@)
}

/// The views of a sequence of `(key characters, text)` pairs.
pub open spec fn pairs_view(s: Seq<(Vec<char>, String)>) -> Seq<(Seq<char>, Seq<char>)> {
    s.map_values(|p: (Vec<char>, String)| (p.0@, p.1@))
}

/// Joins texts with commas.
pub fn join_with_commas(parts: &Vec<String>) -> (r: String)
    ensures
        r@ == join_comma(strings_view(parts@)),
{
    let mut r = String::new();
    let mut i: usize = 0;
    while i < parts.len()
        invariant
            i <= parts.len(),
            r@ == join_comma(strings_view(parts@.take(i as int))),
        decreases parts.len() - i,
    {
        proof {
            let t = strings_view(parts@.take(i + 1));
            assert(t.drop_last() =~= strings_view(parts@.take(i as int)));
            assert(t.last() == parts@[i as int]@);
        }
        if i > 0 {
            push_char(&mut r, ',');
        }
        push_str(&mut r, parts[i].as_str());
        i = i + 1;
    }
    assert(parts@.take(parts.len() as int) =~= parts@);
    r
}

proof fn lemma_insert_by_key_at(p: (Seq<char>, Seq<char>), s: Seq<(Seq<char>, Seq<char>)>, j: int)
    requires
        0 <= j <= s.len(),
        forall|k: int| 0 <= k < j ==> key_lt(#[trigger] s[k].0, p.0),
        j < s.len() ==> !key_lt(s[j].0, p.0),
    ensures
        insert_by_key(p, s) == s.take(j) + seq![p] + s.skip(j),
    decreases s.len(),
{
    if s.len() == 0 {
        assert(s.take(j) + seq![p] + s.skip(j) =~= seq![p]);
    } else if j == 0 {
        assert(s.take(j) + seq![p] + s.skip(j) =~= seq![p] + s);
    } else {
        assert(key_lt(s[0].0, p.0));
        let t = s.drop_first();
        assert forall|k: int| 0 <= k < j - 1 implies key_lt(#[trigger] t[k].0, p.0) by {
            assert(t[k] == s[k + 1]);
        }
        lemma_insert_by_key_at(p, t, j - 1);
        assert(s.take(j) + seq![p] + s.skip(j) =~= seq![s[0]] + (t.take(j - 1) + seq![p] + t.skip(j - 1)));
    }
}

pub(crate) fn insert_sorted(v: &mut Vec<(Vec<char>, String)>, p: (Vec<char>, String))
    ensures
        pairs_view(final(v)@) == insert_by_key((p.0@, p.1@), pairs_view(old(v)@)),
{
    let ghost pv = (p.0@, p.1@);
    let ghost s = pairs_view(v@);
    let mut j: usize = 0;
    while j < v.len()
        invariant
            j <= v.len(),
            v@ == old(v)@,
            s == pairs_view(v@),
            pv == (p.0@, p.1@),
            forall|k: int| 0 <= k < j ==> key_lt(#[trigger] s[k].0, pv.0),
        ensures
            j <= v.len(),
            j < v.len() ==> !key_lt(s[j as int].0, pv.0),
            forall|k: int| 0 <= k < j ==> key_lt(#[trigger] s[k].0, pv.0),
        decreases v.len() - j,
    {
        if !key_less(&v[j].0, &p.0) {
            break;
        }
        j = j + 1;
    }
    proof {
        lemma_insert_by_key_at(pv, s, j as int);
    }
    v.insert(j, p);
    assert(pairs_view(v@) =~= s.take(j as int) + seq![pv] + s.skip(j as int));
}

/// The canonical JSON text of `v`: object keys sorted at every level, `null`
/// kept, numbers as their text, strings escaped.
pub fn canonical_json(v: &JsonValue) -> (r: String)
    ensures
        r@ == canonical_spec(*v),
    decreases v,
{
    match v {
        JsonValue::Null => String::from_str("null"),
        JsonValue::Bool(b) => {
            if *b {
                String::from_str("true")
            } else {
                String::from_str("false")
            }
        },
        JsonValue::Number(t) => t.clone(),
        JsonValue::String(s) => json_string_literal(s.as_str()),
        JsonValue::Array(items) => {
            let mut parts: Vec<String> = Vec::new();
            let mut i: usize = 0;
            while i < items.len()
                invariant
                    i <= items.len(),
                    *v == JsonValue::Array(*items),
                    strings_view(parts@) == canonical_items(items@.take(i as int)),
                decreases items.len() - i,
            {
                proof {
                    vstd::std_specs::vec::axiom_vec_index_decreases(*items, i as int);
                    assert(decreases_to!(*v => (*v)->Array_0));
                }
                let t = canonical_json(&items[i]);
                proof {
                    assert(items@.take(i + 1).drop_last() =~= items@.take(i as int));
                }
                parts.push(t);
                i = i + 1;
                assert(strings_view(parts@) =~= canonical_items(items@.take(i as int)));
            }
            assert(items@.take(items.len() as int) =~= items@);
            let body = join_with_commas(&parts);
            let mut r = String::from_str("[");
            push_str(&mut r, body.as_str());
            push_char(&mut r, ']');
            proof {
                reveal_strlit("[");
            }
            assert(r@ =~= seq!['['] + join_comma(canonical_items(items@)) + seq![']']);
            r
        },
        JsonValue::Object(entries) => {
            let mut sorted: Vec<(Vec<char>, String)> = Vec::new();
            let mut i: usize = 0;
            while i < entries.len()
                invariant
                    i <= entries.len(),
                    *v == JsonValue::Object(*entries),
                    pairs_view(sorted@) == sort_by_key(rendered_entries(entries@.take(i as int))),
                decreases entries.len() - i,
            {
                let key = chars_of(entries[i].0.as_str());
                let mut text = json_string_literal(entries[i].0.as_str());
                push_char(&mut text, ':');
                proof {
                    vstd::std_specs::vec::axiom_vec_index_decreases(*entries, i as int);
                    assert(decreases_to!(*v => (*v)->Object_0));
                    assert(decreases_to!(entries[i as int] => entries[i as int].1));
                }
                let val = canonical_json(&entries[i].1);
                push_str(&mut text, val.as_str());
                proof {
                    let r1 = rendered_entries(entries@.take(i + 1));
                    assert(entries@.take(i + 1).drop_last() =~= entries@.take(i as int));
                    assert(r1.drop_last() =~= rendered_entries(entries@.take(i as int)));
                    assert(text@ =~= rendered_entry(entries@[i as int].0@, canonical_spec(entries@[i as int].1)).1);
                }
                insert_sorted(&mut sorted, (key, text));
                i = i + 1;
            }
            assert(entries@.take(entries.len() as int) =~= entries@);
            let mut texts: Vec<String> = Vec::new();
            let mut k: usize = 0;
            while k < sorted.len()
                invariant
                    k <= sorted.len(),
                    strings_view(texts@) == texts_of(pairs_view(sorted@)).take(k as int),
                decreases sorted.len() - k,
            {
                let t = sorted[k].1.clone();
                let ghost before = texts@;
                texts.push(t);
                proof {
                    assert(texts@ == before.push(t));
                    assert(t@ == sorted@[k as int].1@);
                    assert(texts_of(pairs_view(sorted@))[k as int] == sorted@[k as int].1@);
                    let x = texts_of(pairs_view(sorted@));
                    assert(x.len() == sorted@.len());
                    assert(strings_view(before).len() == before.len());
                    assert(x.take(k as int).len() == k);
                    assert(before.len() == k);
                    assert(strings_view(texts@).len() == k + 1);
                    assert forall|j: int| 0 <= j < k + 1 implies strings_view(texts@)[j] == x.take(k + 1)[j] by {
                        if j < k {
                            assert(strings_view(before)[j] == x.take(k as int)[j]);
                        }
                    }
                    assert(strings_view(texts@) =~= x.take(k + 1));
                }
                k = k + 1;
            }
            assert(texts_of(pairs_view(sorted@)).take(k as int) =~= texts_of(pairs_view(sorted@)));
            let body = join_with_commas(&texts);
            let mut r = String::from_str("{");
            push_str(&mut r, body.as_str());
            push_char(&mut r, '}');
            proof {
                reveal_strlit("{");
            }
            assert(r@ =~= seq!['{'] + join_comma(texts_of(sort_by_key(rendered_entries(entries@)))) + seq!['}']);
            r
        },
    }
}


// ---------------------------------------------------------------------------
// The canonical text of an object does not depend on the order of its entries
// ---------------------------------------------------------------------------

/// Pairs sorted strictly by key.
pub open spec fn strictly_sorted(s: Seq<(Seq<char>, Seq<char>)>) -> bool {
    forall|i: int, j: int| 0 <= i < j < s.len() ==> key_lt(#[trigger] s[i].0, #[trigger] s[j].0)
}

/// No two pairs share a key.
pub open spec fn distinct_pair_keys(s: Seq<(Seq<char>, Seq<char>)>) -> bool {
    forall|i: int, j: int| 0 <= i < s.len() && 0 <= j < s.len() && i != j ==> #[trigger] s[i].0 != #[trigger] s[j].0
}

/// No two entries of an object have keys with the same characters.
pub open spec fn distinct_keys(s: Seq<(String, JsonValue)>) -> bool {
    forall|i: int, j: int| 0 <= i < s.len() && 0 <= j < s.len() && i != j ==> #[trigger] s[i].0@ != #[trigger] s[j].0@
}

/// Every entry of `a` is an entry of `b` and conversely.
pub open spec fn same_entries(a: Seq<(String, JsonValue)>, b: Seq<(String, JsonValue)>) -> bool {
    &&& forall|i: int| 0 <= i < a.len() ==> b.contains(#[trigger] a[i])
    &&& forall|j: int| 0 <= j < b.len() ==> a.contains(#[trigger] b[j])
}

proof fn lemma_insert_by_key_contents(p: (Seq<char>, Seq<char>), s: Seq<(Seq<char>, Seq<char>)>)
    ensures
        insert_by_key(p, s).len() == s.len() + 1,
        forall|x: (Seq<char>, Seq<char>)|
            #![trigger insert_by_key(p, s).contains(x)]
            #![trigger s.contains(x)]
            insert_by_key(p, s).contains(x) <==> (x == p || s.contains(x)),
    decreases s.len(),
{
    if s.len() == 0 {
        assert(insert_by_key(p, s) =~= seq![p]);
        assert forall|x: (Seq<char>, Seq<char>)| #![trigger insert_by_key(p, s).contains(x)] insert_by_key(p, s).contains(x) <==> (x == p || s.contains(x)) by {
            if insert_by_key(p, s).contains(x) {
                let k = choose|k: int| 0 <= k < insert_by_key(p, s).len() && insert_by_key(p, s)[k] == x;
            }
            if x == p {
                assert(insert_by_key(p, s)[0] == x);
            }
        }
    } else if !key_lt(s[0].0, p.0) {
        let r = seq![p] + s;
        assert(insert_by_key(p, s) == r);
        assert forall|x: (Seq<char>, Seq<char>)| r.contains(x) <==> (x == p || s.contains(x)) by {
            if r.contains(x) {
                let k = choose|k: int| 0 <= k < r.len() && r[k] == x;
                if k > 0 {
                    assert(s[k - 1] == x);
                }
            }
            if x == p {
                assert(r[0] == x);
            }
            if s.contains(x) {
                let k = choose|k: int| 0 <= k < s.len() && s[k] == x;
                assert(r[k + 1] == x);
            }
        }
        assert forall|x: (Seq<char>, Seq<char>)| #![trigger insert_by_key(p, s).contains(x)] insert_by_key(p, s).contains(x) <==> (x == p || s.contains(x)) by {
            assert(r.contains(x) <==> (x == p || s.contains(x)));
        }
    } else {
        let t = s.drop_first();
        lemma_insert_by_key_contents(p, t);
        let r = seq![s[0]] + insert_by_key(p, t);
        assert(insert_by_key(p, s) == r);
        assert forall|x: (Seq<char>, Seq<char>)| r.contains(x) <==> (x == p || s.contains(x)) by {
            if r.contains(x) {
                let k = choose|k: int| 0 <= k < r.len() && r[k] == x;
                if k == 0 {
                    assert(s[0] == x);
                } else {
                    assert(insert_by_key(p, t)[k - 1] == x);
                    if t.contains(x) {
                        let m = choose|m: int| 0 <= m < t.len() && t[m] == x;
                        assert(s[m + 1] == x);
                    }
                }
            }
            if x == p {
                assert(insert_by_key(p, t).contains(x));
                let m = choose|m: int| 0 <= m < insert_by_key(p, t).len() && insert_by_key(p, t)[m] == x;
                assert(r[m + 1] == x);
            }
            if s.contains(x) {
                let k = choose|k: int| 0 <= k < s.len() && s[k] == x;
                if k == 0 {
                    assert(r[0] == x);
                } else {
                    assert(t[k - 1] == x);
                    assert(insert_by_key(p, t).contains(x));
                    let m = choose|m: int| 0 <= m < insert_by_key(p, t).len() && insert_by_key(p, t)[m] == x;
                    assert(r[m + 1] == x);
                }
            }
        }
        assert forall|x: (Seq<char>, Seq<char>)| #![trigger insert_by_key(p, s).contains(x)] insert_by_key(p, s).contains(x) <==> (x == p || s.contains(x)) by {
            assert(r.contains(x) <==> (x == p || s.contains(x)));
        }
    }
}

proof fn lemma_sort_by_key_contents(s: Seq<(Seq<char>, Seq<char>)>)
    ensures
        sort_by_key(s).len() == s.len(),
        forall|x: (Seq<char>, Seq<char>)|
            #![trigger sort_by_key(s).contains(x)]
            #![trigger s.contains(x)]
            sort_by_key(s).contains(x) <==> s.contains(x),
    decreases s.len(),
{
    if s.len() > 0 {
        let t = s.drop_last();
        lemma_sort_by_key_contents(t);
        lemma_insert_by_key_contents(s.last(), sort_by_key(t));
        assert forall|x: (Seq<char>, Seq<char>)| sort_by_key(s).contains(x) <==> s.contains(x) by {
            if t.contains(x) {
                let k = choose|k: int| 0 <= k < t.len() && t[k] == x;
                assert(s[k] == x);
            }
            if s.contains(x) {
                let k = choose|k: int| 0 <= k < s.len() && s[k] == x;
                if k < s.len() - 1 {
                    assert(t[k] == x);
                }
            }
        }
    }
}

proof fn lemma_insert_by_key_sorted(p: (Seq<char>, Seq<char>), s: Seq<(Seq<char>, Seq<char>)>)
    requires
        strictly_sorted(s),
        forall|i: int| 0 <= i < s.len() ==> (#[trigger] s[i]).0 != p.0,
    ensures
        strictly_sorted(insert_by_key(p, s)),
    decreases s.len(),
{
    if s.len() == 0 {
    } else if !key_lt(s[0].0, p.0) {
        lemma_key_lt_total(s[0].0, p.0);
        let r = seq![p] + s;
        assert forall|i: int, j: int| 0 <= i < j < r.len() implies key_lt(#[trigger] r[i].0, #[trigger] r[j].0) by {
            if i == 0 {
                if j > 1 {
                    assert(key_lt(s[0].0, s[j - 1].0));
                    lemma_key_lt_transitive(p.0, s[0].0, s[j - 1].0);
                }
            } else {
                assert(r[i] == s[i - 1] && r[j] == s[j - 1]);
            }
        }
    } else {
        let t = s.drop_first();
        assert(strictly_sorted(t)) by {
            assert forall|i: int, j: int| 0 <= i < j < t.len() implies key_lt(#[trigger] t[i].0, #[trigger] t[j].0) by {
                assert(t[i] == s[i + 1] && t[j] == s[j + 1]);
            }
        }
        assert forall|i: int| 0 <= i < t.len() implies (#[trigger] t[i]).0 != p.0 by {
            assert(t[i] == s[i + 1]);
        }
        lemma_insert_by_key_sorted(p, t);
        lemma_insert_by_key_contents(p, t);
        let q = insert_by_key(p, t);
        let r = seq![s[0]] + q;
        assert forall|i: int, j: int| 0 <= i < j < r.len() implies key_lt(#[trigger] r[i].0, #[trigger] r[j].0) by {
            if i == 0 {
                assert(q.contains(r[j]));
                assert(r[j] == p || t.contains(r[j]));
                if r[j] != p {
                    let m = choose|m: int| 0 <= m < t.len() && t[m] == r[j];
                    assert(s[m + 1] == r[j]);
                }
            } else {
                assert(r[i] == q[i - 1] && r[j] == q[j - 1]);
            }
        }
    }
}

proof fn lemma_sort_by_key_sorted(s: Seq<(Seq<char>, Seq<char>)>)
    requires
        distinct_pair_keys(s),
    ensures
        strictly_sorted(sort_by_key(s)),
    decreases s.len(),
{
    if s.len() > 0 {
        let t = s.drop_last();
        assert(distinct_pair_keys(t)) by {
            assert forall|i: int, j: int| 0 <= i < t.len() && 0 <= j < t.len() && i != j implies #[trigger] t[i].0 != #[trigger] t[j].0 by {
                assert(t[i] == s[i] && t[j] == s[j]);
            }
        }
        lemma_sort_by_key_sorted(t);
        lemma_sort_by_key_contents(t);
        let st = sort_by_key(t);
        assert forall|i: int| 0 <= i < st.len() implies (#[trigger] st[i]).0 != s.last().0 by {
            assert(st.contains(st[i]));
            let m = choose|m: int| 0 <= m < t.len() && t[m] == st[i];
            assert(s[m] == st[i]);
        }
        lemma_insert_by_key_sorted(s.last(), st);
    }
}

proof fn lemma_sorted_same_elements_equal(r1: Seq<(Seq<char>, Seq<char>)>, r2: Seq<(Seq<char>, Seq<char>)>)
    requires
        strictly_sorted(r1),
        strictly_sorted(r2),
        forall|x: (Seq<char>, Seq<char>)| r1.contains(x) <==> r2.contains(x),
    ensures
        r1 == r2,
    decreases r1.len() + r2.len(),
{
    if r1.len() == 0 {
        if r2.len() > 0 {
            assert(r2.contains(r2[0]));
        }
        assert(r1 =~= r2);
    } else if r2.len() == 0 {
        assert(r1.contains(r1[0]));
    } else {
        assert(r1.contains(r1[0]));
        assert(r2.contains(r2[0]));
        let j = choose|j: int| 0 <= j < r2.len() && r2[j] == r1[0];
        let i = choose|i: int| 0 <= i < r1.len() && r1[i] == r2[0];
        if j > 0 {
            assert(key_lt(r2[0].0, r2[j].0));
            if i > 0 {
                assert(key_lt(r1[0].0, r1[i].0));
                lemma_key_lt_asymmetric(r1[0].0, r2[0].0);
            } else {
                lemma_key_lt_irreflexive(r1[0].0);
            }
        }
        assert(r1[0] == r2[0]);
        let t1 = r1.drop_first();
        let t2 = r2.drop_first();
        assert(strictly_sorted(t1)) by {
            assert forall|a: int, b: int| 0 <= a < b < t1.len() implies key_lt(#[trigger] t1[a].0, #[trigger] t1[b].0) by {
                assert(t1[a] == r1[a + 1] && t1[b] == r1[b + 1]);
            }
        }
        assert(strictly_sorted(t2)) by {
            assert forall|a: int, b: int| 0 <= a < b < t2.len() implies key_lt(#[trigger] t2[a].0, #[trigger] t2[b].0) by {
                assert(t2[a] == r2[a + 1] && t2[b] == r2[b + 1]);
            }
        }
        assert forall|x: (Seq<char>, Seq<char>)| t1.contains(x) <==> t2.contains(x) by {
            if t1.contains(x) {
                let a = choose|a: int| 0 <= a < t1.len() && t1[a] == x;
                assert(r1[a + 1] == x);
                assert(key_lt(r1[0].0, r1[a + 1].0));
                lemma_key_lt_irreflexive(r1[0].0);
                assert(r2.contains(x));
                let b = choose|b: int| 0 <= b < r2.len() && r2[b] == x;
                assert(b != 0);
                assert(t2[b - 1] == x);
            }
            if t2.contains(x) {
                let a = choose|a: int| 0 <= a < t2.len() && t2[a] == x;
                assert(r2[a + 1] == x);
                assert(key_lt(r2[0].0, r2[a + 1].0));
                lemma_key_lt_irreflexive(r2[0].0);
                assert(r1.contains(x));
                let b = choose|b: int| 0 <= b < r1.len() && r1[b] == x;
                assert(b != 0);
                assert(t1[b - 1] == x);
            }
        }
        lemma_sorted_same_elements_equal(t1, t2);
        assert(r1 =~= seq![r1[0]] + t1);
        assert(r2 =~= seq![r2[0]] + t2);
    }
}

proof fn lemma_rendered_entries_index(s: Seq<(String, JsonValue)>)
    ensures
        rendered_entries(s).len() == s.len(),
        forall|i: int| 0 <= i < s.len() ==> #[trigger] rendered_entries(s)[i] == rendered_entry(
            s[i].0@,
            canonical_spec(s[i].1),
        ),
    decreases s.len(),
{
    if s.len() > 0 {
        lemma_rendered_entries_index(s.drop_last());
    }
}

/// Law: the canonical text of an object does not depend on the order in
/// which its entries are held. Two objects with the same entries, keys
/// distinct, have the same canonical text.
pub proof fn law_canonical_ignores_entry_order(a: Vec<(String, JsonValue)>, b: Vec<(String, JsonValue)>)
    requires
        distinct_keys(a@),
        distinct_keys(b@),
        same_entries(a@, b@),
    ensures
        canonical_spec(JsonValue::Object(a)) == canonical_spec(JsonValue::Object(b)),
{
    let ra = rendered_entries(a@);
    let rb = rendered_entries(b@);
    lemma_rendered_entries_index(a@);
    lemma_rendered_entries_index(b@);
    assert(distinct_pair_keys(ra)) by {
        assert forall|i: int, j: int| 0 <= i < ra.len() && 0 <= j < ra.len() && i != j implies #[trigger] ra[i].0 != #[trigger] ra[j].0 by {
            assert(ra[i].0 == a@[i].0@ && ra[j].0 == a@[j].0@);
        }
    }
    assert(distinct_pair_keys(rb)) by {
        assert forall|i: int, j: int| 0 <= i < rb.len() && 0 <= j < rb.len() && i != j implies #[trigger] rb[i].0 != #[trigger] rb[j].0 by {
            assert(rb[i].0 == b@[i].0@ && rb[j].0 == b@[j].0@);
        }
    }
    assert forall|x: (Seq<char>, Seq<char>)| ra.contains(x) <==> rb.contains(x) by {
        if ra.contains(x) {
            let i = choose|i: int| 0 <= i < ra.len() && ra[i] == x;
            assert(b@.contains(a@[i]));
            let j = choose|j: int| 0 <= j < b@.len() && b@[j] == a@[i];
            assert(rb[j] == x);
        }
        if rb.contains(x) {
            let j = choose|j: int| 0 <= j < rb.len() && rb[j] == x;
            assert(a@.contains(b@[j]));
            let i = choose|i: int| 0 <= i < a@.len() && a@[i] == b@[j];
            assert(ra[i] == x);
        }
    }
    lemma_sort_by_key_sorted(ra);
    lemma_sort_by_key_sorted(rb);
    lemma_sort_by_key_contents(ra);
    lemma_sort_by_key_contents(rb);
    assert forall|x: (Seq<char>, Seq<char>)| sort_by_key(ra).contains(x) <==> sort_by_key(rb).contains(x) by {
        assert(sort_by_key(ra).contains(x) <==> ra.contains(x));
        assert(sort_by_key(rb).contains(x) <==> rb.contains(x));
    }
    lemma_sorted_same_elements_equal(sort_by_key(ra), sort_by_key(rb));
}

} // verus!
