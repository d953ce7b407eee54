//! Character-level string helpers shared by the whole library.
//!
//! Strings are reasoned about through their view, a `Seq<char>`.

use vstd::prelude::*;

verus! {

/// `String::push`: appends one character.
#[verifier::external_body]
pub(crate) fn push_char(s: &mut String, c: char)
    ensures
        final(s)@ == old(s)@.push(c),
{
    s.push(c);
}

/// Appends the characters of `t` to `s`.
pub fn push_str(s: &mut String, t: &str)
    ensures
        final(s)@ == old(s)@ + t@,
{
    s.append(t);
}

/// The characters of a string, one by one.
pub fn chars_of(s: &str) -> (v: Vec<char>)
    ensures
        v@ == s@,
{
    let n = s.unicode_len();
    let mut v: Vec<char> = Vec::new();
    let mut i: usize = 0;
    while i < n
        invariant
            n == s@.len(),
            i <= n,
            v@ == s@.subrange(0, i as int),
        decreases n - i,
    {
        let c = s.get_char(i);
        v.push(c);
        i = i + 1;
        assert(v@ =~= s@.subrange(0, i as int));
    }
    assert(v@ =~= s@);
    v
}

/// Builds a string from a sequence of characters.
pub fn string_of(v: &Vec<char>) -> (s: String)
    ensures
        s@ == v@,
{
    let mut s = String::new();
    let mut i: usize = 0;
    while i < v.len()
        invariant
            i <= v.len(),
            s@ == v@.subrange(0, i as int),
        decreases v.len() - i,
    {
        push_char(&mut s, v[i]);
        i = i + 1;
        assert(s@ =~= v@.subrange(0, i as int));
    }
    assert(s@ =~= v@);
    s
}

/// `t` occurs in `s` at position `i`.
pub open spec fn occurs_at(s: Seq<char>, t: Seq<char>, i: int) -> bool {
    0 <= i && i + t.len() <= s.len() && s.subrange(i, i + t.len()) == t
}

/// `t` occurs somewhere in `s` (the empty string occurs everywhere).
pub open spec fn contains_spec(s: Seq<char>, t: Seq<char>) -> bool {
    exists|i: int| occurs_at(s, t, i)
}

/// `s` begins with `t`.
pub open spec fn starts_with_spec(s: Seq<char>, t: Seq<char>) -> bool {
    t.len() <= s.len() && s.subrange(0, t.len() as int) == t
}

/// `s` ends with `t`.
pub open spec fn ends_with_spec(s: Seq<char>, t: Seq<char>) -> bool {
    t.len() <= s.len() && s.subrange(s.len() - t.len(), s.len() as int) == t
}

fn matches_at(s: &Vec<char>, t: &Vec<char>, i: usize) -> (r: bool)
    requires
        i + t.len() <= s.len(),
    ensures
        r == occurs_at(s@, t@, i as int),
{
    let mut j: usize = 0;
    while j < t.len()
        invariant
            i + t.len() <= s.len(),
            j <= t.len(),
            forall|k: int| 0 <= k < j ==> s@[i + k] == t@[k],
        decreases t.len() - j,
    {
        if s[i + j] != t[j] {
            assert(s@.subrange(i as int, i + t.len())[j as int] != t@[j as int]);
            return false;
        }
        j = j + 1;
    }
    assert(s@.subrange(i as int, i + t.len()) =~= t@);
    true
}

/// Position of the first occurrence of `t` in `s`, if any.
pub fn find_chars(s: &Vec<char>, t: &Vec<char>) -> (r: Option<usize>)
    ensures
        match r {
            Some(i) => occurs_at(s@, t@, i as int) && forall|k: int|
                0 <= k < i ==> !occurs_at(s@, t@, k),
            None => !contains_spec(s@, t@),
        },
{
    if t.len() == 0 {
        assert(s@.subrange(0, 0) =~= t@);
        return Some(0);
    }
    let mut i: usize = 0;
    while i < s.len() && t.len() <= s.len() - i
        invariant
            t.len() > 0,
            i <= s.len(),
            forall|k: int| 0 <= k < i ==> !occurs_at(s@, t@, k),
        decreases s.len() - i,
    {
        if matches_at(s, t, i) {
            return Some(i);
        }
        i = i + 1;
    }
    None
}

/// `t` occurs in `s`.
pub fn contains(s: &str, t: &str) -> (r: bool)
    ensures
        r == contains_spec(s@, t@),
{
    let sv = chars_of(s);
    let tv = chars_of(t);
    find_chars(&sv, &tv).is_some()
}

/// `s` begins with `t`.
pub fn starts_with(s: &str, t: &str) -> (r: bool)
    ensures
        r == starts_with_spec(s@, t@),
{
    let sv = chars_of(s);
    let tv = chars_of(t);
    if tv.len() > sv.len() {
        return false;
    }
    matches_at(&sv, &tv, 0)
}

/// `s` ends with `t`.
pub fn ends_with(s: &str, t: &str) -> (r: bool)
    ensures
        r == ends_with_spec(s@, t@),
{
    let sv = chars_of(s);
    let tv = chars_of(t);
    if tv.len() > sv.len() {
        return false;
    }
    matches_at(&sv, &tv, sv.len() - tv.len())
}

/// The decimal digit for `d < 10`.
pub open spec fn digit_char(d: nat) -> char {
    if d == 0 { '0' }
    else if d == 1 { '1' }
    else if d == 2 { '2' }
    else if d == 3 { '3' }
    else if d == 4 { '4' }
    else if d == 5 { '5' }
    else if d == 6 { '6' }
    else if d == 7 { '7' }
    else if d == 8 { '8' }
    else { '9' }
}

/// The usual decimal rendering of a natural number, without leading zeros.
pub open spec fn decimal_spec(n: nat) -> Seq<char>
    decreases n,
{
    if n < 10 {
        seq![digit_char(n)]
    } else {
        decimal_spec(n / 10).push(digit_char(n % 10))
    }
}

fn digit(d: u64) -> (c: char)
    requires
        d < 10,
    ensures
        c == digit_char(d as nat),
{
    if d == 0 { '0' }
    else if d == 1 { '1' }
    else if d == 2 { '2' }
    else if d == 3 { '3' }
    else if d == 4 { '4' }
    else if d == 5 { '5' }
    else if d == 6 { '6' }
    else if d == 7 { '7' }
    else if d == 8 { '8' }
    else { '9' }
}

fn decimal_chars(n: u64) -> (v: Vec<char>)
    ensures
        v@ == decimal_spec(n as nat),
    decreases n,
{
    if n < 10 {
        let mut v = Vec::new();
        v.push(digit(n));
        v
    } else {
        let mut v = decimal_chars(n / 10);
        v.push(digit(n % 10));
        v
    }
}

/// The decimal text of `n` (what `n.to_string()` gives).
pub fn decimal(n: u64) -> (s: String)
    ensures
        s@ == decimal_spec(n as nat),
{
    let v = decimal_chars(n);
    string_of(&v)
}


/// The lower-case form of a text (Unicode lower-case mapping).
pub uninterp spec fn lowercase(s: Seq<char>) -> Seq<char>;

/// `str::to_lowercase`: the Unicode lower-case form of `s`.
#[verifier::external_body]
pub(crate) fn to_lowercase(s: &str) -> (r: String)
    ensures
        r@ == lowercase(s@),
{
    s.to_lowercase()
}

/// The characters with the Unicode `White_Space` property (what
/// `char::is_whitespace` tests).
pub open spec fn is_white_space(c: char) -> bool {
    ||| ('\u{9}' <= c && c <= '\u{d}')
    ||| c == ' '
    ||| c == '\u{85}'
    ||| c == '\u{a0}'
    ||| c == '\u{1680}'
    ||| ('\u{2000}' <= c && c <= '\u{200a}')
    ||| c == '\u{2028}'
    ||| c == '\u{2029}'
    ||| c == '\u{202f}'
    ||| c == '\u{205f}'
    ||| c == '\u{3000}'
}

fn white_space(c: char) -> (r: bool)
    ensures
        r == is_white_space(c),
{
    (c >= '\u{9}' && c <= '\u{d}') || c == ' ' || c == '\u{85}' || c == '\u{a0}' || c == '\u{1680}'
        || (c >= '\u{2000}' && c <= '\u{200a}') || c == '\u{2028}' || c == '\u{2029}' || c
        == '\u{202f}' || c == '\u{205f}' || c == '\u{3000}'
}

/// `s` without its leading white space.
pub open spec fn trim_start_spec(s: Seq<char>) -> Seq<char>
    decreases s.len(),
{
    if s.len() > 0 && is_white_space(s[0]) {
        trim_start_spec(s.drop_first())
    } else {
        s
    }
}

/// `s` without its trailing white space.
pub open spec fn trim_end_spec(s: Seq<char>) -> Seq<char>
    decreases s.len(),
{
    if s.len() > 0 && is_white_space(s.last()) {
        trim_end_spec(s.drop_last())
    } else {
        s
    }
}

/// `s` without leading and trailing white space (what `str::trim` gives).
pub open spec fn trimmed(s: Seq<char>) -> Seq<char> {
    trim_end_spec(trim_start_spec(s))
}

proof fn lemma_trim_start_from(s: Seq<char>, i: int)
    requires
        0 <= i <= s.len(),
        forall|k: int| 0 <= k < i ==> is_white_space(#[trigger] s[k]),
    ensures
        trim_start_spec(s) == trim_start_spec(s.skip(i)),
    decreases i,
{
    if i > 0 {
        assert(s.skip(i - 1).drop_first() =~= s.skip(i));
        assert(s.skip(i - 1)[0] == s[i - 1]);
        lemma_trim_start_from(s, i - 1);
    } else {
        assert(s.skip(0) =~= s);
    }
}

proof fn lemma_trim_end_to(s: Seq<char>, j: int)
    requires
        0 <= j <= s.len(),
        forall|k: int| j <= k < s.len() ==> is_white_space(#[trigger] s[k]),
    ensures
        trim_end_spec(s) == trim_end_spec(s.take(j)),
    decreases s.len() - j,
{
    if j < s.len() {
        assert(s.take(j + 1).drop_last() =~= s.take(j));
        assert(s.take(j + 1).last() == s[j]);
        lemma_trim_end_to(s, j + 1);
    } else {
        assert(s.take(j) =~= s);
    }
}

/// `str::trim`: `s` without leading and trailing white space.
pub fn trim(s: &str) -> (r: String)
    ensures
        r@ == trimmed(s@),
{
    let v = chars_of(s);
    let mut i: usize = 0;
    while i < v.len() && white_space(v[i])
        invariant
            i <= v.len(),
            forall|k: int| 0 <= k < i ==> is_white_space(#[trigger] v@[k]),
        decreases v.len() - i,
    {
        i = i + 1;
    }
    proof {
        lemma_trim_start_from(v@, i as int);
    }
    let ghost t = v@.skip(i as int);
    let mut j: usize = v.len();
    while j > i && white_space(v[j - 1])
        invariant
            i <= j <= v.len(),
            t == v@.skip(i as int),
            forall|k: int| j - i <= k < t.len() ==> is_white_space(#[trigger] t[k]),
        decreases j,
    {
        j = j - 1;
    }
    proof {
        if i < v.len() {
            assert(!is_white_space(t[0]));
        }
        lemma_trim_end_to(t, j - i);
        if j > i {
            assert(t.take(j - i).last() == t[j - i - 1]);
        }
        assert(trim_start_spec(v@.skip(i as int)) == v@.skip(i as int));
    }
    let mut out: Vec<char> = Vec::new();
    let mut k: usize = i;
    while k < j
        invariant
            i <= k <= j <= v.len(),
            out@ == v@.subrange(i as int, k as int),
        decreases j - k,
    {
        out.push(v[k]);
        k = k + 1;
        assert(out@ =~= v@.subrange(i as int, k as int));
    }
    assert(out@ =~= t.take(j - i));
    string_of(&out)
}

/// `s` with every occurrence of `from` replaced by `to`, scanning from the
/// left and never reusing a replaced character (what `str::replace` gives
/// for a non-empty `from`).
pub open spec fn replace_spec(s: Seq<char>, from: Seq<char>, to: Seq<char>) -> Seq<char>
    decreases s.len(),
{
    if s.len() == 0 {
        s
    } else if from.len() > 0 && starts_with_spec(s, from) {
        to + replace_spec(s.skip(from.len() as int), from, to)
    } else {
        seq![s[0]] + replace_spec(s.drop_first(), from, to)
    }
}

/// `str::replace` for a non-empty pattern.
pub fn replace(s: &str, from: &str, to: &str) -> (r: String)
    requires
        from@.len() > 0,
    ensures
        r@ == replace_spec(s@, from@, to@),
{
    let v = chars_of(s);
    let f = chars_of(from);
    let mut out = String::new();
    let mut i: usize = 0;
    proof {
        assert(v@.skip(0) =~= v@);
        assert(out@ + replace_spec(v@, from@, to@) =~= replace_spec(v@, from@, to@));
    }
    while i < v.len()
        invariant
            i <= v.len(),
            f@ == from@,
            f@.len() > 0,
            out@ + replace_spec(v@.skip(i as int), from@, to@) == replace_spec(v@, from@, to@),
        decreases v.len() - i,
    {
        let ghost rest = v@.skip(i as int);
        if f.len() <= v.len() - i && matches_at(&v, &f, i) {
            proof {
                assert(rest.subrange(0, f@.len() as int) =~= v@.subrange(i as int, i + f@.len()));
                assert(rest.skip(f@.len() as int) =~= v@.skip(i + f@.len()));
            }
            push_str(&mut out, to);
            i = i + f.len();
        } else {
            proof {
                if starts_with_spec(rest, f@) {
                    assert(rest.subrange(0, f@.len() as int) =~= v@.subrange(i as int, i + f@.len()));
                }
                assert(rest.drop_first() =~= v@.skip(i + 1));
                assert(rest[0] == v@[i as int]);
            }
            push_char(&mut out, v[i]);
            i = i + 1;
        }
    }
    assert(out@ + replace_spec(v@.skip(i as int), from@, to@) == out@ + Seq::<char>::empty());
    assert(out@ + Seq::<char>::empty() =~= out@);
    out
}

} // verus!
