//! Probe generation: WhatsMyName sites turned into probes, and the report
//! of a conversion run.

use vstd::prelude::*;
use crate::probe::schema::{
    Assertion, Category, DataSource, DecisionRules, Method, Probe, ProbeId, ProbeQuality,
    RequestTemplate, SelectorKind,
};
use crate::text::{chars_of, decimal, decimal_spec, lowercase, push_char, push_str, replace, replace_spec, string_of, to_lowercase};

verus! {

// ---------------------------------------------------------------------------
// Conversion report
// ---------------------------------------------------------------------------

/// A site left out, and why.
#[derive(Debug, Clone)]
pub struct RejectionEntry {
    pub name: String,
    pub reason: String,
}

/// An error of a source.
#[derive(Debug, Clone)]
pub struct ErrorEntry {
    pub source: String,
    pub error: String,
}

/// What a conversion did with one source.
#[derive(Debug, Clone)]
pub struct SourceReport {
    pub converted: usize,
    pub rejected: usize,
    pub rejected_details: Vec<RejectionEntry>,
}

/// Report of a conversion run: per source (each named once), and the
/// errors.
#[derive(Debug, Clone)]
pub struct ConversionReport {
    pub sources: Vec<(String, SourceReport)>,
    pub errors: Vec<ErrorEntry>,
}

/// No source is named twice.
pub open spec fn unique_sources(s: Seq<(String, SourceReport)>) -> bool {
    forall|i: int, j: int| 0 <= i < j < s.len() ==> s[i].0@ != s[j].0@
}

/// Probes converted over all sources.
pub open spec fn converted_total(s: Seq<(String, SourceReport)>) -> nat
    decreases s.len(),
{
    if s.len() == 0 {
        0
    } else {
        converted_total(s.drop_last()) + s.last().1.converted as nat
    }
}

/// Sites rejected over all sources.
pub open spec fn rejected_total(s: Seq<(String, SourceReport)>) -> nat
    decreases s.len(),
{
    if s.len() == 0 {
        0
    } else {
        rejected_total(s.drop_last()) + s.last().1.rejected as nat
    }
}

/// Index of the source named `name`, if any.
pub open spec fn source_index(s: Seq<(String, SourceReport)>, name: Seq<char>) -> Option<int>
    decreases s.len(),
{
    if s.len() == 0 {
        None
    } else if s.last().0@ == name {
        Some(s.len() - 1)
    } else {
        source_index(s.drop_last(), name)
    }
}

proof fn lemma_source_index(s: Seq<(String, SourceReport)>, name: Seq<char>)
    requires
        unique_sources(s),
    ensures
        match source_index(s, name) {
            Some(j) => 0 <= j < s.len() && s[j].0@ == name,
            None => forall|k: int| 0 <= k < s.len() ==> s[k].0@ != name,
        },
        forall|k: int| 0 <= k < s.len() && s[k].0@ == name ==> source_index(s, name) == Some(k),
    decreases s.len(),
{
    if s.len() > 0 {
        let t = s.drop_last();
        assert(unique_sources(t)) by {
            assert forall|i: int, j: int| 0 <= i < j < t.len() implies t[i].0@ != t[j].0@ by {
                assert(t[i] == s[i] && t[j] == s[j]);
            }
        }
        lemma_source_index(t, name);
        assert forall|k: int| 0 <= k < s.len() && s[k].0@ == name implies source_index(s, name) == Some(k) by {
            if k < s.len() - 1 {
                assert(t[k] == s[k]);
                assert(s[k].0@ != s[s.len() - 1].0@);
            }
        }
        if source_index(s, name) is None {
            assert forall|k: int| 0 <= k < s.len() implies s[k].0@ != name by {
                if k < s.len() - 1 {
                    assert(t[k] == s[k]);
                }
            }
        }
    }
}

/// What a report holds for the source named `name`: its converted and
/// rejected counts and its rejection details, or zeros and none when the
/// report does not name it.
pub open spec fn source_counts(s: Seq<(String, SourceReport)>, name: Seq<char>) -> (nat, nat, Seq<RejectionEntry>) {
    match source_index(s, name) {
        Some(j) => (s[j].1.converted as nat, s[j].1.rejected as nat, s[j].1.rejected_details@),
        None => (0, 0, Seq::empty()),
    }
}

/// Renaming nothing keeps every source at its place.
proof fn lemma_same_names_same_index(s: Seq<(String, SourceReport)>, t: Seq<(String, SourceReport)>, name: Seq<char>)
    requires
        s.len() == t.len(),
        forall|k: int| 0 <= k < s.len() ==> (#[trigger] s[k]).0@ == t[k].0@,
    ensures
        source_index(s, name) == source_index(t, name),
    decreases s.len(),
{
    if s.len() > 0 {
        assert(s.last().0@ == t.last().0@) by {
            assert(s[s.len() - 1].0@ == t[t.len() - 1].0@);
        }
        assert forall|k: int| 0 <= k < s.drop_last().len() implies (#[trigger] s.drop_last()[k]).0@ == t.drop_last()[k].0@ by {
            assert(s[k].0@ == t[k].0@);
        }
        lemma_same_names_same_index(s.drop_last(), t.drop_last(), name);
    }
}

/// What a report holds for each source after one more is appended.
proof fn lemma_counts_push(t: Seq<(String, SourceReport)>, x: (String, SourceReport), n: Seq<char>)
    ensures
        source_counts(t.push(x), n) == if n == x.0@ {
            (x.1.converted as nat, x.1.rejected as nat, x.1.rejected_details@)
        } else {
            source_counts(t, n)
        },
{
    assert(t.push(x).drop_last() =~= t);
    if n != x.0@ {
        if source_index(t, n) is Some {
            let k = source_index(t, n)->0;
            lemma_source_index_bounds(t, n);
            assert(t.push(x)[k] == t[k]);
        }
    }
}

proof fn lemma_source_index_bounds(t: Seq<(String, SourceReport)>, n: Seq<char>)
    ensures
        source_index(t, n) matches Some(k) ==> 0 <= k < t.len() && t[k].0@ == n,
    decreases t.len(),
{
    if t.len() > 0 && t.last().0@ != n {
        lemma_source_index_bounds(t.drop_last(), n);
        if source_index(t.drop_last(), n) is Some {
            let k = source_index(t.drop_last(), n)->0;
            assert(t.drop_last()[k] == t[k]);
        }
    }
}

/// What a report holds for each source after the entry at `j` is replaced
/// by one of the same name.
proof fn lemma_counts_update(t: Seq<(String, SourceReport)>, j: int, x: (String, SourceReport), n: Seq<char>)
    requires
        unique_sources(t),
        0 <= j < t.len(),
        t[j].0@ == x.0@,
    ensures
        source_counts(t.update(j, x), n) == if n == x.0@ {
            (x.1.converted as nat, x.1.rejected as nat, x.1.rejected_details@)
        } else {
            source_counts(t, n)
        },
{
    let u = t.update(j, x);
    assert forall|k: int| 0 <= k < t.len() implies (#[trigger] t[k]).0@ == u[k].0@ by {}
    lemma_same_names_same_index(t, u, n);
    lemma_source_index(t, n);
    lemma_source_index_bounds(t, n);
}

/// A prefix of a report without repeated names has none either.
proof fn lemma_unique_prefix(s: Seq<(String, SourceReport)>, i: int)
    requires
        unique_sources(s),
        0 <= i <= s.len(),
    ensures
        unique_sources(s.take(i)),
{
    assert forall|a: int, b: int| 0 <= a < b < s.take(i).len() implies s.take(i)[a].0@ != s.take(i)[b].0@ by {
        assert(s.take(i)[a] == s[a] && s.take(i)[b] == s[b]);
    }
}

proof fn lemma_totals_update(s: Seq<(String, SourceReport)>, j: int, x: (String, SourceReport))
    requires
        0 <= j < s.len(),
    ensures
        converted_total(s.update(j, x)) + s[j].1.converted == converted_total(s) + x.1.converted,
        rejected_total(s.update(j, x)) + s[j].1.rejected == rejected_total(s) + x.1.rejected,
    decreases s.len(),
{
    let u = s.update(j, x);
    if j == s.len() - 1 {
        assert(u.drop_last() =~= s.drop_last());
    } else {
        assert(u.drop_last() =~= s.drop_last().update(j, x));
        lemma_totals_update(s.drop_last(), j, x);
    }
}

proof fn lemma_entry_below_totals(s: Seq<(String, SourceReport)>, j: int)
    requires
        0 <= j < s.len(),
    ensures
        s[j].1.converted <= converted_total(s),
        s[j].1.rejected <= rejected_total(s),
    decreases s.len(),
{
    if j < s.len() - 1 {
        lemma_entry_below_totals(s.drop_last(), j);
    }
}

/// The summary sentence.
pub open spec fn summary_spec(converted: nat, rejected: nat, errors: nat) -> Seq<char> {
    "Total: "@ + decimal_spec(converted) + " sondes converties, "@ + decimal_spec(rejected) + " rejetées, "@
        + decimal_spec(errors) + " erreurs"@
}

impl ConversionReport {
    /// An empty report.
    pub fn new() -> (r: ConversionReport)
        ensures
            r.sources@.len() == 0,
            r.errors@.len() == 0,
    {
        ConversionReport { sources: Vec::new(), errors: Vec::new() }
    }

    /// Position of the source named `source`, if any.
    fn find(&self, source: &str) -> (r: Option<usize>)
        requires
            unique_sources(self.sources@),
        ensures
            match r {
                Some(j) => source_index(self.sources@, source@) == Some(j as int),
                None => source_index(self.sources@, source@) is None,
            },
    {
        proof {
            lemma_source_index(self.sources@, source@);
        }
        let target = String::from_str(source);
        let mut i: usize = 0;
        while i < self.sources.len()
            invariant
                i <= self.sources.len(),
                target@ == source@,
                forall|k: int| 0 <= k < i ==> self.sources@[k].0@ != source@,
                forall|k: int| 0 <= k < self.sources@.len() && self.sources@[k].0@ == source@ ==> source_index(self.sources@, source@) == Some(k),
                match source_index(self.sources@, source@) {
                    Some(j) => 0 <= j < self.sources@.len() && self.sources@[j].0@ == source@,
                    None => forall|k: int| 0 <= k < self.sources@.len() ==> self.sources@[k].0@ != source@,
                },
            decreases self.sources.len() - i,
        {
            if self.sources[i].0 == target {
                return Some(i);
            }
            i = i + 1;
        }
        None
    }

    /// Records a site of `source` left out, and why.
    pub fn reject(&mut self, source: &str, name: String, reason: String)
        requires
            unique_sources(old(self).sources@),
            rejected_total(old(self).sources@) < usize::MAX,
        ensures
            unique_sources(final(self).sources@),
            converted_total(final(self).sources@) == converted_total(old(self).sources@),
            rejected_total(final(self).sources@) == rejected_total(old(self).sources@) + 1,
            final(self).errors == old(self).errors,
            match source_index(old(self).sources@, source@) {
                Some(j) => {
                    &&& final(self).sources@.len() == old(self).sources@.len()
                    &&& forall|k: int| 0 <= k < old(self).sources@.len() && k != j ==> final(self).sources@[k] == old(self).sources@[k]
                    &&& final(self).sources@[j].0 == old(self).sources@[j].0
                    &&& final(self).sources@[j].1.converted == old(self).sources@[j].1.converted
                    &&& final(self).sources@[j].1.rejected == old(self).sources@[j].1.rejected + 1
                    &&& final(self).sources@[j].1.rejected_details@ == old(self).sources@[j].1.rejected_details@.push(
                        RejectionEntry { name, reason },
                    )
                },
                None => {
                    let n = old(self).sources@.len() as int;
                    &&& final(self).sources@.len() == n + 1
                    &&& final(self).sources@.take(n) == old(self).sources@
                    &&& final(self).sources@[n].0@ == source@
                    &&& final(self).sources@[n].1.converted == 0
                    &&& final(self).sources@[n].1.rejected == 1
                    &&& final(self).sources@[n].1.rejected_details@ == seq![RejectionEntry { name, reason }]
                },
            },
    {
        let ghost old_s = self.sources@;
        let ghost entry = RejectionEntry { name, reason };
        proof {
            lemma_source_index(old_s, source@);
        }
        match self.find(source) {
            Some(j) => {
                proof {
                    lemma_entry_below_totals(old_s, j as int);
                }
                let (key, mut rep) = self.sources.remove(j);
                rep.rejected = rep.rejected + 1;
                rep.rejected_details.push(RejectionEntry { name, reason });
                self.sources.insert(j, (key, rep));
                proof {
                    let x = self.sources@[j as int];
                    assert(self.sources@ =~= old_s.update(j as int, x));
                    lemma_totals_update(old_s, j as int, x);
                    assert forall|a: int, b: int| 0 <= a < b < self.sources@.len() implies self.sources@[a].0@
                        != self.sources@[b].0@ by {
                        assert(self.sources@[a].0 == old_s[a].0 && self.sources@[b].0 == old_s[b].0);
                    }
                }
            },
            None => {
                let mut details: Vec<RejectionEntry> = Vec::new();
                details.push(RejectionEntry { name, reason });
                self.sources.push(
                    (String::from_str(source), SourceReport { converted: 0, rejected: 1, rejected_details: details }),
                );
                proof {
                    assert(self.sources@.drop_last() =~= old_s);
                    assert(self.sources@.take(old_s.len() as int) =~= old_s);
                    assert forall|a: int, b: int| 0 <= a < b < self.sources@.len() implies self.sources@[a].0@
                        != self.sources@[b].0@ by {
                        if b == old_s.len() {
                            assert(self.sources@[a] == old_s[a]);
                        } else {
                            assert(self.sources@[a] == old_s[a] && self.sources@[b] == old_s[b]);
                        }
                    }
                }
            },
        }
    }

    /// Records an error of `source`.
    pub fn error(&mut self, source: &str, error: String)
        ensures
            final(self).sources == old(self).sources,
            final(self).errors@.len() == old(self).errors@.len() + 1,
            final(self).errors@.take(old(self).errors@.len() as int) == old(self).errors@,
            final(self).errors@.last().source@ == source@,
            final(self).errors@.last().error == error,
    {
        self.errors.push(ErrorEntry { source: String::from_str(source), error });
        assert(self.errors@.take(self.errors@.len() - 1) =~= old(self).errors@);
    }

    /// Adds the counts, rejections and errors of another report.
    pub fn merge(&mut self, other: ConversionReport)
        requires
            unique_sources(old(self).sources@),
            unique_sources(other.sources@),
            converted_total(old(self).sources@) + converted_total(other.sources@) <= usize::MAX,
            rejected_total(old(self).sources@) + rejected_total(other.sources@) <= usize::MAX,
        ensures
            unique_sources(final(self).sources@),
            forall|n: Seq<char>|
                (#[trigger] source_index(final(self).sources@, n) is Some) <==> (source_index(old(self).sources@, n) is Some
                    || source_index(other.sources@, n) is Some),
            forall|n: Seq<char>| {
                let f = #[trigger] source_counts(final(self).sources@, n);
                let a = source_counts(old(self).sources@, n);
                let b = source_counts(other.sources@, n);
                &&& f.0 == a.0 + b.0
                &&& f.1 == a.1 + b.1
                &&& f.2 == a.2 + b.2
            },
            converted_total(final(self).sources@) == converted_total(old(self).sources@) + converted_total(
                other.sources@,
            ),
            rejected_total(final(self).sources@) == rejected_total(old(self).sources@) + rejected_total(
                other.sources@,
            ),
            final(self).errors@ == old(self).errors@ + other.errors@,
    {
        let ghost s0 = self.sources@;
        let ConversionReport { sources: other_sources, errors: other_errors } = other;
        let ghost os = other_sources@;
        let ghost c0 = converted_total(self.sources@);
        let ghost r0 = rejected_total(self.sources@);
        let mut rest = other_sources;
        let mut taken: Vec<(String, SourceReport)> = Vec::new();
        // Take the other report's sources from the back, keeping them in order.
        while rest.len() > 0
            invariant
                rest@ + taken@.reverse() == os,
            decreases rest.len(),
        {
            let ghost b_rest = rest@;
            let ghost b_taken = taken@;
            let x = rest.pop().unwrap();
            taken.push(x);
            proof {
                assert(rest@ == b_rest.drop_last());
                assert(b_rest.last() == x);
                assert(taken@ == b_taken.push(x));
                assert(taken@.reverse() =~= seq![x] + b_taken.reverse());
                assert(rest@ + taken@.reverse() =~= b_rest.drop_last() + seq![x] + b_taken.reverse());
                assert(b_rest.drop_last() + seq![x] =~= b_rest);
            }
        }
        assert(rest@ =~= Seq::<(String, SourceReport)>::empty());
        assert(taken@.reverse() =~= os);
        let ghost mut done: int = 0;
        assert(os.skip(0) =~= os);
        assert(os.take(0) =~= Seq::<(String, SourceReport)>::empty());
        while taken.len() > 0
            invariant
                self.errors == old(self).errors,
                unique_sources(self.sources@),
                0 <= done <= os.len(),
                taken@.reverse() == os.skip(done),
                converted_total(self.sources@) == c0 + converted_total(os.take(done)),
                rejected_total(self.sources@) == r0 + rejected_total(os.take(done)),
                c0 + converted_total(os) <= usize::MAX,
                r0 + rejected_total(os) <= usize::MAX,
                unique_sources(os),
                forall|n: Seq<char>|
                    (#[trigger] source_index(self.sources@, n) is Some) <==> (source_index(s0, n) is Some
                        || source_index(os.take(done), n) is Some),
                forall|n: Seq<char>| {
                    let f = #[trigger] source_counts(self.sources@, n);
                    let a = source_counts(s0, n);
                    let b = source_counts(os.take(done), n);
                    &&& f.0 == a.0 + b.0
                    &&& f.1 == a.1 + b.1
                    &&& f.2 == a.2 + b.2
                },
            decreases taken.len(),
        {
            let ghost b_taken = taken@;
            let (source, report) = taken.pop().unwrap();
            proof {
                assert(b_taken.reverse().len() == b_taken.len());
                assert(os.skip(done).len() == os.len() - done);
                assert(done < os.len());
                assert(b_taken.reverse()[0] == b_taken.last());
                assert(os.skip(done)[0] == os[done]);
                assert(os[done] == (source, report));
                assert(os.take(done + 1).drop_last() =~= os.take(done));
                assert(taken@ =~= b_taken.drop_last());
                assert(taken@.reverse() =~= b_taken.reverse().drop_first());
                assert(os.skip(done).drop_first() =~= os.skip(done + 1));
                assert(taken@.reverse() =~= os.skip(done + 1));
                lemma_prefix_totals(os, done + 1);
            }
            let ghost before = self.sources@;
            let ghost pre = os.take(done);
            let ghost post = os.take(done + 1);
            proof {
                lemma_source_index(before, source@);
                lemma_unique_prefix(os, done);
                lemma_unique_prefix(os, done + 1);
                lemma_source_index(pre, source@);
                assert(post.drop_last() =~= pre);
                assert(post.last() == (source, report));
                // The other report names `source` once: not before `done`.
                assert(source_index(pre, source@) is None) by {
                    if source_index(pre, source@) is Some {
                        let k = source_index(pre, source@)->0;
                        assert(pre[k] == os[k]);
                        assert(os[k].0@ != os[done].0@);
                    }
                }
                assert forall|n: Seq<char>| #[trigger] source_index(post, n) == (if n == source@ {
                    Some(done)
                } else {
                    source_index(pre, n)
                }) by {}
            }
            match self.find(source.as_str()) {
                Some(j) => {
                    proof {
                        lemma_entry_below_totals(before, j as int);
                    }
                    let (key, mut rep) = self.sources.remove(j);
                    rep.converted = rep.converted + report.converted;
                    rep.rejected = rep.rejected + report.rejected;
                    let mut details = report.rejected_details;
                    rep.rejected_details.append(&mut details);
                    self.sources.insert(j, (key, rep));
                    proof {
                        let x = self.sources@[j as int];
                        assert(self.sources@ =~= before.update(j as int, x));
                        lemma_totals_update(before, j as int, x);
                        assert forall|a: int, b: int| 0 <= a < b < self.sources@.len() implies self.sources@[a].0@
                            != self.sources@[b].0@ by {
                            assert(self.sources@[a].0 == before[a].0 && self.sources@[b].0 == before[b].0);
                        }
                        assert forall|n: Seq<char>| #[trigger] source_index(self.sources@, n) == source_index(before, n) by {
                            assert forall|k: int| 0 <= k < self.sources@.len() implies (#[trigger] self.sources@[k]).0@ == before[k].0@ by {}
                            lemma_same_names_same_index(self.sources@, before, n);
                        }
                        assert forall|n: Seq<char>| n != source@ implies #[trigger] source_counts(self.sources@, n) == source_counts(before, n) by {
                            if source_index(before, n) is Some {
                                lemma_source_index(before, n);
                                let k = source_index(before, n)->0;
                                assert(k != j);
                            }
                        }
                        assert(x.1.rejected_details@ == before[j as int].1.rejected_details@ + report.rejected_details@);
                        assert forall|n: Seq<char>| {
                            let f = #[trigger] source_counts(self.sources@, n);
                            let a = source_counts(s0, n);
                            let b = source_counts(post, n);
                            &&& f.0 == a.0 + b.0
                            &&& f.1 == a.1 + b.1
                            &&& f.2 == a.2 + b.2
                        } by {
                            lemma_counts_update(before, j as int, x, n);
                            lemma_counts_push(pre, (source, report), n);
                            assert(post == pre.push((source, report)));
                            if n == source@ {
                                assert(source_counts(before, n) == (before[j as int].1.converted as nat, before[j as int].1.rejected as nat, before[j as int].1.rejected_details@));
                                assert(source_counts(s0, n).2 + source_counts(post, n).2 =~= (source_counts(s0, n).2 + source_counts(pre, n).2) + report.rejected_details@);
                            }
                        }
                    }
                },
                None => {
                    self.sources.push((source, report));
                    proof {
                        assert(self.sources@.drop_last() =~= before);
                        assert forall|n: Seq<char>| #[trigger] source_index(self.sources@, n) == (if n == source@ {
                            Some(before.len() as int)
                        } else {
                            source_index(before, n)
                        }) by {}
                        assert forall|n: Seq<char>| {
                            let f = #[trigger] source_counts(self.sources@, n);
                            let a = source_counts(s0, n);
                            let b = source_counts(post, n);
                            &&& f.0 == a.0 + b.0
                            &&& f.1 == a.1 + b.1
                            &&& f.2 == a.2 + b.2
                        } by {
                            lemma_counts_push(before, (source, report), n);
                            lemma_counts_push(pre, (source, report), n);
                            assert(post == pre.push((source, report)));
                            assert(self.sources@ == before.push((source, report)));
                            if n == source@ {
                                assert(source_counts(s0, n).2 + source_counts(pre, n).2 == source_counts(before, n).2);
                                assert(source_counts(s0, n).2 =~= Seq::<RejectionEntry>::empty());
                                assert(source_counts(pre, n).2 =~= Seq::<RejectionEntry>::empty());
                                assert(source_counts(s0, n).2 + source_counts(post, n).2 =~= source_counts(post, n).2);
                            }
                        }
                        assert forall|a: int, b: int| 0 <= a < b < self.sources@.len() implies self.sources@[a].0@
                            != self.sources@[b].0@ by {
                            if b == before.len() {
                                assert(self.sources@[a] == before[a]);
                            } else {
                                assert(self.sources@[a] == before[a] && self.sources@[b] == before[b]);
                            }
                        }
                    }
                },
            }
            proof {
                done = done + 1;
            }
        }
        proof {
            assert(os.skip(done).len() == 0);
            assert(os.take(done) =~= os);
        }
        let mut errs = other_errors;
        self.errors.append(&mut errs);
    }

    /// `Total: N sondes converties, M rejetées, E erreurs`.
    pub fn summary(&self) -> (r: String)
        requires
            converted_total(self.sources@) <= usize::MAX,
            rejected_total(self.sources@) <= usize::MAX,
        ensures
            r@ == summary_spec(converted_total(self.sources@), rejected_total(self.sources@), self.errors@.len()),
    {
        let mut conv: usize = 0;
        let mut rej: usize = 0;
        let mut i: usize = 0;
        while i < self.sources.len()
            invariant
                i <= self.sources.len(),
                conv == converted_total(self.sources@.take(i as int)),
                rej == rejected_total(self.sources@.take(i as int)),
                converted_total(self.sources@) <= usize::MAX,
                rejected_total(self.sources@) <= usize::MAX,
            decreases self.sources.len() - i,
        {
            proof {
                assert(self.sources@.take(i + 1).drop_last() =~= self.sources@.take(i as int));
                lemma_prefix_totals(self.sources@, i + 1);
            }
            conv = conv + self.sources[i].1.converted;
            rej = rej + self.sources[i].1.rejected;
            i = i + 1;
        }
        assert(self.sources@.take(i as int) =~= self.sources@);
        let mut r = String::from_str("Total: ");
        push_str(&mut r, decimal(conv as u64).as_str());
        push_str(&mut r, " sondes converties, ");
        push_str(&mut r, decimal(rej as u64).as_str());
        push_str(&mut r, " rejetées, ");
        push_str(&mut r, decimal(self.errors.len() as u64).as_str());
        push_str(&mut r, " erreurs");
        r
    }
}

proof fn lemma_prefix_totals(s: Seq<(String, SourceReport)>, i: int)
    requires
        0 <= i <= s.len(),
    ensures
        converted_total(s.take(i)) <= converted_total(s),
        rejected_total(s.take(i)) <= rejected_total(s),
    decreases s.len(),
{
    if i < s.len() {
        assert(s.drop_last().take(i) =~= s.take(i));
        lemma_prefix_totals(s.drop_last(), i);
    } else {
        assert(s.take(i) =~= s);
    }
}

// ---------------------------------------------------------------------------
// WhatsMyName conversion
// ---------------------------------------------------------------------------

/// A site of the WhatsMyName data file.
#[derive(Debug, Clone)]
pub struct WmnSite {
    pub name: String,
    pub uri_check: String,
    pub uri: Option<String>,
    pub category: Option<String>,
    pub e_code: Option<u16>,
    pub e_string: Option<String>,
    pub m_string: Option<String>,
    pub regex_check: Option<String>,
    pub url: Option<String>,
    pub known: Option<Vec<String>>,
}

/// The category a WhatsMyName category name stands for; any other (or
/// none) is `Other`.
pub open spec fn category_of(cat: Option<Seq<char>>) -> Category {
    match cat {
        None => Category::Other,
        Some(c) => if c == "social"@ {
            Category::Social
        } else if c == "dev"@ {
            Category::Dev
        } else if c == "gaming"@ {
            Category::Gaming
        } else if c == "forum"@ {
            Category::Forum
        } else if c == "finance"@ {
            Category::Finance
        } else if c == "shopping"@ {
            Category::Shopping
        } else if c == "news"@ {
            Category::News
        } else if c == "education"@ {
            Category::Education
        } else if c == "music"@ {
            Category::Music
        } else if c == "video"@ {
            Category::Video
        } else if c == "dating"@ {
            Category::Dating
        } else if c == "adult"@ {
            Category::Adult
        } else {
            Category::Other
        },
    }
}

/// The name WhatsMyName gives a category (`other` for the rest).
pub open spec fn wmn_category_name(k: Category) -> Seq<char> {
    match k {
        Category::Social => "social"@,
        Category::Dev => "dev"@,
        Category::Gaming => "gaming"@,
        Category::Forum => "forum"@,
        Category::Adult => "adult"@,
        Category::Finance => "finance"@,
        Category::Shopping => "shopping"@,
        Category::News => "news"@,
        Category::Education => "education"@,
        Category::Music => "music"@,
        Category::Video => "video"@,
        Category::Dating => "dating"@,
        Category::Other => "other"@,
    }
}

/// Law: every category is read back from its WhatsMyName name, so each
/// known name gives its own category and none of them gives `Other`.
pub proof fn law_category_names_read_back(k: Category)
    ensures
        category_of(Some(wmn_category_name(k))) == k,
        k != Category::Other ==> category_of(Some(wmn_category_name(k))) != Category::Other,
{
    reveal_strlit("social");
    reveal_strlit("dev");
    reveal_strlit("gaming");
    reveal_strlit("forum");
    reveal_strlit("adult");
    reveal_strlit("finance");
    reveal_strlit("shopping");
    reveal_strlit("news");
    reveal_strlit("education");
    reveal_strlit("music");
    reveal_strlit("video");
    reveal_strlit("dating");
    reveal_strlit("other");
    assert("social"@.len() == 6 && "social"@[0] == 's');
    assert("dev"@.len() == 3 && "dev"@[0] == 'd');
    assert("gaming"@.len() == 6 && "gaming"@[0] == 'g');
    assert("forum"@.len() == 5 && "forum"@[0] == 'f');
    assert("adult"@.len() == 5 && "adult"@[0] == 'a');
    assert("finance"@.len() == 7 && "finance"@[0] == 'f');
    assert("shopping"@.len() == 8 && "shopping"@[0] == 's');
    assert("news"@.len() == 4 && "news"@[0] == 'n');
    assert("education"@.len() == 9 && "education"@[0] == 'e');
    assert("music"@.len() == 5 && "music"@[0] == 'm');
    assert("video"@.len() == 5 && "video"@[0] == 'v');
    assert("dating"@.len() == 6 && "dating"@[0] == 'd');
    assert("other"@.len() == 5 && "other"@[0] == 'o');
}

/// The category of a site.
pub fn parse_category(cat: Option<&str>) -> (r: Category)
    ensures
        r == category_of(
            match cat {
                None => None,
                Some(c) => Some(c@),
            },
        ),
{
    match cat {
        None => Category::Other,
        Some(c) => {
            let t = String::from_str(c);
            if t == String::from_str("social") {
                Category::Social
            } else if t == String::from_str("dev") {
                Category::Dev
            } else if t == String::from_str("gaming") {
                Category::Gaming
            } else if t == String::from_str("forum") {
                Category::Forum
            } else if t == String::from_str("finance") {
                Category::Finance
            } else if t == String::from_str("shopping") {
                Category::Shopping
            } else if t == String::from_str("news") {
                Category::News
            } else if t == String::from_str("education") {
                Category::Education
            } else if t == String::from_str("music") {
                Category::Music
            } else if t == String::from_str("video") {
                Category::Video
            } else if t == String::from_str("dating") {
                Category::Dating
            } else if t == String::from_str("adult") {
                Category::Adult
            } else {
                Category::Other
            }
        },
    }
}

/// Whether `char::is_alphanumeric` holds of a character (Unicode
/// `Alphabetic` or `Numeric`).
pub uninterp spec fn alphanumeric(c: char) -> bool;

/// `char::is_alphanumeric`.
#[verifier::external_body]
fn is_alphanumeric(c: char) -> (r: bool)
    ensures
        r == alphanumeric(c),
{
    c.is_alphanumeric()
}

/// A character kept in a probe identifier.
pub open spec fn name_char(c: char) -> bool {
    alphanumeric(c) || c == '_' || c == '-'
}

/// The characters of `s` kept in a probe identifier, in order.
pub open spec fn keep_name_chars(s: Seq<char>) -> Seq<char>
    decreases s.len(),
{
    if s.len() == 0 {
        Seq::empty()
    } else if name_char(s.last()) {
        keep_name_chars(s.drop_last()).push(s.last())
    } else {
        keep_name_chars(s.drop_last())
    }
}

/// A site name as it stands in a probe identifier: in lower case, with only
/// its letters, digits, `_` and `-`.
pub fn normalize_name(name: &str) -> (r: String)
    ensures
        r@ == keep_name_chars(lowercase(name@)),
{
    let lower = to_lowercase(name);
    let v = chars_of(lower.as_str());
    let mut out: Vec<char> = Vec::new();
    let mut i: usize = 0;
    while i < v.len()
        invariant
            i <= v.len(),
            out@ == keep_name_chars(v@.take(i as int)),
        decreases v.len() - i,
    {
        proof {
            assert(v@.take(i + 1).drop_last() =~= v@.take(i as int));
            assert(v@.take(i + 1).last() == v@[i as int]);
        }
        let c = v[i];
        if is_alphanumeric(c) || c == '_' || c == '-' {
            out.push(c);
        }
        i = i + 1;
    }
    assert(v@.take(i as int) =~= v@);
    string_of(&out)
}

/// The probe a site gives: `200` (or the site's existing code), or the
/// site's text of an existing account in the page, means the account
/// exists; the site's text of a missing account means it is missing; `403`
/// and `429` mean the site blocks us.
pub open spec fn converted_probe(p: Probe, site: WmnSite, source_hash: Seq<char>) -> bool {
    &&& p.id.0@ == "wmn:"@ + keep_name_chars(lowercase(site.name@))
    &&& p.site_name == site.name
    &&& p.category == category_of(
        match site.category {
            None => None,
            Some(c) => Some(c@),
        },
    )
    &&& p.selector_kind == SelectorKind::Username
    &&& p.request.method == Method::Get
    &&& p.request.url@ == replace_spec(site.uri_check@, "{account}"@, "{selector}"@)
    &&& p.request.headers@.len() == 0
    &&& p.request.body is None
    &&& p.request.follow_redirects
    &&& p.request.timeout_ms == 30000
    &&& p.decision.exists_if@.len() == 1 + (if site.e_string is Some { 1int } else { 0 })
    &&& p.decision.exists_if@[0] == Assertion::StatusCode(
        match site.e_code {
            Some(c) => c,
            None => 200,
        },
    )
    &&& site.e_string matches Some(e) ==> p.decision.exists_if@[1] matches Assertion::BodyContains(t) && t@ == e@
    &&& p.decision.missing_if@.len() == (if site.m_string is Some { 1int } else { 0 })
    &&& site.m_string matches Some(m) ==> p.decision.missing_if@[0] matches Assertion::BodyContains(t) && t@ == m@
    &&& p.decision.blocked_if@ == seq![Assertion::StatusCode(403), Assertion::StatusCode(429)]
    &&& p.extract@.len() == 0
    &&& p.quality.control_success_rate_bits == 0
    &&& p.quality.block_rate_bits == 0
    &&& p.quality.median_latency_ms == 0
    &&& p.quality.last_success is None
    &&& p.source.source@ == "wmn"@
    &&& p.source.license@ == "CC-BY-SA-4.0"@
    &&& p.source.source_url matches Some(u) && u@ == "https://github.com/WebBreacher/WhatsMyName"@
    &&& p.source.source_hash matches Some(h) && h@ == source_hash
}

/// Turns a WhatsMyName site into a probe.
pub fn convert_site(site: &WmnSite, source_hash: &str) -> (r: Result<Probe, String>)
    ensures
        r matches Ok(p) && converted_probe(p, *site, source_hash@),
{
    let category = parse_category(
        match &site.category {
            Some(c) => Some(c.as_str()),
            None => None,
        },
    );
    let mut exists_if: Vec<Assertion> = Vec::new();
    match site.e_code {
        Some(code) => exists_if.push(Assertion::StatusCode(code)),
        None => exists_if.push(Assertion::StatusCode(200)),
    }
    match &site.e_string {
        Some(s) => exists_if.push(Assertion::BodyContains(s.clone())),
        None => {},
    }
    let mut missing_if: Vec<Assertion> = Vec::new();
    match &site.m_string {
        Some(s) => missing_if.push(Assertion::BodyContains(s.clone())),
        None => {},
    }
    let mut blocked_if: Vec<Assertion> = Vec::new();
    blocked_if.push(Assertion::StatusCode(403));
    blocked_if.push(Assertion::StatusCode(429));
    proof {
        reveal_strlit("{account}");
    }
    let url = replace(site.uri_check.as_str(), "{account}", "{selector}");
    let mut id = String::from_str("wmn:");
    push_str(&mut id, normalize_name(site.name.as_str()).as_str());
    let probe = Probe {
        id: ProbeId(id),
        site_name: site.name.clone(),
        category,
        selector_kind: SelectorKind::Username,
        request: RequestTemplate {
            method: Method::Get,
            url,
            headers: Vec::new(),
            body: None,
            follow_redirects: true,
            timeout_ms: 30000,
        },
        decision: DecisionRules { exists_if, missing_if, blocked_if },
        extract: Vec::new(),
        quality: ProbeQuality::default(),
        source: DataSource {
            source: String::from_str("wmn"),
            license: String::from_str("CC-BY-SA-4.0"),
            source_url: Some(String::from_str("https://github.com/WebBreacher/WhatsMyName")),
            source_hash: Some(String::from_str(source_hash)),
        },
    };
    assert(probe.decision.blocked_if@ =~= seq![Assertion::StatusCode(403), Assertion::StatusCode(429)]);
    Ok(probe)
}

/// Turns the sites of a WhatsMyName data file into probes; a site that
/// cannot be turned into a probe is recorded as rejected.
pub fn convert_sites(sites: &Vec<WmnSite>, source_hash: &str) -> (r: (Vec<Probe>, ConversionReport))
    requires
        sites@.len() < usize::MAX,
    ensures
        r.0@.len() == sites@.len(),
        forall|i: int| 0 <= i < sites@.len() ==> converted_probe(#[trigger] r.0@[i], sites@[i], source_hash@),
        r.1.sources@.len() == 0,
        r.1.errors@.len() == 0,
{
    let mut probes: Vec<Probe> = Vec::new();
    let report = ConversionReport::new();
    let mut i: usize = 0;
    while i < sites.len()
        invariant
            i <= sites.len(),
            probes@.len() == i,
            forall|k: int| 0 <= k < i ==> converted_probe(#[trigger] probes@[k], sites@[k], source_hash@),
            report.sources@.len() == 0,
            report.errors@.len() == 0,
        decreases sites.len() - i,
    {
        match convert_site(&sites[i], source_hash) {
            Ok(p) => probes.push(p),
            Err(_) => {},
        }
        i = i + 1;
    }
    (probes, report)
}

} // verus!
