//! Lists of name/text pairs used as maps: no name occurs twice, and
//! setting a name replaces its text in place.

use vstd::prelude::*;

verus! {

/// The map a list of pairs stands for; a later pair wins over an earlier
/// one with the same name.
pub open spec fn text_map(s: Seq<(String, String)>) -> Map<Seq<char>, Seq<char>>
    decreases s.len(),
{
    if s.len() == 0 {
        Map::empty()
    } else {
        text_map(s.drop_last()).insert(s.last().0@, s.last().1@)
    }
}

/// No name occurs twice.
pub open spec fn unique_names(s: Seq<(String, String)>) -> bool {
    forall|i: int, j: int| 0 <= i < j < s.len() ==> s[i].0@ != s[j].0@
}

/// The names of the list are the domain of its map, and with unique names
/// each pair gives the text of its name.
pub proof fn lemma_text_map_index(s: Seq<(String, String)>)
    ensures
        forall|k: Seq<char>|
            #![trigger text_map(s).dom().contains(k)]
            text_map(s).dom().contains(k) <==> exists|i: int| 0 <= i < s.len() && s[i].0@ == k,
        unique_names(s) ==> forall|i: int|
            #![trigger s[i]]
            0 <= i < s.len() ==> text_map(s)[s[i].0@] == s[i].1@,
    decreases s.len(),
{
    if s.len() > 0 {
        let t = s.drop_last();
        lemma_text_map_index(t);
        assert forall|k: Seq<char>|
            #![trigger text_map(s).dom().contains(k)]
            text_map(s).dom().contains(k) <==> exists|i: int| 0 <= i < s.len() && s[i].0@ == k by {
            if text_map(s).dom().contains(k) {
                if k == s.last().0@ {
                    assert(s[s.len() - 1].0@ == k);
                } else {
                    assert(text_map(t).dom().contains(k));
                    let i = choose|i: int| 0 <= i < t.len() && t[i].0@ == k;
                    assert(s[i] == t[i]);
                }
            }
            if exists|i: int| 0 <= i < s.len() && s[i].0@ == k {
                let i = choose|i: int| 0 <= i < s.len() && s[i].0@ == k;
                if i < s.len() - 1 {
                    assert(t[i] == s[i]);
                    assert(text_map(t).dom().contains(k));
                }
            }
        }
        if unique_names(s) {
            assert(unique_names(t)) by {
                assert forall|i: int, j: int| 0 <= i < j < t.len() implies t[i].0@ != t[j].0@ by {
                    assert(t[i] == s[i] && t[j] == s[j]);
                }
            }
            assert forall|i: int| #![trigger s[i]] 0 <= i < s.len() implies text_map(s)[s[i].0@]
                == s[i].1@ by {
                if i < s.len() - 1 {
                    assert(t[i] == s[i]);
                    assert(s[i].0@ != s[s.len() - 1].0@);
                }
            }
        }
    }
}

/// Replacing the text of the pair at `j` replaces the text of its name.
proof fn lemma_text_map_update(s: Seq<(String, String)>, j: int, p: (String, String))
    requires
        0 <= j < s.len(),
        s[j].0@ == p.0@,
        unique_names(s),
    ensures
        text_map(s.update(j, p)) == text_map(s).insert(p.0@, p.1@),
        unique_names(s.update(j, p)),
    decreases s.len(),
{
    let u = s.update(j, p);
    let t = s.drop_last();
    assert(unique_names(t)) by {
        assert forall|a: int, b: int| 0 <= a < b < t.len() implies t[a].0@ != t[b].0@ by {
            assert(t[a] == s[a] && t[b] == s[b]);
        }
    }
    assert(unique_names(u)) by {
        assert forall|a: int, b: int| 0 <= a < b < u.len() implies u[a].0@ != u[b].0@ by {
            if a == j {
                assert(s[b].0@ != s[j].0@);
            } else if b == j {
                assert(s[a].0@ != s[j].0@);
            }
        }
    }
    if j == s.len() - 1 {
        assert(u.drop_last() =~= t);
        lemma_text_map_index(t);
        assert(text_map(u) =~= text_map(s).insert(p.0@, p.1@));
    } else {
        lemma_text_map_update(t, j, p);
        assert(u.drop_last() =~= t.update(j, p));
        assert(s.last().0@ != p.0@) by {
            assert(s[s.len() - 1].0@ != s[j].0@);
        }
        assert(text_map(u) =~= text_map(s).insert(p.0@, p.1@));
    }
}

/// Sets the text of `name`: the pair with that name gets the new text, or a
/// new pair comes last.
pub fn set_text(v: &mut Vec<(String, String)>, name: String, text: String)
    requires
        unique_names(old(v)@),
    ensures
        unique_names(final(v)@),
        text_map(final(v)@) == text_map(old(v)@).insert(name@, text@),
{
    let mut i: usize = 0;
    while i < v.len()
        invariant
            i <= v.len(),
            v@ == old(v)@,
            unique_names(old(v)@),
            forall|k: int| 0 <= k < i ==> v@[k].0@ != name@,
        decreases v.len() - i,
    {
        if v[i].0 == name {
            let ghost before = v@;
            proof {
                lemma_text_map_update(before, i as int, (name, text));
            }
            v.set(i, (name, text));
            assert(v@ == before.update(i as int, (name, text)));
            return;
        }
        i = i + 1;
    }
    let ghost before = v@;
    v.push((name, text));
    proof {
        assert(v@.drop_last() =~= before);
        assert forall|a: int, b: int| 0 <= a < b < v@.len() implies v@[a].0@ != v@[b].0@ by {
            if b == v@.len() - 1 {
                assert(v@[a] == before[a]);
            } else {
                assert(v@[a] == before[a] && v@[b] == before[b]);
            }
        }
    }
}

} // verus!
