//! Small maps keyed by a `char`, kept as a vector of pairs with distinct
//! keys (named bookmarks, named registers).

use vstd::prelude::*;

verus! {

/// No key occurs twice.
pub open spec fn keys_distinct<V>(s: Seq<(char, V)>) -> bool {
    forall|i: int, j: int| 0 <= i < j < s.len() ==> s[i].0 != s[j].0
}

/// The map the pairs stand for.
pub open spec fn assoc_map<V>(s: Seq<(char, V)>) -> Map<char, V>
    decreases s.len(),
{
    if s.len() == 0 {
        Map::empty()
    } else {
        assoc_map(s.drop_last()).insert(s.last().0, s.last().1)
    }
}

/// With distinct keys, the map holds exactly the pairs.
pub proof fn lemma_assoc_map<V>(s: Seq<(char, V)>)
    requires
        keys_distinct(s),
    ensures
        forall|k: char|
            #![trigger assoc_map(s).dom().contains(k)]
            assoc_map(s).dom().contains(k) <==> exists|i: int| 0 <= i < s.len() && s[i].0 == k,
        forall|i: int| 0 <= i < s.len() ==> #[trigger] assoc_map(s)[s[i].0] == s[i].1,
    decreases s.len(),
{
    if s.len() > 0 {
        let t = s.drop_last();
        assert(keys_distinct(t));
        lemma_assoc_map(t);
        assert forall|k: char| assoc_map(s).dom().contains(k) <==> exists|i: int| 0 <= i < s.len() && s[i].0 == k by {
            if assoc_map(s).dom().contains(k) {
                if k == s.last().0 {
                    assert(s[s.len() - 1].0 == k);
                } else {
                    assert(assoc_map(t).dom().contains(k));
                    let i = choose|i: int| 0 <= i < t.len() && t[i].0 == k;
                    assert(s[i].0 == k);
                }
            }
            if exists|i: int| 0 <= i < s.len() && s[i].0 == k {
                let i = choose|i: int| 0 <= i < s.len() && s[i].0 == k;
                if i < s.len() - 1 {
                    assert(t[i].0 == k);
                    assert(assoc_map(t).dom().contains(k));
                }
            }
        }
        assert forall|i: int| 0 <= i < s.len() implies #[trigger] assoc_map(s)[s[i].0] == s[i].1 by {
            if i < s.len() - 1 {
                assert(t[i] == s[i]);
                assert(s[i].0 != s.last().0);
                assert(assoc_map(t)[t[i].0] == t[i].1);
            }
        }
    }
}

/// Position of key `k`.
pub fn assoc_find<V>(v: &Vec<(char, V)>, k: char) -> (r: Option<usize>)
    requires
        keys_distinct(v@),
    ensures
        r matches Some(i) ==> i < v@.len() && v@[i as int].0 == k,
        r is None ==> !assoc_map(v@).dom().contains(k),
{
    proof {
        lemma_assoc_map(v@);
    }
    let mut i: usize = 0;
    while i < v.len()
        invariant
            i <= v@.len(),
            keys_distinct(v@),
            forall|j: int| 0 <= j < i ==> v@[j].0 != k,
            forall|k2: char|
                #![trigger assoc_map(v@).dom().contains(k2)]
                assoc_map(v@).dom().contains(k2) <==> exists|j: int| 0 <= j < v@.len() && v@[j].0 == k2,
        decreases v@.len() - i,
    {
        if v[i].0 == k {
            return Some(i);
        }
        i = i + 1;
    }
    None
}

/// Set key `k` to `val`, replacing an earlier value.
pub fn assoc_set<V>(v: &mut Vec<(char, V)>, k: char, val: V)
    requires
        keys_distinct(old(v)@),
    ensures
        keys_distinct(final(v)@),
        assoc_map(final(v)@) == assoc_map(old(v)@).insert(k, val),
{
    proof {
        lemma_assoc_map(v@);
    }
    match assoc_find(v, k) {
        Some(i) => {
            let ghost before = v@;
            v.set(i, (k, val));
            proof {
                assert(keys_distinct(v@));
                lemma_assoc_map(v@);
                assert(assoc_map(v@) =~= assoc_map(before).insert(k, val)) by {
                    assert forall|c: char| assoc_map(v@).dom().contains(c) <==> assoc_map(before).insert(k, val).dom().contains(c) by {
                        if assoc_map(v@).dom().contains(c) {
                            let j = choose|j: int| 0 <= j < v@.len() && v@[j].0 == c;
                            if c != k {
                                assert(before[j].0 == c);
                            }
                        }
                        if assoc_map(before).dom().contains(c) {
                            let j = choose|j: int| 0 <= j < before.len() && before[j].0 == c;
                            assert(v@[j].0 == c);
                        }
                        if c == k {
                            assert(v@[i as int].0 == c);
                        }
                    }
                    assert forall|c: char| #[trigger] assoc_map(v@).dom().contains(c) implies assoc_map(v@)[c] == assoc_map(before).insert(k, val)[c] by {
                        let j = choose|j: int| 0 <= j < v@.len() && v@[j].0 == c;
                        assert(assoc_map(v@)[v@[j].0] == v@[j].1);
                        if c != k {
                            assert(before[j] == v@[j]);
                            assert(assoc_map(before)[before[j].0] == before[j].1);
                        }
                    }
                }
            }
        },
        None => {
            let ghost before = v@;
            v.push((k, val));
            proof {
                assert(v@.drop_last() =~= before);
                assert forall|a: int, b: int| 0 <= a < b < v@.len() implies v@[a].0 != v@[b].0 by {
                    if b == v@.len() - 1 {
                        assert(before[a].0 != k) by {
                            if before[a].0 == k {
                                assert(assoc_map(before).dom().contains(k));
                            }
                        }
                    }
                }
            }
        },
    }
}

/// Remove key `k`; returns whether it was there.
pub fn assoc_remove<V>(v: &mut Vec<(char, V)>, k: char) -> (found: bool)
    requires
        keys_distinct(old(v)@),
    ensures
        keys_distinct(final(v)@),
        found == assoc_map(old(v)@).dom().contains(k),
        assoc_map(final(v)@) == assoc_map(old(v)@).remove(k),
{
    proof {
        lemma_assoc_map(v@);
    }
    match assoc_find(v, k) {
        Some(i) => {
            let ghost before = v@;
            let _ = v.remove(i);
            proof {
                assert(v@ =~= before.remove(i as int));
                assert(keys_distinct(v@)) by {
                    assert forall|a: int, b: int| 0 <= a < b < v@.len() implies v@[a].0 != v@[b].0 by {
                        let oa = if a < i { a } else { a + 1 };
                        let ob = if b < i { b } else { b + 1 };
                        assert(v@[a] == before[oa]);
                        assert(v@[b] == before[ob]);
                    }
                }
                lemma_assoc_map(v@);
                assert(assoc_map(before).dom().contains(k));
                assert(assoc_map(v@) =~= assoc_map(before).remove(k)) by {
                    assert forall|c: char| assoc_map(v@).dom().contains(c) <==> assoc_map(before).remove(k).dom().contains(c) by {
                        if assoc_map(v@).dom().contains(c) {
                            let j = choose|j: int| 0 <= j < v@.len() && v@[j].0 == c;
                            let oj = if j < i { j } else { j + 1 };
                            assert(before[oj].0 == c);
                        }
                        if assoc_map(before).dom().contains(c) && c != k {
                            let j = choose|j: int| 0 <= j < before.len() && before[j].0 == c;
                            assert(j != i);
                            let nj = if j < i { j } else { j - 1 };
                            assert(v@[nj].0 == c);
                        }
                    }
                    assert forall|c: char| #[trigger] assoc_map(v@).dom().contains(c) implies assoc_map(v@)[c] == assoc_map(before).remove(k)[c] by {
                        let j = choose|j: int| 0 <= j < v@.len() && v@[j].0 == c;
                        let oj = if j < i { j } else { j + 1 };
                        assert(before[oj] == v@[j]);
                        assert(assoc_map(v@)[v@[j].0] == v@[j].1);
                        assert(assoc_map(before)[before[oj].0] == before[oj].1);
                    }
                }
            }
            true
        },
        None => {
            proof {
                assert(assoc_map(v@) =~= assoc_map(v@).remove(k));
            }
            false
        },
    }
}

} // verus!
