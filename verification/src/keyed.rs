//! Maps with text keys kept as vectors of pairs in strictly increasing key
//! order, the form the vault file and the RDP pin store use.

use vstd::prelude::*;
use crate::text::{chars_lt, chars_of, lemma_text_lt_irreflexive, lemma_text_lt_total, lemma_text_lt_transitive, text_lt};

verus! {

/// The entries are in strictly increasing key order (so keys are distinct).
pub open spec fn entries_sorted<V>(es: Seq<(String, V)>) -> bool {
    forall|i: int, j: int| 0 <= i < j < es.len() ==> text_lt(es[i].0@, es[j].0@)
}

/// The entry stored under key text `k`, if any.
pub open spec fn lookup<V>(es: Seq<(String, V)>, k: Seq<char>) -> Option<V> {
    if has_entry(es, k) {
        Some(es[entry_index(es, k)].1)
    } else {
        None
    }
}

/// Whether some entry has key text `k`.
pub open spec fn has_entry<V>(es: Seq<(String, V)>, k: Seq<char>) -> bool {
    exists|i: int| 0 <= i < es.len() && (#[trigger] es[i]).0@ == k
}

/// A position of an entry with key text `k` (there is at most one in a
/// sorted sequence).
pub open spec fn entry_index<V>(es: Seq<(String, V)>, k: Seq<char>) -> int {
    choose|i: int| 0 <= i < es.len() && (#[trigger] es[i]).0@ == k
}

pub proof fn lemma_lookup_at<V>(es: Seq<(String, V)>, i: int)
    requires
        entries_sorted(es),
        0 <= i < es.len(),
    ensures
        lookup(es, es[i].0@) == Some(es[i].1),
{
    let k = es[i].0@;
    assert(0 <= i < es.len() && (#[trigger] es[i]).0@ == k);
    assert(has_entry(es, k));
    let j = entry_index(es, k);
    assert(0 <= j < es.len() && es[j].0@ == k);
    if j < i {
        assert(text_lt(es[j].0@, es[i].0@));
        lemma_text_lt_irreflexive(k);
    } else if j > i {
        assert(text_lt(es[i].0@, es[j].0@));
        lemma_text_lt_irreflexive(k);
    }
}

/// Stores `e` under key `key`, replacing any entry with that key (as a
/// sorted map does).
pub fn entry_insert<V>(es: &mut Vec<(String, V)>, key: String, e: V)
    requires
        entries_sorted(old(es)@),
    ensures
        entries_sorted(final(es)@),
        lookup(final(es)@, key@) == Some(e),
        forall|k: Seq<char>| k != key@ ==> lookup(final(es)@, k) == lookup(old(es)@, k),
{
    let kc = chars_of(key.as_str());
    let mut p: usize = 0;
    while p < es.len() && chars_lt(&chars_of(es[p].0.as_str()), &kc)
        invariant
            p <= es@.len(),
            kc@ == key@,
            forall|q: int| 0 <= q < p ==> text_lt(es@[q].0@, key@),
        decreases es@.len() - p,
    {
        p += 1;
    }
    let ghost old_es = es@;
    if p < es.len() && es[p].0 == key {
        es.set(p, (key, e));
        proof {
            let new_es = es@;
            assert forall|a: int, b: int| 0 <= a < b < new_es.len() implies text_lt(new_es[a].0@, new_es[b].0@) by {
                assert(new_es[a].0@ == old_es[a].0@);
                assert(new_es[b].0@ == old_es[b].0@);
            }
            lemma_lookup_at(new_es, p as int);
            assert forall|k: Seq<char>| k != key@ implies lookup(new_es, k) == lookup(old_es, k) by {
                if has_entry(old_es, k) {
                    let i = entry_index(old_es, k);
                    lemma_lookup_at(old_es, i);
                    assert(i != p);
                    assert(new_es[i] == old_es[i]);
                    lemma_lookup_at(new_es, i);
                } else {
                    assert forall|i: int| 0 <= i < new_es.len() implies (#[trigger] new_es[i]).0@ != k by {
                        if i != p {
                            assert(new_es[i] == old_es[i]);
                        }
                    }
                }
            }
        }
    } else {
        proof {
            if p < old_es.len() {
                assert(old_es[p as int].0@ != key@);
                assert(!text_lt(old_es[p as int].0@, key@));
                lemma_text_lt_total(old_es[p as int].0@, key@);
            }
        }
        es.insert(p, (key, e));
        proof {
            let new_es = es@;
            assert(new_es == old_es.insert(p as int, new_es[p as int]));
            assert forall|a: int, b: int| 0 <= a < b < new_es.len() implies text_lt(new_es[a].0@, new_es[b].0@) by {
                if b < p {
                    assert(new_es[a] == old_es[a] && new_es[b] == old_es[b]);
                } else if b == p {
                    assert(new_es[a] == old_es[a]);
                } else if a < p {
                    assert(new_es[a] == old_es[a] && new_es[b] == old_es[b - 1]);
                } else if a == p {
                    assert(new_es[b] == old_es[b - 1]);
                    if b - 1 > p {
                        lemma_text_lt_transitive(key@, old_es[p as int].0@, old_es[b - 1].0@);
                    }
                } else {
                    assert(new_es[a] == old_es[a - 1] && new_es[b] == old_es[b - 1]);
                }
            }
            lemma_lookup_at(new_es, p as int);
            assert forall|k: Seq<char>| k != key@ implies lookup(new_es, k) == lookup(old_es, k) by {
                if has_entry(old_es, k) {
                    let i = entry_index(old_es, k);
                    lemma_lookup_at(old_es, i);
                    if i < p {
                        assert(new_es[i] == old_es[i]);
                        lemma_lookup_at(new_es, i);
                    } else {
                        assert(new_es[i + 1] == old_es[i]);
                        lemma_lookup_at(new_es, i + 1);
                    }
                } else {
                    assert forall|i: int| 0 <= i < new_es.len() implies (#[trigger] new_es[i]).0@ != k by {
                        if i < p {
                            assert(new_es[i] == old_es[i]);
                        } else if i > p {
                            assert(new_es[i] == old_es[i - 1]);
                        }
                    }
                }
            }
        }
    }
}

/// Removes the entry with key `key`; tells whether there was one.
pub fn entry_remove<V>(es: &mut Vec<(String, V)>, key: &String) -> (found: bool)
    requires
        entries_sorted(old(es)@),
    ensures
        entries_sorted(final(es)@),
        found == (lookup(old(es)@, key@) is Some),
        !found ==> final(es)@ == old(es)@,
        lookup(final(es)@, key@) is None,
        forall|k: Seq<char>| k != key@ ==> lookup(final(es)@, k) == lookup(old(es)@, k),
{
    let mut p: usize = 0;
    while p < es.len() && !(es[p].0 == *key)
        invariant
            p <= es@.len(),
            forall|q: int| 0 <= q < p ==> es@[q].0@ != key@,
        decreases es@.len() - p,
    {
        p += 1;
    }
    if p == es.len() {
        return false;
    }
    let ghost old_es = es@;
    proof { lemma_lookup_at(old_es, p as int); }
    es.remove(p);
    proof {
        let new_es = es@;
        assert forall|a: int, b: int| 0 <= a < b < new_es.len() implies text_lt(new_es[a].0@, new_es[b].0@) by {
            if b < p {
                assert(new_es[a] == old_es[a] && new_es[b] == old_es[b]);
            } else if a < p {
                assert(new_es[a] == old_es[a] && new_es[b] == old_es[b + 1]);
            } else {
                assert(new_es[a] == old_es[a + 1] && new_es[b] == old_es[b + 1]);
            }
        }
        assert forall|i: int| 0 <= i < new_es.len() implies (#[trigger] new_es[i]).0@ != key@ by {
            if i < p {
                assert(new_es[i] == old_es[i]);
            } else {
                assert(new_es[i] == old_es[i + 1]);
                assert(text_lt(old_es[p as int].0@, old_es[i + 1].0@));
                lemma_text_lt_irreflexive(key@);
            }
        }
        assert forall|k: Seq<char>| k != key@ implies lookup(new_es, k) == lookup(old_es, k) by {
            if has_entry(old_es, k) {
                let i = entry_index(old_es, k);
                lemma_lookup_at(old_es, i);
                assert(i != p);
                if i < p {
                    assert(new_es[i] == old_es[i]);
                    lemma_lookup_at(new_es, i);
                } else {
                    assert(new_es[i - 1] == old_es[i]);
                    lemma_lookup_at(new_es, i - 1);
                }
            } else {
                assert forall|i: int| 0 <= i < new_es.len() implies (#[trigger] new_es[i]).0@ != k by {
                    if i < p {
                        assert(new_es[i] == old_es[i]);
                    } else {
                        assert(new_es[i] == old_es[i + 1]);
                    }
                }
            }
        }
    }
    true
}

/// The entries of a record as a map from key text to entry; a later entry
/// with the same key replaces an earlier one.
pub open spec fn entries_map<V>(es: Seq<(String, V)>) -> Map<Seq<char>, V>
    decreases es.len(),
{
    if es.len() == 0 {
        Map::empty()
    } else {
        entries_map(es.drop_last()).insert(es.last().0@, es.last().1)
    }
}

/// The entry the map holds under `k`, if any.
pub open spec fn map_get<V>(m: Map<Seq<char>, V>, k: Seq<char>) -> Option<V> {
    if m.dom().contains(k) {
        Some(m[k])
    } else {
        None
    }
}

/// The position of the entry with key `key`, if any.
pub fn entry_find<V>(es: &Vec<(String, V)>, key: &String) -> (res: Option<usize>)
    requires
        entries_sorted(es@),
    ensures
        match res {
            Some(i) => i < es@.len() && es@[i as int].0@ == key@ && lookup(es@, key@) == Some(es@[i as int].1),
            None => lookup(es@, key@) is None,
        },
{
    let mut i: usize = 0;
    while i < es.len()
        invariant
            i <= es@.len(),
            entries_sorted(es@),
            forall|q: int| 0 <= q < i ==> es@[q].0@ != key@,
        decreases es@.len() - i,
    {
        if es[i].0 == *key {
            proof { lemma_lookup_at(es@, i as int); }
            return Some(i);
        }
        i += 1;
    }
    None
}

} // verus!
