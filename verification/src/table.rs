//! Keyed rows kept in vectors: lookup by key and ordering for listings.
//! Every table of the registry and the trust stores is such a vector whose
//! keys are pairwise distinct.

use vstd::prelude::*;

verus! {

broadcast use vstd::seq_lib::group_to_multiset_ensures;

/// A stored record: it has a 128-bit key and a listing order.
pub trait Row: Sized {
    /// The key of the row (its id).
    spec fn key(&self) -> u128;

    /// Whether this row is listed strictly before `other`.
    spec fn precedes(&self, other: &Self) -> bool;

    /// The listing order is transitive.
    proof fn lemma_precedes_transitive(a: &Self, b: &Self, c: &Self)
        requires
            a.precedes(b),
            b.precedes(c),
        ensures
            a.precedes(c),
    ;

    /// The listing order is asymmetric.
    proof fn lemma_precedes_asymmetric(a: &Self, b: &Self)
        requires
            a.precedes(b),
        ensures
            !b.precedes(a),
    ;

    /// The key of the row.
    fn row_key(&self) -> (k: u128)
        ensures
            k == self.key(),
    ;

    /// Whether this row is listed strictly before `other`.
    fn row_precedes(&self, other: &Self) -> (b: bool)
        ensures
            b == self.precedes(other),
    ;

    /// An identical copy of the row.
    fn duplicate(&self) -> (r: Self)
        ensures
            r == *self,
    ;
}

/// No two rows share a key.
pub open spec fn keys_unique<R: Row>(s: Seq<R>) -> bool {
    forall|i: int, j: int| 0 <= i < j < s.len() ==> s[i].key() != s[j].key()
}

/// Some row has key `k`.
pub open spec fn has_key<R: Row>(s: Seq<R>, k: u128) -> bool {
    exists|i: int| 0 <= i < s.len() && #[trigger] s[i].key() == k
}

/// The rows are in listing order (no row precedes an earlier one).
pub open spec fn ordered<R: Row>(s: Seq<R>) -> bool {
    forall|i: int, j: int| 0 <= i < j < s.len() ==> !s[j].precedes(&s[i])
}

/// The row with key `k` (meaningful when there is one).
pub open spec fn row_with<R: Row>(s: Seq<R>, k: u128) -> R {
    s[choose|i: int| 0 <= i < s.len() && #[trigger] s[i].key() == k]
}

/// With distinct keys, the row at index `i` is the row with its key.
pub proof fn lemma_row_with<R: Row>(s: Seq<R>, i: int)
    requires
        keys_unique(s),
        0 <= i < s.len(),
    ensures
        has_key(s, s[i].key()),
        row_with(s, s[i].key()) == s[i],
{
    let k = s[i].key();
    assert(s[i].key() == k);
    let j = choose|j: int| 0 <= j < s.len() && #[trigger] s[j].key() == k;
    if j != i {
        if j < i {
            assert(s[j].key() != s[i].key());
        } else {
            assert(s[i].key() != s[j].key());
        }
    }
}

/// A duplicate-free list of keys, each of some row, is no longer than the
/// table.
pub proof fn lemma_distinct_keys_bounded<R: Row>(sub: Seq<u128>, rows: Seq<R>)
    requires
        sub.no_duplicates(),
        forall|i: int| 0 <= i < sub.len() ==> has_key(rows, #[trigger] sub[i]),
    ensures
        sub.len() <= rows.len(),
{
    broadcast use vstd::seq_lib::seq_to_set_is_finite;
    let keys = rows.map_values(|r: R| r.key());
    sub.unique_seq_to_set();
    keys.lemma_cardinality_of_set();
    assert forall|x: u128| sub.to_set().contains(x) implies keys.to_set().contains(x) by {
        let i = choose|i: int| 0 <= i < sub.len() && sub[i] == x;
        assert(has_key(rows, sub[i]));
        let j = choose|j: int| 0 <= j < rows.len() && #[trigger] rows[j].key() == x;
        assert(keys[j] == x);
    }
    vstd::set_lib::lemma_len_subset(sub.to_set(), keys.to_set());
}

/// The index of the row with key `k`, if any.
pub fn find_row<R: Row>(v: &Vec<R>, k: u128) -> (res: Option<usize>)
    ensures
        match res {
            Some(i) => i < v.len() && v@[i as int].key() == k,
            None => !has_key(v@, k),
        },
{
    let mut i: usize = 0;
    while i < v.len()
        invariant
            i <= v.len(),
            forall|j: int| 0 <= j < i ==> v@[j].key() != k,
        decreases v.len() - i,
    {
        if v[i].row_key() == k {
            return Some(i);
        }
        i += 1;
    }
    None
}

/// A copy of all rows, in order.
pub fn copy_rows<R: Row>(v: &Vec<R>) -> (res: Vec<R>)
    ensures
        res@ == v@,
{
    let mut res: Vec<R> = Vec::new();
    let mut i: usize = 0;
    while i < v.len()
        invariant
            i <= v.len(),
            res@ == v@.take(i as int),
        decreases v.len() - i,
    {
        res.push(v[i].duplicate());
        i += 1;
        assert(res@ == v@.take(i as int));
    }
    assert(v@.take(v.len() as int) == v@);
    res
}

proof fn lemma_insert_multiset<A>(s: Seq<A>, i: int, a: A)
    requires
        0 <= i <= s.len(),
    ensures
        s.insert(i, a).to_multiset() =~= s.to_multiset().insert(a),
{
    let t = s.insert(i, a);
    assert(t.remove(i) =~= s);
    assert(t[i] == a);
    assert(t.remove(i).to_multiset() =~= t.to_multiset().remove(t[i]));
    assert(t.contains(a)) by {
        assert(t[i] == a);
    }
    assert(t.to_multiset().count(a) > 0);
}

/// The rows in listing order (a stable insertion sort).
pub fn sorted_rows<R: Row>(v: &Vec<R>) -> (res: Vec<R>)
    ensures
        res@.to_multiset() == v@.to_multiset(),
        ordered(res@),
{
    let mut res: Vec<R> = Vec::new();
    let mut i: usize = 0;
    while i < v.len()
        invariant
            i <= v.len(),
            res@.to_multiset() == v@.take(i as int).to_multiset(),
            ordered(res@),
        decreases v.len() - i,
    {
        let x = v[i].duplicate();
        let mut p: usize = 0;
        while p < res.len() && !x.row_precedes(&res[p])
            invariant
                p <= res.len(),
                forall|q: int| 0 <= q < p ==> !x.precedes(&res@[q]),
            decreases res.len() - p,
        {
            p += 1;
        }
        let ghost old_res = res@;
        res.insert(p, x);
        proof {
            lemma_insert_multiset(old_res, p as int, x);
            assert(v@.take(i + 1) =~= v@.take(i as int).push(v@[i as int]));
            assert forall|a: int, b: int| 0 <= a < b < res@.len() implies !res@[b].precedes(
                &res@[a],
            ) by {
                if b < p {
                    assert(res@[a] == old_res[a] && res@[b] == old_res[b]);
                } else if b == p {
                    assert(res@[a] == old_res[a]);
                } else if a < p {
                    assert(res@[a] == old_res[a] && res@[b] == old_res[b - 1]);
                } else if a == p {
                    assert(res@[a] == x && res@[b] == old_res[b - 1]);
                    assert(x.precedes(&old_res[p as int]));
                    if res@[b].precedes(&x) {
                        if b - 1 == p {
                            R::lemma_precedes_asymmetric(&x, &old_res[p as int]);
                        } else {
                            R::lemma_precedes_transitive(&old_res[b - 1], &x, &old_res[p as int]);
                        }
                    }
                } else {
                    assert(res@[a] == old_res[a - 1] && res@[b] == old_res[b - 1]);
                }
            }
        }
        i += 1;
    }
    assert(v@.take(v.len() as int) =~= v@);
    res
}

/// The rows other than the one with key `k`, in order.
pub fn without_key<R: Row>(v: &Vec<R>, k: u128) -> (res: Vec<R>)
    requires
        keys_unique(v@),
    ensures
        res@ == v@.filter(|r: R| r.key() != k),
        keys_unique(res@),
{
    let mut kept: Vec<R> = Vec::new();
    let mut i: usize = 0;
    while i < v.len()
        invariant
            keys_unique(v@),
            i <= v@.len(),
            kept@ == v@.take(i as int).filter(|r: R| r.key() != k),
            keys_unique(kept@),
            forall|a: int|
                #![trigger kept@[a]]
                0 <= a < kept@.len() ==> exists|j: int|
                    0 <= j < i && #[trigger] v@[j].key() == kept@[a].key(),
        decreases v@.len() - i,
    {
        proof {
            v@.take(i as int).lemma_filter_push(v@[i as int], |r: R| r.key() != k);
            assert(v@.take(i + 1) == v@.take(i as int).push(v@[i as int]));
        }
        if v[i].row_key() != k {
            let ghost before = kept@;
            kept.push(v[i].duplicate());
            proof {
                assert forall|a: int, b: int| 0 <= a < b < kept@.len() implies kept@[a].key()
                    != kept@[b].key() by {
                    if b == kept@.len() - 1 {
                        assert(kept@[a] == before[a]);
                        let j = choose|j: int|
                            0 <= j < i && #[trigger] v@[j].key() == before[a].key();
                        assert(v@[j].key() != v@[i as int].key());
                    }
                }
                assert forall|a: int|
                    #![trigger kept@[a]]
                    0 <= a < kept@.len() implies exists|j: int|
                        0 <= j < i + 1 && #[trigger] v@[j].key() == kept@[a].key() by {
                    if a == kept@.len() - 1 {
                        assert(v@[i as int].key() == kept@[a].key());
                    } else {
                        assert(kept@[a] == before[a]);
                        let j = choose|j: int|
                            0 <= j < i && #[trigger] v@[j].key() == before[a].key();
                        assert(v@[j].key() == kept@[a].key());
                    }
                }
            }
        } else {
            proof {
                assert forall|a: int|
                    #![trigger kept@[a]]
                    0 <= a < kept@.len() implies exists|j: int|
                        0 <= j < i + 1 && #[trigger] v@[j].key() == kept@[a].key() by {
                    let j = choose|j: int|
                        0 <= j < i && #[trigger] v@[j].key() == kept@[a].key();
                    assert(v@[j].key() == kept@[a].key());
                }
            }
        }
        i += 1;
    }
    assert(v@.take(v@.len() as int) == v@);
    kept
}


/// Whether no two rows share a key.
pub fn keys_distinct<R: Row>(v: &Vec<R>) -> (res: bool)
    ensures
        res == keys_unique(v@),
{
    let mut i: usize = 0;
    while i < v.len()
        invariant
            i <= v@.len(),
            forall|a: int, b: int| 0 <= a < b < v@.len() && a < i ==> v@[a].key() != v@[b].key(),
        decreases v@.len() - i,
    {
        let mut j: usize = i + 1;
        while j < v.len()
            invariant
                i < j <= v@.len(),
                i < v@.len(),
                forall|a: int, b: int| 0 <= a < b < v@.len() && a < i ==> v@[a].key() != v@[b].key(),
                forall|b: int| i < b < j ==> v@[i as int].key() != v@[b].key(),
            decreases v@.len() - j,
        {
            if v[i].row_key() == v[j].row_key() {
                return false;
            }
            j += 1;
        }
        i += 1;
    }
    true
}

} // verus!
