use vstd::prelude::*;
use crate::keys::{key_eq, AccountKey};

verus! {

/// First index at which `s` holds an entry for `k`, or the length of `s`
/// when no entry matches.
pub open spec fn find_idx<K, V>(s: Seq<(K, V)>, k: K) -> int
    decreases s.len(),
{
    if s.len() == 0 {
        0
    } else if s[0].0 == k {
        0
    } else {
        1 + find_idx(s.skip(1), k)
    }
}

/// Whether `s` holds an entry for `k`.
pub open spec fn has_key<K, V>(s: Seq<(K, V)>, k: K) -> bool {
    exists|i: int| 0 <= i < s.len() && s[i].0 == k
}

/// The value the first entry for `k` carries.
pub open spec fn value_of<K, V>(s: Seq<(K, V)>, k: K) -> V {
    s[find_idx(s, k)].1
}

pub proof fn lemma_find_idx<K, V>(s: Seq<(K, V)>, k: K)
    ensures
        0 <= find_idx(s, k) <= s.len(),
        has_key(s, k) <==> find_idx(s, k) < s.len(),
        find_idx(s, k) < s.len() ==> s[find_idx(s, k)].0 == k,
        forall|j: int| 0 <= j < find_idx(s, k) ==> s[j].0 != k,
    decreases s.len(),
{
    if s.len() > 0 && s[0].0 != k {
        lemma_find_idx(s.skip(1), k);
        assert forall|j: int| 0 <= j < find_idx(s, k) implies s[j].0 != k by {
            if j > 0 {
                assert(s.skip(1)[j - 1] == s[j]);
            }
        }
        if has_key(s, k) {
            let i = choose|i: int| 0 <= i < s.len() && s[i].0 == k;
            assert(s.skip(1)[i - 1] == s[i]);
        }
        if find_idx(s, k) < s.len() {
            assert(s.skip(1)[find_idx(s.skip(1), k)] == s[find_idx(s, k)]);
        }
    }
}

/// An association list from account keys to values, holding at most one
/// entry per key and remembering insertion order.  It stands in for the
/// keyed mappings of the account graph and of the dashboard snapshots.
pub struct KeyedStore<V> {
    entries: Vec<(AccountKey, V)>,
}

impl<V> KeyedStore<V> {
    /// The entries in storage order.
    pub closed spec fn entries_view(self) -> Seq<(AccountKey, V)> {
        self.entries@
    }

    /// Each key appears in at most one entry.
    pub open spec fn wf(self) -> bool {
        forall|i: int, j: int|
            0 <= i < j < self.entries_view().len() ==> self.entries_view()[i].0
                != self.entries_view()[j].0
    }

    pub open spec fn spec_len(self) -> nat {
        self.entries_view().len()
    }

    pub fn new() -> (r: Self)
        ensures
            r.entries_view() == Seq::<(AccountKey, V)>::empty(),
            r.wf(),
    {
        KeyedStore { entries: Vec::new() }
    }

    pub fn len(&self) -> (r: usize)
        ensures
            r == self.spec_len(),
    {
        self.entries.len()
    }

    pub fn contains_key(&self, k: &AccountKey) -> (r: bool)
        ensures
            r == has_key(self.entries_view(), *k),
    {
        let mut i: usize = 0;
        while i < self.entries.len()
            invariant
                0 <= i <= self.entries_view().len(),
                forall|j: int| 0 <= j < i ==> self.entries_view()[j].0 != *k,
            decreases self.entries_view().len() - i,
        {
            if key_eq(&self.entries[i].0, k) {
                return true;
            }
            i = i + 1;
        }
        false
    }

    pub fn get(&self, k: &AccountKey) -> (r: Option<&V>)
        ensures
            has_key(self.entries_view(), *k) ==> (r matches Some(v) && *v == value_of(
                self.entries_view(),
                *k,
            )),
            !has_key(self.entries_view(), *k) ==> r is None,
    {
        proof {
            lemma_find_idx(self.entries_view(), *k);
        }
        let mut i: usize = 0;
        while i < self.entries.len()
            invariant
                0 <= i <= self.entries_view().len(),
                forall|j: int| 0 <= j < i ==> self.entries_view()[j].0 != *k,
                0 <= find_idx(self.entries_view(), *k) <= self.entries_view().len(),
                has_key(self.entries_view(), *k) <==> find_idx(self.entries_view(), *k)
                    < self.entries_view().len(),
                find_idx(self.entries_view(), *k) < self.entries_view().len()
                    ==> self.entries_view()[find_idx(self.entries_view(), *k)].0 == *k,
                forall|j: int| 0 <= j < find_idx(self.entries_view(), *k)
                    ==> self.entries_view()[j].0 != *k,
            decreases self.entries_view().len() - i,
        {
            if key_eq(&self.entries[i].0, k) {
                assert(i == find_idx(self.entries_view(), *k));
                return Some(&self.entries[i].1);
            }
            i = i + 1;
        }
        None
    }

    /// Replaces the entry for `k` in place, or appends one.
    pub fn insert(&mut self, k: AccountKey, v: V)
        requires
            old(self).wf(),
        ensures
            final(self).wf(),
            has_key(old(self).entries_view(), k) ==> final(self).entries_view() =~= old(
                self,
            ).entries_view().update(find_idx(old(self).entries_view(), k), (k, v)),
            !has_key(old(self).entries_view(), k) ==> final(self).entries_view() =~= old(
                self,
            ).entries_view().push((k, v)),
            has_key(final(self).entries_view(), k),
            value_of(final(self).entries_view(), k) == v,
    {
        proof {
            lemma_find_idx(self.entries_view(), k);
        }
        let ghost orig = self.entries_view();
        let mut i: usize = 0;
        while i < self.entries.len()
            invariant
                self.entries_view() == orig,
                0 <= i <= orig.len(),
                forall|j: int| 0 <= j < i ==> orig[j].0 != k,
            decreases orig.len() - i,
        {
            if key_eq(&self.entries[i].0, &k) {
                assert(i == find_idx(orig, k));
                self.entries.set(i, (k, v));
                proof {
                    let cur = self.entries_view();
                    assert(orig[i as int].0 == k);
                    assert(forall|j: int| 0 <= j < cur.len() ==> cur[j].0 == orig[j].0);
                    lemma_find_idx(cur, k);
                    lemma_find_prefix_same(orig, cur, k, i as int);
                }
                return ;
            }
            i = i + 1;
        }
        assert(!has_key(orig, k));
        self.entries.push((k, v));
        proof {
            let cur = self.entries_view();
            assert(cur =~= orig.push((k, v)));
            assert(cur[orig.len() as int].0 == k);
            lemma_find_idx(cur, k);
            let f = find_idx(cur, k);
            if f < orig.len() {
                assert(orig[f].0 == k);
            }
            assert(f == orig.len());
        }
    }

    /// Removes and returns the entry for `k`, keeping the order of the rest.
    pub fn take(&mut self, k: &AccountKey) -> (r: Option<V>)
        requires
            old(self).wf(),
        ensures
            final(self).wf(),
            has_key(old(self).entries_view(), *k) ==> (r matches Some(v) && v == value_of(
                old(self).entries_view(),
                *k,
            ) && final(self).entries_view() =~= old(self).entries_view().remove(
                find_idx(old(self).entries_view(), *k),
            )),
            !has_key(old(self).entries_view(), *k) ==> (r is None && final(self).entries_view()
                == old(self).entries_view()),
            !has_key(final(self).entries_view(), *k),
    {
        proof {
            lemma_find_idx(self.entries_view(), *k);
        }
        let ghost orig = self.entries_view();
        let mut i: usize = 0;
        while i < self.entries.len()
            invariant
                self.entries_view() == orig,
                0 <= i <= orig.len(),
                forall|j: int| 0 <= j < i ==> orig[j].0 != *k,
            decreases orig.len() - i,
        {
            if key_eq(&self.entries[i].0, k) {
                assert(i == find_idx(orig, *k));
                let e = self.entries.remove(i);
                proof {
                    let cur = self.entries_view();
                    assert(cur =~= orig.remove(i as int));
                    assert(forall|j: int|
                        0 <= j < cur.len() ==> cur[j] == (if j < i {
                            orig[j]
                        } else {
                            orig[j + 1]
                        }));
                    assert forall|x: int, y: int| 0 <= x < y < cur.len() implies cur[x].0
                        != cur[y].0 by {
                        if x < i && y < i {
                            assert(orig[x].0 != orig[y].0);
                        } else if x < i {
                            assert(orig[x].0 != orig[y + 1].0);
                        } else {
                            assert(orig[x + 1].0 != orig[y + 1].0);
                        }
                    }
                    if has_key(cur, *k) {
                        let w = choose|w: int| 0 <= w < cur.len() && cur[w].0 == *k;
                        if w < i {
                            assert(orig[w].0 == *k);
                        } else {
                            assert(orig[w + 1].0 == *k);
                        }
                        assert(false);
                    }
                }
                return Some(e.1);
            }
            i = i + 1;
        }
        None
    }

    /// The key of the entry at position `i`.
    pub fn key_at(&self, i: usize) -> (r: AccountKey)
        requires
            i < self.spec_len(),
        ensures
            r == self.entries_view()[i as int].0,
    {
        self.entries[i].0
    }

    /// The value of the entry at position `i`.
    pub fn value_at(&self, i: usize) -> (r: &V)
        requires
            i < self.spec_len(),
        ensures
            *r == self.entries_view()[i as int].1,
    {
        &self.entries[i].1
    }
}

/// Two sequences agreeing after an update keep the same first match index.
proof fn lemma_find_prefix_same<K, V>(
    s1: Seq<(K, V)>,
    s2: Seq<(K, V)>,
    k: K,
    i: int,
)
    requires
        0 <= i < s1.len(),
        s1.len() == s2.len(),
        forall|j: int| 0 <= j < i ==> s1[j] == s2[j],
        forall|j: int| 0 <= j < i ==> s1[j].0 != k,
        s2[i].0 == k,
    ensures
        find_idx(s2, k) == i,
    decreases i,
{
    if i == 0 {
    } else {
        lemma_find_prefix_same(s1.skip(1), s2.skip(1), k, i - 1);
        assert(s1[0] == s2[0]);
        assert(s2[0].0 != k);
    }
}


/// The entries of an association sequence with each value replaced by its
/// mathematical view.
pub open spec fn mapped_entries<K, V: View>(s: Seq<(K, V)>) -> Seq<(K, V::V)> {
    s.map_values(|e: (K, V)| (e.0, e.1@))
}

/// Two association sequences with the same keys position by position have
/// the same first match index for every key.
pub proof fn lemma_find_idx_same_keys<K, V1, V2>(
    s1: Seq<(K, V1)>,
    s2: Seq<(K, V2)>,
    k: K,
)
    requires
        s1.len() == s2.len(),
        forall|i: int| 0 <= i < s1.len() ==> s1[i].0 == s2[i].0,
    ensures
        find_idx(s1, k) == find_idx(s2, k),
        has_key(s1, k) == has_key(s2, k),
    decreases s1.len(),
{
    lemma_find_idx(s1, k);
    lemma_find_idx(s2, k);
    if s1.len() > 0 && s1[0].0 != k {
        assert(forall|i: int|
            0 <= i < s1.skip(1).len() ==> s1.skip(1)[i].0 == s2.skip(1)[i].0);
        lemma_find_idx_same_keys(s1.skip(1), s2.skip(1), k);
    }
    if has_key(s1, k) {
        let i = choose|i: int| 0 <= i < s1.len() && s1[i].0 == k;
        assert(s2[i].0 == k);
    }
    if has_key(s2, k) {
        let i = choose|i: int| 0 <= i < s2.len() && s2[i].0 == k;
        assert(s1[i].0 == k);
    }
}


/// When the first `i` entries miss the key and entry `i` carries it, `i`
/// is the first match index.
pub proof fn lemma_find_prefix_known<K, V>(s: Seq<(K, V)>, k: K, i: int)
    requires
        0 <= i < s.len(),
        s[i].0 == k,
        forall|j: int| 0 <= j < i ==> s[j].0 != k,
    ensures
        find_idx(s, k) == i,
    decreases i,
{
    if i > 0 {
        assert(forall|j: int| 0 <= j < i - 1 ==> s.skip(1)[j].0 == s[j + 1].0);
        assert(s.skip(1)[i - 1] == s[i]);
        lemma_find_prefix_known(s.skip(1), k, i - 1);
    }
}

} // verus!
