//! A small verified map from automation addresses (`u64`) to bookkeeping
//! values, stored as an association vector with pairwise-distinct keys. Its
//! mathematical view is a finite `Map<u64, V>`.

use vstd::prelude::*;

verus! {

/// True when no key occurs twice in `s`.
pub open spec fn unique_keys<V>(s: Seq<(u64, V)>) -> bool {
    forall|i: int, j: int| 0 <= i < j < s.len() ==> s[i].0 != s[j].0
}

/// True when some pair in `s` carries the key `k`.
pub open spec fn has_key<V>(s: Seq<(u64, V)>, k: u64) -> bool {
    exists|i: int| 0 <= i < s.len() && s[i].0 == k
}

/// The finite map described by an association sequence; a later pair for the
/// same key wins.
pub open spec fn assoc_map<V>(s: Seq<(u64, V)>) -> Map<u64, V>
    decreases s.len(),
{
    if s.len() == 0 {
        Map::empty()
    } else {
        assoc_map(s.drop_last()).insert(s.last().0, s.last().1)
    }
}

pub proof fn lemma_assoc_map_contains<V>(s: Seq<(u64, V)>, k: u64)
    ensures
        assoc_map(s).dom().contains(k) <==> has_key(s, k),
    decreases s.len(),
{
    if s.len() > 0 {
        lemma_assoc_map_contains(s.drop_last(), k);
        if s.last().0 == k {
            assert(s[s.len() - 1].0 == k);
        } else {
            if has_key(s, k) {
                let i = choose|i: int| 0 <= i < s.len() && s[i].0 == k;
                assert(s.drop_last()[i] == s[i]);
            }
            if has_key(s.drop_last(), k) {
                let i = choose|i: int|
                    0 <= i < s.drop_last().len() && s.drop_last()[i].0 == k;
                assert(s[i].0 == k);
            }
        }
    }
}

pub proof fn lemma_assoc_map_index<V>(s: Seq<(u64, V)>, i: int)
    requires
        unique_keys(s),
        0 <= i < s.len(),
    ensures
        assoc_map(s).dom().contains(s[i].0),
        assoc_map(s)[s[i].0] == s[i].1,
    decreases s.len(),
{
    if i < s.len() - 1 {
        assert(s.last().0 != s[i].0);
        assert(s.drop_last()[i] == s[i]);
        lemma_assoc_map_index(s.drop_last(), i);
    }
}

pub proof fn lemma_assoc_map_len<V>(s: Seq<(u64, V)>)
    requires
        unique_keys(s),
    ensures
        assoc_map(s).dom().finite(),
        assoc_map(s).len() == s.len(),
    decreases s.len(),
{
    if s.len() > 0 {
        lemma_assoc_map_len(s.drop_last());
        lemma_assoc_map_contains(s.drop_last(), s.last().0);
        assert(!has_key(s.drop_last(), s.last().0)) by {
            if has_key(s.drop_last(), s.last().0) {
                let i = choose|i: int|
                    0 <= i < s.drop_last().len() && s.drop_last()[i].0 == s.last().0;
                assert(s[i].0 == s[s.len() - 1].0);
            }
        }
    }
}

/// Removing position `i` removes exactly the key `s[i].0` from the map.
pub proof fn lemma_assoc_map_remove_at<V>(s: Seq<(u64, V)>, i: int)
    requires
        unique_keys(s),
        0 <= i < s.len(),
    ensures
        unique_keys(s.remove(i)),
        !has_key(s.remove(i), s[i].0),
        assoc_map(s.remove(i)) == assoc_map(s).remove(s[i].0),
    decreases s.len(),
{
    let k = s[i].0;
    let t = s.remove(i);
    assert(unique_keys(t)) by {
        assert forall|p: int, q: int| 0 <= p < q < t.len() implies t[p].0 != t[q].0 by {
            let p0 = if p < i { p } else { p + 1 };
            let q0 = if q < i { q } else { q + 1 };
            assert(t[p] == s[p0] && t[q] == s[q0]);
        }
    }
    assert(!has_key(t, k)) by {
        if has_key(t, k) {
            let j = choose|j: int| 0 <= j < t.len() && t[j].0 == k;
            let j0 = if j < i { j } else { j + 1 };
            assert(t[j] == s[j0] && j0 != i);
        }
    }
    if i == s.len() - 1 {
        assert(t =~= s.drop_last());
        lemma_assoc_map_contains(s.drop_last(), k);
        assert(!has_key(s.drop_last(), k)) by {
            if has_key(s.drop_last(), k) {
                let j = choose|j: int|
                    0 <= j < s.drop_last().len() && s.drop_last()[j].0 == k;
                assert(s[j].0 == s[i].0);
            }
        }
        assert(assoc_map(s).remove(k) =~= assoc_map(s.drop_last()));
    } else {
        let dl = s.drop_last();
        assert(unique_keys(dl));
        lemma_assoc_map_remove_at(dl, i);
        assert(t.drop_last() =~= dl.remove(i));
        assert(t.last() == s.last());
        assert(assoc_map(t) == assoc_map(dl.remove(i)).insert(s.last().0, s.last().1));
        assert(s.last().0 != k);
        assert(assoc_map(dl).insert(s.last().0, s.last().1).remove(k)
            =~= assoc_map(dl).remove(k).insert(s.last().0, s.last().1));
    }
}

/// Appending a pair with a fresh key inserts that key into the map.
pub proof fn lemma_assoc_map_push<V>(s: Seq<(u64, V)>, k: u64, v: V)
    requires
        unique_keys(s),
        !has_key(s, k),
    ensures
        unique_keys(s.push((k, v))),
        assoc_map(s.push((k, v))) == assoc_map(s).insert(k, v),
{
    let t = s.push((k, v));
    assert(t.drop_last() =~= s);
    assert(unique_keys(t)) by {
        assert forall|p: int, q: int| 0 <= p < q < t.len() implies t[p].0 != t[q].0 by {
            if q == t.len() - 1 {
                assert(t[p] == s[p]);
            } else {
                assert(t[p] == s[p] && t[q] == s[q]);
            }
        }
    }
}

/// A map from automation addresses to bookkeeping values, with a finite
/// `Map<u64, V>` as its mathematical view.
#[derive(Debug)]
pub struct RefMap<V> {
    entries: Vec<(u64, V)>,
}

impl<V> View for RefMap<V> {
    type V = Map<u64, V>;

    closed spec fn view(&self) -> Map<u64, V> {
        assoc_map(self.entries@)
    }
}

impl<V: Copy> RefMap<V> {
    /// Well-formed: each key is stored at most once.
    pub closed spec fn wf(&self) -> bool {
        unique_keys(self.entries@)
    }

    /// A well-formed map has a finite domain.
    pub proof fn lemma_finite(&self)
        requires
            self.wf(),
        ensures
            self@.dom().finite(),
    {
        lemma_assoc_map_len(self.entries@);
    }

    pub fn new() -> (r: RefMap<V>)
        ensures
            r.wf(),
            r@ == Map::<u64, V>::empty(),
    {
        RefMap { entries: Vec::new() }
    }

    fn index_of(&self, k: u64) -> (r: Option<usize>)
        ensures
            match r {
                Some(i) => i < self.entries@.len() && self.entries@[i as int].0 == k,
                None => !has_key(self.entries@, k),
            },
    {
        let mut i: usize = 0;
        while i < self.entries.len()
            invariant
                i <= self.entries@.len(),
                forall|j: int| 0 <= j < i ==> self.entries@[j].0 != k,
            decreases self.entries@.len() - i,
        {
            if self.entries[i].0 == k {
                return Some(i);
            }
            i += 1;
        }
        None
    }

    pub fn contains_key(&self, k: u64) -> (r: bool)
        ensures
            r == self@.dom().contains(k),
    {
        proof {
            lemma_assoc_map_contains(self.entries@, k);
        }
        self.index_of(k).is_some()
    }

    pub fn get(&self, k: u64) -> (r: Option<V>)
        requires
            self.wf(),
        ensures
            match r {
                Some(v) => self@.dom().contains(k) && self@[k] == v,
                None => !self@.dom().contains(k),
            },
    {
        proof {
            lemma_assoc_map_contains(self.entries@, k);
        }
        match self.index_of(k) {
            Some(i) => {
                proof {
                    lemma_assoc_map_index(self.entries@, i as int);
                }
                Some(self.entries[i].1)
            },
            None => None,
        }
    }

    pub fn insert(&mut self, k: u64, v: V)
        requires
            old(self).wf(),
        ensures
            final(self).wf(),
            final(self)@ == old(self)@.insert(k, v),
    {
        let ghost s0 = self.entries@;
        match self.index_of(k) {
            Some(i) => {
                proof {
                    lemma_assoc_map_remove_at(s0, i as int);
                }
                self.entries.remove(i);
                proof {
                    lemma_assoc_map_push(s0.remove(i as int), k, v);
                    assert(assoc_map(s0).remove(k).insert(k, v) =~= assoc_map(s0).insert(k, v));
                }
                self.entries.push((k, v));
            },
            None => {
                proof {
                    lemma_assoc_map_push(s0, k, v);
                }
                self.entries.push((k, v));
            },
        }
    }

    pub fn remove(&mut self, k: u64)
        requires
            old(self).wf(),
        ensures
            final(self).wf(),
            final(self)@ == old(self)@.remove(k),
    {
        let ghost s0 = self.entries@;
        match self.index_of(k) {
            Some(i) => {
                proof {
                    lemma_assoc_map_remove_at(s0, i as int);
                }
                self.entries.remove(i);
            },
            None => {
                proof {
                    lemma_assoc_map_contains(s0, k);
                    assert(assoc_map(s0).remove(k) =~= assoc_map(s0));
                }
            },
        }
    }

    pub fn len(&self) -> (r: usize)
        requires
            self.wf(),
        ensures
            r == self@.len(),
    {
        proof {
            lemma_assoc_map_len(self.entries@);
        }
        self.entries.len()
    }

    /// The keys currently stored, each exactly once.
    pub fn keys(&self) -> (r: Vec<u64>)
        requires
            self.wf(),
        ensures
            r@.no_duplicates(),
            r@.len() == self@.len(),
            forall|k: u64| #[trigger] r@.contains(k) <==> self@.dom().contains(k),
    {
        let mut r: Vec<u64> = Vec::new();
        let mut i: usize = 0;
        while i < self.entries.len()
            invariant
                i <= self.entries@.len(),
                r@.len() == i,
                forall|j: int| 0 <= j < i ==> r@[j] == self.entries@[j].0,
            decreases self.entries@.len() - i,
        {
            let k = self.entries[i].0;
            r.push(k);
            i += 1;
        }
        proof {
            lemma_assoc_map_len(self.entries@);
            assert(r@.no_duplicates()) by {
                assert forall|p: int, q: int|
                    0 <= p < q < r@.len() implies r@[p] != r@[q] by {
                    assert(r@[p] == self.entries@[p].0 && r@[q] == self.entries@[q].0);
                }
            }
            assert forall|k: u64| #[trigger] r@.contains(k) <==> self@.dom().contains(k) by {
                lemma_assoc_map_contains(self.entries@, k);
                if r@.contains(k) {
                    let j = choose|j: int| 0 <= j < r@.len() && r@[j] == k;
                    assert(self.entries@[j].0 == k);
                }
                if has_key(self.entries@, k) {
                    let j = choose|j: int|
                        0 <= j < self.entries@.len() && self.entries@[j].0 == k;
                    assert(r@[j] == k);
                }
            }
        }
        r
    }
}

} // verus!
