//! The `Claims` storage map: content identifier to (owner, registration
//! height), with unique keys.
//!
//! Held as an association list; its mathematical model is a
//! `Map<ClaimId, (u64, u64)>`.

use vstd::prelude::*;

verus! {

/// A fixed-size content identifier (a 256-bit hash as four words).
#[derive(Clone, Copy, PartialEq, Eq, Structural, Debug)]
pub struct ClaimId {
    pub w0: u64,
    pub w1: u64,
    pub w2: u64,
    pub w3: u64,
}

impl ClaimId {
    /// A short identifier, for callers that only need the low word.
    pub fn from_u64(w: u64) -> (r: ClaimId)
        ensures
            r == (ClaimId { w0: w, w1: 0, w2: 0, w3: 0 }),
    {
        ClaimId { w0: w, w1: 0, w2: 0, w3: 0 }
    }
}

spec fn keys_unique(s: Seq<(ClaimId, (u64, u64))>) -> bool {
    forall|i: int, j: int| 0 <= i < j < s.len() ==> s[i].0 != s[j].0
}

spec fn map_of(s: Seq<(ClaimId, (u64, u64))>) -> Map<ClaimId, (u64, u64)>
    decreases s.len(),
{
    if s.len() == 0 {
        Map::empty()
    } else {
        map_of(s.drop_last()).insert(s.last().0, s.last().1)
    }
}

/// A key of `map_of` is exactly a key of some entry.
proof fn lemma_map_of_contains(s: Seq<(ClaimId, (u64, u64))>, k: ClaimId)
    ensures
        map_of(s).dom().contains(k) <==> exists|i: int| 0 <= i < s.len() && s[i].0 == k,
    decreases s.len(),
{
    if s.len() > 0 {
        lemma_map_of_contains(s.drop_last(), k);
        if s.last().0 == k {
            assert(s[s.len() - 1].0 == k);
        } else if map_of(s).dom().contains(k) {
            let i = choose|i: int| 0 <= i < s.drop_last().len() && s.drop_last()[i].0 == k;
            assert(s[i].0 == k);
        } else if exists|i: int| 0 <= i < s.len() && s[i].0 == k {
            let i = choose|i: int| 0 <= i < s.len() && s[i].0 == k;
            assert(s.drop_last()[i].0 == k);
        }
    }
}

/// With unique keys, the entry at any index gives the mapped value.
proof fn lemma_map_of_index(s: Seq<(ClaimId, (u64, u64))>, i: int)
    requires
        keys_unique(s),
        0 <= i < s.len(),
    ensures
        map_of(s).dom().contains(s[i].0),
        map_of(s)[s[i].0] == s[i].1,
    decreases s.len(),
{
    if i == s.len() - 1 {
        assert(map_of(s) == map_of(s.drop_last()).insert(s.last().0, s.last().1));
    } else {
        assert(s.drop_last()[i] == s[i]);
        lemma_keys_unique_drop_last(s);
        lemma_map_of_index(s.drop_last(), i);
        assert(s[i].0 != s.last().0);
    }
}

proof fn lemma_keys_unique_drop_last(s: Seq<(ClaimId, (u64, u64))>)
    requires
        keys_unique(s),
        s.len() > 0,
    ensures
        keys_unique(s.drop_last()),
{
    assert(forall|a: int, b: int|
        0 <= a < b < s.drop_last().len() ==> s.drop_last()[a] == s[a] && s.drop_last()[b] == s[b]);
}

/// Overwriting the entry at `i` with the same key updates the model map in place.
proof fn lemma_map_of_update(s: Seq<(ClaimId, (u64, u64))>, i: int, v: (u64, u64))
    requires
        keys_unique(s),
        0 <= i < s.len(),
    ensures
        map_of(s.update(i, (s[i].0, v))) == map_of(s).insert(s[i].0, v),
        keys_unique(s.update(i, (s[i].0, v))),
    decreases s.len(),
{
    let k = s[i].0;
    let t = s.update(i, (k, v));
    if i == s.len() - 1 {
        assert(t.drop_last() =~= s.drop_last());
        assert(t.last() == (k, v));
        assert(map_of(t) == map_of(s.drop_last()).insert(k, v));
        assert(map_of(s).insert(k, v) =~= map_of(s.drop_last()).insert(k, v));
    } else {
        lemma_keys_unique_drop_last(s);
        assert(s.drop_last()[i] == s[i]);
        lemma_map_of_update(s.drop_last(), i, v);
        assert(t.drop_last() =~= s.drop_last().update(i, (k, v)));
        assert(t.last() == s.last());
        assert(k != s.last().0);
        assert(map_of(t) == map_of(s.drop_last()).insert(k, v).insert(s.last().0, s.last().1));
        assert(map_of(s).insert(k, v) =~= map_of(s.drop_last()).insert(k, v).insert(
            s.last().0,
            s.last().1,
        ));
    }
}

/// Replacing the entry at `i` with one whose key occurs nowhere in `s`
/// removes the old key from the model map and adds the new one.
proof fn lemma_map_of_replace(s: Seq<(ClaimId, (u64, u64))>, i: int, e: (ClaimId, (u64, u64)))
    requires
        keys_unique(s),
        0 <= i < s.len(),
        forall|j: int| 0 <= j < s.len() ==> s[j].0 != e.0,
    ensures
        map_of(s.update(i, e)) == map_of(s).remove(s[i].0).insert(e.0, e.1),
        keys_unique(s.update(i, e)),
    decreases s.len(),
{
    let k = s[i].0;
    let t = s.update(i, e);
    lemma_keys_unique_drop_last(s);
    if i == s.len() - 1 {
        assert(t.drop_last() =~= s.drop_last());
        assert(t.last() == e);
        assert(map_of(t) == map_of(s.drop_last()).insert(e.0, e.1));
        assert(!map_of(s.drop_last()).dom().contains(k)) by {
            lemma_map_of_contains(s.drop_last(), k);
        }
        assert(map_of(s).remove(k) =~= map_of(s.drop_last()));
    } else {
        assert(s.drop_last()[i] == s[i]);
        lemma_map_of_replace(s.drop_last(), i, e);
        assert(t.drop_last() =~= s.drop_last().update(i, e));
        assert(t.last() == s.last());
        assert(k != s.last().0);
        assert(e.0 != s.last().0);
        assert(map_of(t) == map_of(s.drop_last()).remove(k).insert(e.0, e.1).insert(
            s.last().0,
            s.last().1,
        ));
        assert(map_of(s).remove(k).insert(e.0, e.1) =~= map_of(s.drop_last()).remove(k).insert(
            e.0,
            e.1,
        ).insert(s.last().0, s.last().1));
    }
}

/// Association list from claim id to (owner, height); keys occur at most once.
pub struct ClaimMap {
    entries: Vec<(ClaimId, (u64, u64))>,
}

impl View for ClaimMap {
    type V = Map<ClaimId, (u64, u64)>;

    closed spec fn view(&self) -> Map<ClaimId, (u64, u64)> {
        map_of(self.entries@)
    }
}

impl ClaimMap {
    /// Well-formedness: no claim id occurs twice.
    pub closed spec fn wf(self) -> bool {
        keys_unique(self.entries@)
    }

    /// An empty map.
    pub fn new() -> (r: ClaimMap)
        ensures
            r.wf(),
            r@ == Map::<ClaimId, (u64, u64)>::empty(),
    {
        ClaimMap { entries: Vec::new() }
    }

    /// The position of `k`'s entry, if there is one.
    fn index_of(&self, k: ClaimId) -> (r: Option<usize>)
        ensures
            match r {
                Some(i) => i < self.entries@.len() && self.entries@[i as int].0 == k,
                None => forall|j: int| 0 <= j < self.entries@.len() ==> self.entries@[j].0 != k,
            },
    {
        let n = self.entries.len();
        let mut i: usize = 0;
        while i < n
            invariant
                i <= n,
                n == self.entries@.len(),
                forall|j: int| 0 <= j < i ==> self.entries@[j].0 != k,
            decreases n - i,
        {
            if self.entries[i].0 == k {
                return Some(i);
            }
            i = i + 1;
        }
        None
    }

    /// Whether `k` is registered.
    pub fn contains_key(&self, k: ClaimId) -> (r: bool)
        requires
            self.wf(),
        ensures
            r == self@.dom().contains(k),
    {
        proof {
            lemma_map_of_contains(self.entries@, k);
        }
        self.index_of(k).is_some()
    }

    /// The (owner, height) stored for `k`, or `None` when `k` is not registered.
    pub fn get(&self, k: ClaimId) -> (r: Option<(u64, u64)>)
        requires
            self.wf(),
        ensures
            self@.dom().contains(k) ==> r == Some(self@[k]),
            !self@.dom().contains(k) ==> r is None,
    {
        proof {
            lemma_map_of_contains(self.entries@, k);
        }
        match self.index_of(k) {
            Some(i) => {
                proof {
                    lemma_map_of_index(self.entries@, i as int);
                }
                Some(self.entries[i].1)
            },
            None => None,
        }
    }

    /// Store `v` for `k`, overwriting any earlier entry.
    pub fn insert(&mut self, k: ClaimId, v: (u64, u64))
        requires
            old(self).wf(),
        ensures
            final(self).wf(),
            final(self)@ == old(self)@.insert(k, v),
    {
        proof {
            lemma_map_of_contains(self.entries@, k);
        }
        match self.index_of(k) {
            Some(i) => {
                proof {
                    lemma_map_of_update(self.entries@, i as int, v);
                }
                self.entries[i] = (k, v);
                assert(final(self).entries@ =~= old(self).entries@.update(i as int, (k, v)));
            },
            None => {
                let ghost s = self.entries@;
                self.entries.push((k, v));
                proof {
                    assert(self.entries@.drop_last() =~= s);
                    assert(keys_unique(self.entries@)) by {
                        assert(forall|j: int| 0 <= j < s.len() ==> self.entries@[j] == s[j]);
                    }
                    assert(map_of(self.entries@) == map_of(s).insert(k, v));
                }
            },
        }
    }

    /// Drop `k`'s entry; a missing key leaves the map as it was.
    pub fn remove(&mut self, k: ClaimId)
        requires
            old(self).wf(),
        ensures
            final(self).wf(),
            final(self)@ == old(self)@.remove(k),
    {
        proof {
            lemma_map_of_contains(self.entries@, k);
        }
        match self.index_of(k) {
            None => {
                proof {
                    assert(self@.remove(k) =~= self@);
                }
            },
            Some(i) => {
                let ghost s = self.entries@;
                let n = self.entries.len();
                proof {
                    lemma_keys_unique_drop_last(s);
                }
                if i == n - 1 {
                    proof {
                        assert(s.update(i as int, s.last()) =~= s);
                        assert(!map_of(s.drop_last()).dom().contains(k)) by {
                            lemma_map_of_contains(s.drop_last(), k);
                        }
                        assert(map_of(s).remove(k) =~= map_of(s.drop_last()));
                    }
                    self.entries.swap_remove(i);
                    assert(self.entries@ =~= s.drop_last());
                } else {
                    proof {
                        let d = s.drop_last();
                        assert(d[i as int] == s[i as int]);
                        assert(forall|j: int| 0 <= j < d.len() ==> d[j].0 != s.last().0);
                        lemma_map_of_replace(d, i as int, s.last());
                        assert(s.update(i as int, s.last()).drop_last() =~= d.update(
                            i as int,
                            s.last(),
                        ));
                        assert(map_of(s).remove(k) =~= map_of(d).remove(k).insert(
                            s.last().0,
                            s.last().1,
                        ));
                    }
                    self.entries.swap_remove(i);
                    assert(self.entries@ =~= old(self).entries@.drop_last().update(
                        i as int,
                        old(self).entries@.last(),
                    ));
                }
            },
        }
    }
}

} // verus!
