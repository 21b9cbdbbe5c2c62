//! The `Balances` storage map: account id to balance, with unique keys.
//!
//! The map is held as an association list; its mathematical model is a
//! `Map<u64, u128>` together with the sum of all stored balances, which the
//! ledger's conservation invariant compares against the total issuance.

use vstd::prelude::*;

verus! {

/// The balance that `m` holds for `k`, taking an absent entry as zero.
pub open spec fn val_or_zero(m: Map<u64, u128>, k: u64) -> int {
    if m.dom().contains(k) {
        m[k] as int
    } else {
        0
    }
}

spec fn keys_unique(s: Seq<(u64, u128)>) -> bool {
    forall|i: int, j: int| 0 <= i < j < s.len() ==> s[i].0 != s[j].0
}

spec fn map_of(s: Seq<(u64, u128)>) -> Map<u64, u128>
    decreases s.len(),
{
    if s.len() == 0 {
        Map::empty()
    } else {
        map_of(s.drop_last()).insert(s.last().0, s.last().1)
    }
}

spec fn sum_of(s: Seq<(u64, u128)>) -> int
    decreases s.len(),
{
    if s.len() == 0 {
        0
    } else {
        sum_of(s.drop_last()) + s.last().1
    }
}

/// A key of `map_of` is exactly a key of some entry.
proof fn lemma_map_of_contains(s: Seq<(u64, u128)>, k: u64)
    ensures
        map_of(s).dom().contains(k) <==> exists|i: int| 0 <= i < s.len() && s[i].0 == k,
    decreases s.len(),
{
    if s.len() > 0 {
        lemma_map_of_contains(s.drop_last(), k);
        if s.last().0 == k {
            assert(s[s.len() - 1].0 == k);
        } else if map_of(s).dom().contains(k) {
            let i = choose|i: int| 0 <= i < s.drop_last().len() && s.drop_last()[i].0 == k;
            assert(s[i].0 == k);
        } else if exists|i: int| 0 <= i < s.len() && s[i].0 == k {
            let i = choose|i: int| 0 <= i < s.len() && s[i].0 == k;
            assert(s.drop_last()[i].0 == k);
        }
    }
}

/// With unique keys, the entry at any index gives the mapped value.
proof fn lemma_map_of_index(s: Seq<(u64, u128)>, i: int)
    requires
        keys_unique(s),
        0 <= i < s.len(),
    ensures
        map_of(s).dom().contains(s[i].0),
        map_of(s)[s[i].0] == s[i].1,
    decreases s.len(),
{
    if i == s.len() - 1 {
        assert(map_of(s) == map_of(s.drop_last()).insert(s.last().0, s.last().1));
    } else {
        assert(s.drop_last()[i] == s[i]);
        assert(keys_unique(s.drop_last())) by {
            assert(forall|a: int, b: int|
                0 <= a < b < s.drop_last().len() ==> s.drop_last()[a] == s[a] && s.drop_last()[b]
                    == s[b]);
        }
        lemma_map_of_index(s.drop_last(), i);
        assert(s[i].0 != s.last().0);
    }
}

proof fn lemma_keys_unique_drop_last(s: Seq<(u64, u128)>)
    requires
        keys_unique(s),
        s.len() > 0,
    ensures
        keys_unique(s.drop_last()),
{
    assert(forall|a: int, b: int|
        0 <= a < b < s.drop_last().len() ==> s.drop_last()[a] == s[a] && s.drop_last()[b] == s[b]);
}

/// Overwriting the entry at `i` with the same key updates the model map in place.
proof fn lemma_map_of_update(s: Seq<(u64, u128)>, i: int, v: u128)
    requires
        keys_unique(s),
        0 <= i < s.len(),
    ensures
        map_of(s.update(i, (s[i].0, v))) == map_of(s).insert(s[i].0, v),
    decreases s.len(),
{
    let k = s[i].0;
    let t = s.update(i, (k, v));
    if i == s.len() - 1 {
        assert(t.drop_last() =~= s.drop_last());
        assert(t.last() == (k, v));
        assert(map_of(t) == map_of(s.drop_last()).insert(k, v));
        assert(map_of(s).insert(k, v) =~= map_of(s.drop_last()).insert(k, v));
    } else {
        lemma_keys_unique_drop_last(s);
        assert(s.drop_last()[i] == s[i]);
        lemma_map_of_update(s.drop_last(), i, v);
        assert(t.drop_last() =~= s.drop_last().update(i, (k, v)));
        assert(t.last() == s.last());
        assert(k != s.last().0);
        assert(map_of(t) == map_of(s.drop_last()).insert(k, v).insert(s.last().0, s.last().1));
        assert(map_of(s).insert(k, v) =~= map_of(s.drop_last()).insert(k, v).insert(
            s.last().0,
            s.last().1,
        ));
    }
}

/// The same overwrite changes the sum by the difference of the values.
proof fn lemma_sum_of_update(s: Seq<(u64, u128)>, i: int, v: u128)
    requires
        0 <= i < s.len(),
    ensures
        sum_of(s.update(i, (s[i].0, v))) == sum_of(s) - s[i].1 + v,
    decreases s.len(),
{
    let t = s.update(i, (s[i].0, v));
    if i == s.len() - 1 {
        assert(t.drop_last() =~= s.drop_last());
        assert(t.last() == (s[i].0, v));
    } else {
        lemma_sum_of_update(s.drop_last(), i, v);
        assert(t.drop_last() =~= s.drop_last().update(i, (s[i].0, v)));
        assert(t.last() == s.last());
    }
}

/// Every stored balance is bounded by the sum of all of them.
proof fn lemma_index_le_sum(s: Seq<(u64, u128)>, k: u64)
    requires
        map_of(s).dom().contains(k),
    ensures
        map_of(s)[k] <= sum_of(s),
    decreases s.len(),
{
    lemma_sum_of_nonneg(s);
    if s.len() > 0 {
        lemma_sum_of_nonneg(s.drop_last());
        if s.last().0 == k {
            assert(map_of(s)[k] == s.last().1);
        } else {
            lemma_index_le_sum(s.drop_last(), k);
        }
    }
}

proof fn lemma_sum_of_nonneg(s: Seq<(u64, u128)>)
    ensures
        sum_of(s) >= 0,
    decreases s.len(),
{
    if s.len() > 0 {
        lemma_sum_of_nonneg(s.drop_last());
    }
}

/// Association list from account id to balance; keys occur at most once.
pub struct BalanceMap {
    entries: Vec<(u64, u128)>,
}

impl View for BalanceMap {
    type V = Map<u64, u128>;

    closed spec fn view(&self) -> Map<u64, u128> {
        map_of(self.entries@)
    }
}

impl BalanceMap {
    /// Well-formedness: no account id occurs twice.
    pub closed spec fn wf(self) -> bool {
        keys_unique(self.entries@)
    }

    /// The sum of all stored balances.
    pub closed spec fn sum(self) -> int {
        sum_of(self.entries@)
    }

    /// An empty map.
    pub fn new() -> (r: BalanceMap)
        ensures
            r.wf(),
            r@ == Map::<u64, u128>::empty(),
            r.sum() == 0,
    {
        BalanceMap { entries: Vec::new() }
    }

    /// The position of `k`'s entry, if there is one.
    fn index_of(&self, k: u64) -> (r: Option<usize>)
        ensures
            match r {
                Some(i) => i < self.entries@.len() && self.entries@[i as int].0 == k,
                None => forall|j: int| 0 <= j < self.entries@.len() ==> self.entries@[j].0 != k,
            },
    {
        let n = self.entries.len();
        let mut i: usize = 0;
        while i < n
            invariant
                i <= n,
                n == self.entries@.len(),
                forall|j: int| 0 <= j < i ==> self.entries@[j].0 != k,
            decreases n - i,
        {
            if self.entries[i].0 == k {
                return Some(i);
            }
            i = i + 1;
        }
        None
    }

    /// Whether `k` has an entry.
    pub fn contains_key(&self, k: u64) -> (r: bool)
        requires
            self.wf(),
        ensures
            r == self@.dom().contains(k),
    {
        proof {
            lemma_map_of_contains(self.entries@, k);
        }
        self.index_of(k).is_some()
    }

    /// The balance stored for `k`, or `None` when `k` has no entry.
    pub fn get(&self, k: u64) -> (r: Option<u128>)
        requires
            self.wf(),
        ensures
            self@.dom().contains(k) ==> r == Some(self@[k]),
            !self@.dom().contains(k) ==> r is None,
    {
        proof {
            lemma_map_of_contains(self.entries@, k);
        }
        match self.index_of(k) {
            Some(i) => {
                proof {
                    lemma_map_of_index(self.entries@, i as int);
                }
                Some(self.entries[i].1)
            },
            None => None,
        }
    }

    /// Store `v` for `k`, overwriting any earlier entry.
    pub fn insert(&mut self, k: u64, v: u128)
        requires
            old(self).wf(),
        ensures
            final(self).wf(),
            final(self)@ == old(self)@.insert(k, v),
            final(self).sum() == old(self).sum() - val_or_zero(old(self)@, k) + v,
    {
        proof {
            lemma_map_of_contains(self.entries@, k);
        }
        match self.index_of(k) {
            Some(i) => {
                proof {
                    lemma_map_of_index(self.entries@, i as int);
                    lemma_map_of_update(self.entries@, i as int, v);
                    lemma_sum_of_update(self.entries@, i as int, v);
                }
                self.entries[i] = (k, v);
                assert(final(self).entries@ =~= old(self).entries@.update(i as int, (k, v)));
            },
            None => {
                let ghost s = self.entries@;
                self.entries.push((k, v));
                proof {
                    assert(self.entries@.drop_last() =~= s);
                    assert(keys_unique(self.entries@)) by {
                        assert(forall|j: int| 0 <= j < s.len() ==> self.entries@[j] == s[j]);
                    }
                    assert(map_of(self.entries@) == map_of(s).insert(k, v));
                }
            },
        }
    }

    /// The sum of all stored balances, as a machine integer.
    pub fn sum_values(&self) -> (r: u128)
        requires
            self.sum() <= u128::MAX,
        ensures
            r == self.sum(),
    {
        let n = self.entries.len();
        let mut total: u128 = 0;
        let mut i: usize = 0;
        while i < n
            invariant
                i <= n,
                n == self.entries@.len(),
                total == sum_of(self.entries@.take(i as int)),
                sum_of(self.entries@) <= u128::MAX,
            decreases n - i,
        {
            proof {
                lemma_sum_of_take_step(self.entries@, i as int);
                lemma_sum_of_take_le(self.entries@, i as int + 1);
            }
            total = total + self.entries[i].1;
            i = i + 1;
        }
        proof {
            assert(self.entries@.take(n as int) =~= self.entries@);
        }
        total
    }

    /// Every stored balance is bounded by the sum of all of them.
    pub proof fn lemma_value_le_sum(self, k: u64)
        requires
            self@.dom().contains(k),
        ensures
            self@[k] <= self.sum(),
            self.sum() >= 0,
    {
        lemma_index_le_sum(self.entries@, k);
        lemma_sum_of_nonneg(self.entries@);
    }
}

/// Extending a prefix by one entry adds that entry's balance to its sum.
proof fn lemma_sum_of_take_step(s: Seq<(u64, u128)>, i: int)
    requires
        0 <= i < s.len(),
    ensures
        sum_of(s.take(i + 1)) == sum_of(s.take(i)) + s[i].1,
{
    assert(s.take(i + 1).drop_last() =~= s.take(i));
    assert(s.take(i + 1).last() == s[i]);
}

/// A prefix never sums to more than the whole sequence.
proof fn lemma_sum_of_take_le(s: Seq<(u64, u128)>, i: int)
    requires
        0 <= i <= s.len(),
    ensures
        sum_of(s.take(i)) <= sum_of(s),
    decreases s.len() - i,
{
    if i < s.len() {
        lemma_sum_of_take_step(s, i);
        lemma_sum_of_take_le(s, i + 1);
    } else {
        assert(s.take(i) =~= s);
    }
}

} // verus!
