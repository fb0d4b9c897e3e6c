use vstd::prelude::*;

use crate::account::AccountId;

verus! {

// ---------------------------------------------------------------------------
// Balances
// ---------------------------------------------------------------------------

/// Sparse balance store: a list of (account, units) entries. An account with
/// no entry holds zero units. The well-formedness condition `wf` keeps at
/// most one entry per account, so `sum` adds every account's balance exactly
/// once.
pub(crate) struct BalanceMap {
    entries: Vec<(AccountId, u128)>,
}

/// The balance recorded in `s` for `k`: the value of the first entry whose
/// key is `k`, or zero when no entry has that key.
pub(crate) open spec fn bal_get(s: Seq<(AccountId, u128)>, k: AccountId) -> u128
    decreases s.len(),
{
    if s.len() == 0 {
        0u128
    } else if s[0].0 == k {
        s[0].1
    } else {
        bal_get(s.drop_first(), k)
    }
}

/// The sum of all recorded balances.
pub(crate) open spec fn bal_sum(s: Seq<(AccountId, u128)>) -> int
    decreases s.len(),
{
    if s.len() == 0 {
        0int
    } else {
        s[0].1 + bal_sum(s.drop_first())
    }
}

/// Each account has at most one entry.
pub(crate) open spec fn bal_unique(s: Seq<(AccountId, u128)>) -> bool {
    forall|i: int, j: int| 0 <= i < j < s.len() ==> s[i].0 != s[j].0
}

proof fn lemma_bal_sum_nonneg(s: Seq<(AccountId, u128)>)
    ensures
        0 <= bal_sum(s),
    decreases s.len(),
{
    if s.len() > 0 {
        lemma_bal_sum_nonneg(s.drop_first());
    }
}

proof fn lemma_bal_get_le_sum(s: Seq<(AccountId, u128)>, k: AccountId)
    ensures
        bal_get(s, k) <= bal_sum(s),
        0 <= bal_sum(s),
    decreases s.len(),
{
    lemma_bal_sum_nonneg(s);
    if s.len() > 0 {
        if s[0].0 == k {
            lemma_bal_sum_nonneg(s.drop_first());
        } else {
            lemma_bal_get_le_sum(s.drop_first(), k);
        }
    }
}

/// The first entry whose key is `k` carries the recorded value.
proof fn lemma_bal_get_at(s: Seq<(AccountId, u128)>, i: int, k: AccountId)
    requires
        0 <= i < s.len(),
        s[i].0 == k,
        forall|j: int| 0 <= j < i ==> s[j].0 != k,
    ensures
        bal_get(s, k) == s[i].1,
    decreases s.len(),
{
    if i > 0 {
        lemma_bal_get_at(s.drop_first(), i - 1, k);
    }
}

/// A key with no entry reads as zero.
proof fn lemma_bal_get_absent(s: Seq<(AccountId, u128)>, k: AccountId)
    requires
        forall|j: int| 0 <= j < s.len() ==> s[j].0 != k,
    ensures
        bal_get(s, k) == 0,
    decreases s.len(),
{
    if s.len() > 0 {
        lemma_bal_get_absent(s.drop_first(), k);
    }
}

/// Overwriting the first entry for `k` changes that key's reading, leaves
/// every other key's reading alone, and moves the sum by the difference.
proof fn lemma_bal_update(s: Seq<(AccountId, u128)>, i: int, k: AccountId, v: u128)
    requires
        0 <= i < s.len(),
        s[i].0 == k,
        forall|j: int| 0 <= j < i ==> s[j].0 != k,
    ensures
        bal_get(s.update(i, (k, v)), k) == v,
        forall|x: AccountId| x != k ==> bal_get(s.update(i, (k, v)), x) == bal_get(s, x),
        bal_sum(s.update(i, (k, v))) == bal_sum(s) - s[i].1 + v,
    decreases s.len(),
{
    let t = s.update(i, (k, v));
    if i == 0 {
        assert(t.drop_first() =~= s.drop_first());
    } else {
        assert(t[0] == s[0]);
        assert(t.drop_first() =~= s.drop_first().update(i - 1, (k, v)));
        lemma_bal_update(s.drop_first(), i - 1, k, v);
        assert forall|x: AccountId| x != k implies bal_get(t, x) == bal_get(s, x) by {
            if s[0].0 != x {
                assert(bal_get(t.drop_first(), x) == bal_get(s.drop_first(), x));
            }
        }
    }
}

/// Appending an entry for a key that has none sets that key's reading and
/// adds the new value to the sum.
proof fn lemma_bal_push(s: Seq<(AccountId, u128)>, k: AccountId, v: u128)
    requires
        forall|j: int| 0 <= j < s.len() ==> s[j].0 != k,
    ensures
        bal_get(s.push((k, v)), k) == v,
        forall|x: AccountId| x != k ==> bal_get(s.push((k, v)), x) == bal_get(s, x),
        bal_sum(s.push((k, v))) == bal_sum(s) + v,
    decreases s.len(),
{
    let t = s.push((k, v));
    if s.len() == 0 {
        assert(t[0] == (k, v));
        assert(t.drop_first() =~= Seq::<(AccountId, u128)>::empty());
        assert(bal_sum(t) == v + bal_sum(t.drop_first()));
        assert forall|x: AccountId| x != k implies bal_get(t, x) == bal_get(s, x) by {
            assert(bal_get(t, x) == bal_get(t.drop_first(), x));
        }
    } else {
        assert(t[0] == s[0]);
        assert(t.drop_first() =~= s.drop_first().push((k, v)));
        lemma_bal_push(s.drop_first(), k, v);
        assert forall|x: AccountId| x != k implies bal_get(t, x) == bal_get(s, x) by {
            if s[0].0 != x {
                assert(bal_get(t.drop_first(), x) == bal_get(s.drop_first(), x));
            }
        }
    }
}

impl BalanceMap {
    /// The balance this store records for `k`; zero when `k` is absent.
    pub(crate) closed spec fn get_spec(self, k: AccountId) -> u128 {
        bal_get(self.entries@, k)
    }

    /// The sum of every account's recorded balance.
    pub(crate) closed spec fn sum(self) -> int {
        bal_sum(self.entries@)
    }

    /// At most one entry per account.
    pub(crate) closed spec fn wf(self) -> bool {
        bal_unique(self.entries@)
    }

    /// No single balance exceeds the sum of all of them, and the sum is
    /// never negative.
    pub(crate) proof fn lemma_get_le_sum(self, k: AccountId)
        ensures
            self.get_spec(k) <= self.sum(),
            0 <= self.sum(),
    {
        lemma_bal_get_le_sum(self.entries@, k);
    }

    pub(crate) fn new() -> (r: BalanceMap)
        ensures
            r.wf(),
            r.sum() == 0,
            forall|k: AccountId| r.get_spec(k) == 0,
    {
        BalanceMap { entries: Vec::new() }
    }

    /// The position of the first entry for `k`, if any.
    fn index_of(&self, k: AccountId) -> (r: Option<usize>)
        ensures
            r matches Some(i) ==> i < self.entries@.len() && self.entries@[i as int].0 == k
                && (forall|j: int| 0 <= j < i ==> self.entries@[j].0 != k),
            r is None ==> (forall|j: int| 0 <= j < self.entries@.len() ==> self.entries@[j].0 != k),
    {
        let n = self.entries.len();
        let mut i: usize = 0;
        while i < n
            invariant
                i <= n,
                n == self.entries@.len(),
                forall|j: int| 0 <= j < i ==> self.entries@[j].0 != k,
            decreases n - i,
        {
            if self.entries[i].0 == k {
                return Some(i);
            }
            i = i + 1;
        }
        None
    }

    pub(crate) fn get(&self, k: AccountId) -> (r: u128)
        ensures
            r == self.get_spec(k),
    {
        match self.index_of(k) {
            Some(i) => {
                proof {
                    lemma_bal_get_at(self.entries@, i as int, k);
                }
                self.entries[i].1
            },
            None => {
                proof {
                    lemma_bal_get_absent(self.entries@, k);
                }
                0
            },
        }
    }

    /// Record balance `v` for `k`, leaving every other account's reading
    /// alone; the sum moves by exactly the difference between the new and
    /// the old reading.
    pub(crate) fn set(&mut self, k: AccountId, v: u128)
        requires
            old(self).wf(),
        ensures
            final(self).wf(),
            final(self).get_spec(k) == v,
            forall|x: AccountId| x != k ==> final(self).get_spec(x) == old(self).get_spec(x),
            final(self).sum() == old(self).sum() - old(self).get_spec(k) + v,
    {
        match self.index_of(k) {
            Some(i) => {
                proof {
                    lemma_bal_get_at(self.entries@, i as int, k);
                    lemma_bal_update(self.entries@, i as int, k, v);
                }
                self.entries.set(i, (k, v));
                proof {
                    assert forall|a: int, b: int|
                        0 <= a < b < self.entries@.len() implies self.entries@[a].0
                        != self.entries@[b].0 by {
                        assert(self.entries@[a].0 == old(self).entries@[a].0);
                        assert(self.entries@[b].0 == old(self).entries@[b].0);
                    }
                }
            },
            None => {
                proof {
                    lemma_bal_get_absent(self.entries@, k);
                    lemma_bal_push(self.entries@, k, v);
                }
                self.entries.push((k, v));
                proof {
                    assert forall|a: int, b: int|
                        0 <= a < b < self.entries@.len() implies self.entries@[a].0
                        != self.entries@[b].0 by {
                        assert(self.entries@[a] == old(self).entries@[a]);
                        if b < self.entries@.len() - 1 {
                            assert(self.entries@[b] == old(self).entries@[b]);
                        }
                    }
                }
            },
        }
    }
}

// ---------------------------------------------------------------------------
// Allowances
// ---------------------------------------------------------------------------

/// Sparse allowance store: a list of (owner, spender, units) entries. A pair
/// with no entry has a zero allowance. `wf` keeps at most one entry per
/// (owner, spender) pair.
pub(crate) struct AllowanceMap {
    entries: Vec<(AccountId, AccountId, u128)>,
}

/// The allowance recorded in `s` for the pair (`o`, `p`): the value of the
/// first entry for that pair, or zero when there is none.
pub(crate) open spec fn alw_get(s: Seq<(AccountId, AccountId, u128)>, o: AccountId, p: AccountId) -> u128
    decreases s.len(),
{
    if s.len() == 0 {
        0u128
    } else if s[0].0 == o && s[0].1 == p {
        s[0].2
    } else {
        alw_get(s.drop_first(), o, p)
    }
}

/// Each (owner, spender) pair has at most one entry.
pub(crate) open spec fn alw_unique(s: Seq<(AccountId, AccountId, u128)>) -> bool {
    forall|i: int, j: int|
        0 <= i < j < s.len() ==> !(s[i].0 == s[j].0 && s[i].1 == s[j].1)
}

/// The first entry for the pair carries the recorded value.
proof fn lemma_alw_get_at(s: Seq<(AccountId, AccountId, u128)>, i: int, o: AccountId, p: AccountId)
    requires
        0 <= i < s.len(),
        s[i].0 == o && s[i].1 == p,
        forall|j: int| 0 <= j < i ==> !(s[j].0 == o && s[j].1 == p),
    ensures
        alw_get(s, o, p) == s[i].2,
    decreases s.len(),
{
    if i > 0 {
        lemma_alw_get_at(s.drop_first(), i - 1, o, p);
    }
}

/// A pair with no entry reads as zero.
proof fn lemma_alw_get_absent(s: Seq<(AccountId, AccountId, u128)>, o: AccountId, p: AccountId)
    requires
        forall|j: int| 0 <= j < s.len() ==> !(s[j].0 == o && s[j].1 == p),
    ensures
        alw_get(s, o, p) == 0,
    decreases s.len(),
{
    if s.len() > 0 {
        lemma_alw_get_absent(s.drop_first(), o, p);
    }
}

/// Overwriting the first entry for a pair changes that pair's reading and
/// leaves every other pair's reading alone.
proof fn lemma_alw_update(
    s: Seq<(AccountId, AccountId, u128)>,
    i: int,
    o: AccountId,
    p: AccountId,
    v: u128,
)
    requires
        0 <= i < s.len(),
        s[i].0 == o && s[i].1 == p,
        forall|j: int| 0 <= j < i ==> !(s[j].0 == o && s[j].1 == p),
    ensures
        alw_get(s.update(i, (o, p, v)), o, p) == v,
        forall|x: AccountId, y: AccountId|
            !(x == o && y == p) ==> alw_get(s.update(i, (o, p, v)), x, y) == alw_get(s, x, y),
    decreases s.len(),
{
    let t = s.update(i, (o, p, v));
    if i == 0 {
        assert(t.drop_first() =~= s.drop_first());
    } else {
        assert(t[0] == s[0]);
        assert(t.drop_first() =~= s.drop_first().update(i - 1, (o, p, v)));
        lemma_alw_update(s.drop_first(), i - 1, o, p, v);
        assert forall|x: AccountId, y: AccountId|
            !(x == o && y == p) implies alw_get(t, x, y) == alw_get(s, x, y) by {
            if !(s[0].0 == x && s[0].1 == y) {
                assert(alw_get(t.drop_first(), x, y) == alw_get(s.drop_first(), x, y));
            }
        }
    }
}

/// Appending an entry for a pair that has none sets that pair's reading.
proof fn lemma_alw_push(s: Seq<(AccountId, AccountId, u128)>, o: AccountId, p: AccountId, v: u128)
    requires
        forall|j: int| 0 <= j < s.len() ==> !(s[j].0 == o && s[j].1 == p),
    ensures
        alw_get(s.push((o, p, v)), o, p) == v,
        forall|x: AccountId, y: AccountId|
            !(x == o && y == p) ==> alw_get(s.push((o, p, v)), x, y) == alw_get(s, x, y),
    decreases s.len(),
{
    let t = s.push((o, p, v));
    if s.len() == 0 {
        assert(t[0] == (o, p, v));
        assert(t.drop_first() =~= Seq::<(AccountId, AccountId, u128)>::empty());
        assert forall|x: AccountId, y: AccountId|
            !(x == o && y == p) implies alw_get(t, x, y) == alw_get(s, x, y) by {
            assert(alw_get(t, x, y) == alw_get(t.drop_first(), x, y));
        }
    } else {
        assert(t[0] == s[0]);
        assert(t.drop_first() =~= s.drop_first().push((o, p, v)));
        lemma_alw_push(s.drop_first(), o, p, v);
        assert forall|x: AccountId, y: AccountId|
            !(x == o && y == p) implies alw_get(t, x, y) == alw_get(s, x, y) by {
            if !(s[0].0 == x && s[0].1 == y) {
                assert(alw_get(t.drop_first(), x, y) == alw_get(s.drop_first(), x, y));
            }
        }
    }
}

impl AllowanceMap {
    /// The allowance this store records for the pair; zero when absent.
    pub(crate) closed spec fn get_spec(self, o: AccountId, p: AccountId) -> u128 {
        alw_get(self.entries@, o, p)
    }

    /// At most one entry per pair.
    pub(crate) closed spec fn wf(self) -> bool {
        alw_unique(self.entries@)
    }

    pub(crate) fn new() -> (r: AllowanceMap)
        ensures
            r.wf(),
            forall|o: AccountId, p: AccountId| r.get_spec(o, p) == 0,
    {
        AllowanceMap { entries: Vec::new() }
    }

    /// The position of the first entry for the pair, if any.
    fn index_of(&self, o: AccountId, p: AccountId) -> (r: Option<usize>)
        ensures
            r matches Some(i) ==> i < self.entries@.len() && self.entries@[i as int].0 == o
                && self.entries@[i as int].1 == p && (forall|j: int|
                0 <= j < i ==> !(self.entries@[j].0 == o && self.entries@[j].1 == p)),
            r is None ==> (forall|j: int|
                0 <= j < self.entries@.len() ==> !(self.entries@[j].0 == o && self.entries@[j].1
                    == p)),
    {
        let n = self.entries.len();
        let mut i: usize = 0;
        while i < n
            invariant
                i <= n,
                n == self.entries@.len(),
                forall|j: int| 0 <= j < i ==> !(self.entries@[j].0 == o && self.entries@[j].1 == p),
            decreases n - i,
        {
            if self.entries[i].0 == o && self.entries[i].1 == p {
                return Some(i);
            }
            i = i + 1;
        }
        None
    }

    pub(crate) fn get(&self, o: AccountId, p: AccountId) -> (r: u128)
        ensures
            r == self.get_spec(o, p),
    {
        match self.index_of(o, p) {
            Some(i) => {
                proof {
                    lemma_alw_get_at(self.entries@, i as int, o, p);
                }
                self.entries[i].2
            },
            None => {
                proof {
                    lemma_alw_get_absent(self.entries@, o, p);
                }
                0
            },
        }
    }

    /// Record allowance `v` for the pair, leaving every other pair's
    /// reading alone.
    pub(crate) fn set(&mut self, o: AccountId, p: AccountId, v: u128)
        requires
            old(self).wf(),
        ensures
            final(self).wf(),
            final(self).get_spec(o, p) == v,
            forall|x: AccountId, y: AccountId|
                !(x == o && y == p) ==> final(self).get_spec(x, y) == old(self).get_spec(x, y),
    {
        match self.index_of(o, p) {
            Some(i) => {
                proof {
                    lemma_alw_update(self.entries@, i as int, o, p, v);
                }
                self.entries.set(i, (o, p, v));
                proof {
                    assert forall|a: int, b: int|
                        0 <= a < b < self.entries@.len() implies !(self.entries@[a].0
                        == self.entries@[b].0 && self.entries@[a].1 == self.entries@[b].1) by {
                        assert(self.entries@[a].0 == old(self).entries@[a].0);
                        assert(self.entries@[a].1 == old(self).entries@[a].1);
                        assert(self.entries@[b].0 == old(self).entries@[b].0);
                        assert(self.entries@[b].1 == old(self).entries@[b].1);
                    }
                }
            },
            None => {
                proof {
                    lemma_alw_push(self.entries@, o, p, v);
                }
                self.entries.push((o, p, v));
                proof {
                    assert forall|a: int, b: int|
                        0 <= a < b < self.entries@.len() implies !(self.entries@[a].0
                        == self.entries@[b].0 && self.entries@[a].1 == self.entries@[b].1) by {
                        assert(self.entries@[a] == old(self).entries@[a]);
                        if b < self.entries@.len() - 1 {
                            assert(self.entries@[b] == old(self).entries@[b]);
                        }
                    }
                }
            },
        }
    }
}

} // verus!
