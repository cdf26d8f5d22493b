//! Per-backend counters: a table from names to counts, where a name that
//! was never counted stands at zero.

use crate::names::{Entries, NameMap};
use vstd::prelude::*;

verus! {

/// The sum of a sequence of counts.
pub open spec fn sum(counts: Seq<u64>) -> nat
    decreases counts.len(),
{
    if counts.len() == 0 {
        0
    } else {
        sum(counts.drop_last()) + counts.last() as nat
    }
}

/// Appending a count adds it to the sum.
pub proof fn lemma_sum_push(counts: Seq<u64>, extra: u64)
    ensures
        sum(counts.push(extra)) == sum(counts) + extra,
{
    assert(counts.push(extra).drop_last() =~= counts);
}

/// Replacing one count changes the sum by the difference.
pub proof fn lemma_sum_update(counts: Seq<u64>, i: int, value: u64)
    requires
        0 <= i < counts.len(),
    ensures
        sum(counts.update(i, value)) == sum(counts) - counts[i] + value,
        counts[i] <= sum(counts),
    decreases counts.len(),
{
    let last = counts.len() - 1;
    if i == last {
        assert(counts.update(i, value).drop_last() =~= counts.drop_last());
    } else {
        lemma_sum_update(counts.drop_last(), i, value);
        assert(counts.update(i, value).drop_last() =~= counts.drop_last().update(i, value));
    }
}

/// No sum exceeds what its length allows.
pub proof fn lemma_sum_bound(counts: Seq<u64>)
    ensures
        sum(counts) <= counts.len() * u64::MAX,
    decreases counts.len(),
{
    if counts.len() > 0 {
        lemma_sum_bound(counts.drop_last());
        assert((counts.len() - 1) * u64::MAX + u64::MAX == counts.len() * u64::MAX)
            by (nonlinear_arith);
    }
}

impl Entries<u64> {
    /// The count of `key`: zero where it was never counted.
    pub open spec fn count(self, key: Seq<char>) -> nat {
        match self.get(key) {
            Some(c) => c as nat,
            None => 0,
        }
    }

    /// The sum of all counts.
    pub open spec fn total(self) -> nat {
        sum(self.vals)
    }

    /// Whether every count can still grow by one.
    pub open spec fn has_headroom(self) -> bool {
        forall|i: int| 0 <= i < self.vals.len() ==> self.vals[i] < u64::MAX
    }

    /// The table after counting `key` once more.
    pub open spec fn bump(self, key: Seq<char>) -> Self {
        self.put(key, (self.count(key) + 1) as u64)
    }

    /// Counting a key raises its count and the total by one and leaves the
    /// other counts alone.
    pub proof fn lemma_bump(self, key: Seq<char>)
        requires
            self.wf(),
            self.count(key) < u64::MAX,
        ensures
            self.bump(key).wf(),
            self.bump(key).count(key) == self.count(key) + 1,
            forall|other: Seq<char>|
                other != key ==> self.bump(key).count(other) == self.count(other),
            self.bump(key).total() == self.total() + 1,
    {
        let next = (self.count(key) + 1) as u64;
        self.lemma_put(key, next);
        if self.contains(key) {
            lemma_sum_update(self.vals, self.index(key), next);
        } else {
            lemma_sum_push(self.vals, next);
        }
    }

    /// With headroom, every key's count is below the largest count.
    pub proof fn lemma_headroom(self, key: Seq<char>)
        requires
            self.wf(),
            self.has_headroom(),
        ensures
            self.count(key) < u64::MAX,
    {
    }

    /// No count exceeds the total.
    pub proof fn lemma_count_le_total(self, key: Seq<char>)
        requires
            self.wf(),
        ensures
            self.count(key) <= self.total(),
    {
        if self.contains(key) {
            lemma_sum_update(self.vals, self.index(key), 0);
        }
    }
}

impl NameMap<u64> {
    /// The count of `name`.
    pub fn count(&self, name: &String) -> (c: u64)
        requires
            self.wf(),
        ensures
            c == self@.count(name@),
    {
        match self.get(name) {
            Some(c) => *c,
            None => 0,
        }
    }

    /// Counts `name` once more.
    pub fn increment(&mut self, name: &String)
        requires
            old(self).wf(),
            old(self)@.count(name@) < u64::MAX,
        ensures
            final(self).wf(),
            final(self)@ == old(self)@.bump(name@),
    {
        let c = self.count(name);
        self.insert(name, c + 1);
    }

    /// The sum of all counts.
    pub fn total(&self) -> (t: u128)
        requires
            self.wf(),
        ensures
            t == self@.total(),
    {
        let n = self.len();
        let mut t: u128 = 0;
        let mut i: usize = 0;
        while i < n
            invariant
                self.wf(),
                n == self@.keys.len(),
                i <= n,
                t == sum(self@.vals.take(i as int)),
            decreases n - i,
        {
            let c = *self.value_at(i);
            proof {
                let upto = self@.vals.take(i as int);
                lemma_sum_bound(upto);
                assert(upto.len() * u64::MAX + u64::MAX <= u128::MAX) by (nonlinear_arith)
                    requires
                        upto.len() <= usize::MAX,
                ;
                assert(self@.vals.take(i + 1) =~= upto.push(c));
                lemma_sum_push(upto, c);
            }
            t = t + c as u128;
            i += 1;
        }
        assert(self@.vals.take(n as int) =~= self@.vals);
        t
    }

    /// Whether every count can still grow by one.
    pub fn has_headroom(&self) -> (r: bool)
        requires
            self.wf(),
        ensures
            r == self@.has_headroom(),
    {
        let n = self.len();
        let mut i: usize = 0;
        while i < n
            invariant
                self.wf(),
                n == self@.keys.len(),
                i <= n,
                forall|j: int| 0 <= j < i ==> self@.vals[j] < u64::MAX,
            decreases n - i,
        {
            if *self.value_at(i) == u64::MAX {
                return false;
            }
            i += 1;
        }
        true
    }
}

} // verus!
