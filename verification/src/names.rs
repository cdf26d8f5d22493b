//! Tables keyed by backend name. A table keeps its keys in the order in
//! which they were first inserted, and no key occurs twice.

use vstd::prelude::*;

verus! {

/// The names that a sequence of strings holds, in order.
pub open spec fn names_of(strings: Seq<String>) -> Seq<Seq<char>> {
    Seq::new(strings.len(), |i: int| strings[i]@)
}

/// The mathematical content of a [`NameMap`]: its keys in insertion order
/// and, at the same positions, the values bound to them.
pub struct Entries<V> {
    pub keys: Seq<Seq<char>>,
    pub vals: Seq<V>,
}

impl<V> Entries<V> {
    /// The table without any key.
    pub open spec fn empty() -> Self {
        Entries { keys: Seq::empty(), vals: Seq::empty() }
    }

    /// Every key has a value and no key occurs twice.
    pub open spec fn wf(self) -> bool {
        &&& self.keys.len() == self.vals.len()
        &&& forall|i: int, j: int|
            0 <= i < self.keys.len() && 0 <= j < self.keys.len() && self.keys[i] == self.keys[j]
                ==> i == j
    }

    /// Whether `key` is bound.
    pub open spec fn contains(self, key: Seq<char>) -> bool {
        exists|i: int| 0 <= i < self.keys.len() && self.keys[i] == key
    }

    /// The position of `key`, where it is bound.
    pub open spec fn index(self, key: Seq<char>) -> int {
        choose|i: int| 0 <= i < self.keys.len() && self.keys[i] == key
    }

    /// The value bound to `key`, if any.
    pub open spec fn get(self, key: Seq<char>) -> Option<V> {
        if self.contains(key) {
            Some(self.vals[self.index(key)])
        } else {
            None
        }
    }

    /// The table after binding `key` to `val`: a bound key keeps its place,
    /// a new key goes to the end.
    pub open spec fn put(self, key: Seq<char>, val: V) -> Self {
        if self.contains(key) {
            Entries { keys: self.keys, vals: self.vals.update(self.index(key), val) }
        } else {
            Entries { keys: self.keys.push(key), vals: self.vals.push(val) }
        }
    }

    /// In a well-formed table a key stands at one position only.
    pub proof fn lemma_index(self, i: int)
        requires
            self.wf(),
            0 <= i < self.keys.len(),
        ensures
            self.contains(self.keys[i]),
            self.index(self.keys[i]) == i,
    {
        let k = self.index(self.keys[i]);
        assert(0 <= k < self.keys.len() && self.keys[k] == self.keys[i]);
    }

    /// Binding a key keeps the table well-formed, binds that key to the
    /// new value and leaves every other key as it was.
    pub proof fn lemma_put(self, key: Seq<char>, val: V)
        requires
            self.wf(),
        ensures
            self.put(key, val).wf(),
            self.put(key, val).contains(key),
            self.put(key, val).get(key) == Some(val),
            forall|other: Seq<char>|
                other != key ==> self.put(key, val).get(other) == self.get(other),
            forall|other: Seq<char>|
                other != key ==> self.put(key, val).contains(other) == self.contains(other),
    {
        let after = self.put(key, val);
        if self.contains(key) {
            let p = self.index(key);
            assert(after.keys[p] == key);
            after.lemma_index(p);
            assert forall|other: Seq<char>| other != key implies after.get(other) == self.get(
                other,
            ) && after.contains(other) == self.contains(other) by {
                if self.contains(other) {
                    let q = self.index(other);
                    assert(after.keys[q] == other);
                    after.lemma_index(q);
                }
            }
        } else {
            let p = self.keys.len() as int;
            assert(after.keys[p] == key);
            assert(after.wf()) by {
                assert forall|i: int, j: int|
                    0 <= i < after.keys.len() && 0 <= j < after.keys.len() && after.keys[i]
                        == after.keys[j] implies i == j by {
                    if i < p && j < p {
                        assert(self.keys[i] == self.keys[j]);
                    } else if i < p {
                        assert(self.keys[i] == key);
                    } else if j < p {
                        assert(self.keys[j] == key);
                    }
                }
            }
            after.lemma_index(p);
            assert forall|other: Seq<char>| other != key implies after.get(other) == self.get(
                other,
            ) && after.contains(other) == self.contains(other) by {
                if self.contains(other) {
                    let q = self.index(other);
                    assert(after.keys[q] == other);
                    after.lemma_index(q);
                    self.lemma_index(q);
                } else if after.contains(other) {
                    let q = after.index(other);
                    assert(q < p);
                    assert(self.keys[q] == other);
                }
            }
        }
    }
}

/// A table from names to values of type `V`.
pub struct NameMap<V> {
    names: Vec<String>,
    values: Vec<V>,
}

impl<V> View for NameMap<V> {
    type V = Entries<V>;

    closed spec fn view(&self) -> Entries<V> {
        Entries { keys: names_of(self.names@), vals: self.values@ }
    }
}

impl<V> NameMap<V> {
    /// The table's invariant: that of its content.
    pub open spec fn wf(&self) -> bool {
        self@.wf()
    }

    /// An empty table.
    pub fn new() -> (m: Self)
        ensures
            m@ == Entries::<V>::empty(),
            m.wf(),
    {
        let m = NameMap { names: Vec::new(), values: Vec::new() };
        assert(m@.keys =~= Seq::<Seq<char>>::empty());
        m
    }

    /// The number of keys.
    pub fn len(&self) -> (n: usize)
        requires
            self.wf(),
        ensures
            n == self@.keys.len(),
    {
        self.names.len()
    }

    /// The position of `name`, or `None` where it is not bound.
    pub fn find(&self, name: &String) -> (r: Option<usize>)
        requires
            self.wf(),
        ensures
            match r {
                Some(i) => self@.contains(name@) && i == self@.index(name@),
                None => !self@.contains(name@),
            },
    {
        let mut i: usize = 0;
        while i < self.names.len()
            invariant
                i <= self.names@.len(),
                self.wf(),
                forall|j: int| 0 <= j < i ==> self@.keys[j] != name@,
            decreases self.names@.len() - i,
        {
            if self.names[i] == *name {
                proof {
                    self@.lemma_index(i as int);
                }
                return Some(i);
            }
            i += 1;
        }
        None
    }

    /// The key at position `i`.
    pub fn key_at(&self, i: usize) -> (k: &String)
        requires
            self.wf(),
            i < self@.keys.len(),
        ensures
            k@ == self@.keys[i as int],
    {
        &self.names[i]
    }

    /// The value at position `i`.
    pub fn value_at(&self, i: usize) -> (v: &V)
        requires
            self.wf(),
            i < self@.keys.len(),
        ensures
            *v == self@.vals[i as int],
    {
        &self.values[i]
    }

    /// The value bound to `name`, if any.
    pub fn get(&self, name: &String) -> (r: Option<&V>)
        requires
            self.wf(),
        ensures
            match r {
                Some(v) => self@.get(name@) == Some(*v),
                None => self@.get(name@).is_none(),
            },
    {
        match self.find(name) {
            Some(i) => Some(&self.values[i]),
            None => None,
        }
    }

    /// Binds `name` to `value`.
    pub fn insert(&mut self, name: &String, value: V)
        requires
            old(self).wf(),
        ensures
            final(self).wf(),
            final(self)@ == old(self)@.put(name@, value),
    {
        proof {
            self@.lemma_put(name@, value);
        }
        match self.find(name) {
            Some(i) => {
                self.values.set(i, value);
                assert(self@.keys =~= old(self)@.put(name@, value).keys);
            },
            None => {
                self.names.push(name.clone());
                self.values.push(value);
                assert(self@.keys =~= old(self)@.put(name@, value).keys);
            },
        }
    }
}

} // verus!
