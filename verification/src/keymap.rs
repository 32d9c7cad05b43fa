//! A map from string keys to values, kept as a vector sorted by key, which
//! is how the library orders flattened attribute paths.

use vstd::prelude::*;

use crate::text::{
    compare_keys, key_lt, lemma_key_lt_irreflexive, lemma_key_lt_total, lemma_key_lt_transitive,
    KeyOrder,
};

verus! {

/// The keys are strictly increasing in the key order.
pub open spec fn keys_sorted(ks: Seq<Seq<char>>) -> bool {
    forall|i: int, j: int| 0 <= i < j < ks.len() ==> key_lt(#[trigger] ks[i], #[trigger] ks[j])
}

/// The value of `k` in `m`, if `m` has the key.
pub open spec fn map_get<V>(m: Map<Seq<char>, V>, k: Seq<char>) -> Option<V> {
    if m.dom().contains(k) {
        Some(m[k])
    } else {
        None
    }
}

/// A strictly sorted sequence of keys holds no key twice.
pub proof fn lemma_sorted_distinct(ks: Seq<Seq<char>>, i: int, j: int)
    requires
        keys_sorted(ks),
        0 <= i < ks.len(),
        0 <= j < ks.len(),
        i != j,
    ensures
        ks[i] != ks[j],
{
    if i < j {
        assert(key_lt(ks[i], ks[j]));
        lemma_key_lt_irreflexive(ks[i]);
    } else {
        assert(key_lt(ks[j], ks[i]));
        lemma_key_lt_irreflexive(ks[j]);
    }
}

/// Two strictly sorted sequences with the same members are equal.
pub proof fn lemma_sorted_same_members(a: Seq<Seq<char>>, b: Seq<Seq<char>>)
    requires
        keys_sorted(a),
        keys_sorted(b),
        forall|k: Seq<char>| a.contains(k) <==> b.contains(k),
    ensures
        a == b,
    decreases a.len() + b.len(),
{
    if a.len() == 0 {
        if b.len() > 0 {
            assert(b.contains(b[0]));
        }
        assert(a =~= b);
    } else if b.len() == 0 {
        assert(a.contains(a[0]));
    } else {
        // The first elements are both the least member.
        assert(b.contains(a[0]));
        assert(a.contains(b[0]));
        let ia = choose|i: int| 0 <= i < a.len() && a[i] == b[0];
        let ib = choose|i: int| 0 <= i < b.len() && b[i] == a[0];
        if ia > 0 {
            assert(key_lt(a[0], a[ia]));
            if ib > 0 {
                assert(key_lt(b[0], b[ib]));
                lemma_key_lt_transitive(a[0], b[0], a[0]);
                lemma_key_lt_irreflexive(a[0]);
            }
        }
        assert(a[0] == b[0]) by {
            if ia > 0 && ib == 0 {
            } else if ia == 0 {
            }
        }
        let a1 = a.drop_first();
        let b1 = b.drop_first();
        assert forall|k: Seq<char>| a1.contains(k) <==> b1.contains(k) by {
            if a1.contains(k) {
                let i = choose|i: int| 0 <= i < a1.len() && a1[i] == k;
                assert(a[i + 1] == k);
                assert(key_lt(a[0], k));
                lemma_key_lt_irreflexive(k);
                assert(b.contains(k));
                let j = choose|j: int| 0 <= j < b.len() && b[j] == k;
                assert(j != 0);
                assert(b1[j - 1] == k);
            }
            if b1.contains(k) {
                let i = choose|i: int| 0 <= i < b1.len() && b1[i] == k;
                assert(b[i + 1] == k);
                assert(key_lt(b[0], k));
                lemma_key_lt_irreflexive(k);
                assert(a.contains(k));
                let j = choose|j: int| 0 <= j < a.len() && a[j] == k;
                assert(j != 0);
                assert(a1[j - 1] == k);
            }
        }
        lemma_sorted_same_members(a1, b1);
        assert(a =~= seq![a[0]] + a1);
        assert(b =~= seq![b[0]] + b1);
    }
}

/// A finite non-empty set of keys has a least key.
pub proof fn lemma_least_key(d: Set<Seq<char>>) -> (m: Seq<char>)
    requires
        d.finite(),
        d.len() > 0,
    ensures
        d.contains(m),
        forall|k: Seq<char>| d.contains(k) && k != m ==> key_lt(m, k),
    decreases d.len(),
{
    broadcast use vstd::set::group_set_axioms;

    let x = d.choose();
    let rest = d.remove(x);
    if rest.len() == 0 {
        rest.lemma_len0_is_empty();
        assert forall|k: Seq<char>| d.contains(k) && k != x implies key_lt(x, k) by {
            assert(rest.contains(k));
        }
        x
    } else {
        let m2 = lemma_least_key(rest);
        lemma_key_lt_total(x, m2);
        if key_lt(x, m2) {
            assert forall|k: Seq<char>| d.contains(k) && k != x implies key_lt(x, k) by {
                if k != m2 {
                    assert(rest.contains(k));
                    lemma_key_lt_transitive(x, m2, k);
                }
            }
            x
        } else {
            m2
        }
    }
}

/// Every finite set of keys has a strictly sorted listing.
pub proof fn lemma_sorted_listing(d: Set<Seq<char>>) -> (ks: Seq<Seq<char>>)
    requires
        d.finite(),
    ensures
        keys_sorted(ks),
        forall|k: Seq<char>| ks.contains(k) <==> d.contains(k),
    decreases d.len(),
{
    broadcast use vstd::set::group_set_axioms;

    if d.len() == 0 {
        d.lemma_len0_is_empty();
        Seq::empty()
    } else {
        let m = lemma_least_key(d);
        let rest = d.remove(m);
        let tail = lemma_sorted_listing(rest);
        let ks = seq![m] + tail;
        assert forall|i: int, j: int| 0 <= i < j < ks.len() implies key_lt(
            #[trigger] ks[i],
            #[trigger] ks[j],
        ) by {
            if i == 0 {
                assert(tail.contains(tail[j - 1]));
                assert(ks[j] == tail[j - 1]);
            } else {
                assert(ks[i] == tail[i - 1] && ks[j] == tail[j - 1]);
            }
        }
        assert forall|k: Seq<char>| ks.contains(k) <==> d.contains(k) by {
            if ks.contains(k) {
                let i = choose|i: int| 0 <= i < ks.len() && ks[i] == k;
                if i > 0 {
                    assert(tail[i - 1] == k);
                }
            }
            if d.contains(k) {
                if k == m {
                    assert(ks[0] == k);
                } else {
                    assert(tail.contains(k));
                    let i = choose|i: int| 0 <= i < tail.len() && tail[i] == k;
                    assert(ks[i + 1] == k);
                }
            }
        }
        ks
    }
}

/// Keeping some keys of a strictly sorted sequence keeps it sorted.
pub proof fn lemma_filter_sorted(ks: Seq<Seq<char>>, p: spec_fn(Seq<char>) -> bool)
    requires
        keys_sorted(ks),
    ensures
        keys_sorted(ks.filter(p)),
    decreases ks.len(),
{
    reveal(Seq::filter);
    if ks.len() > 0 {
        let init = ks.drop_last();
        assert(keys_sorted(init));
        lemma_filter_sorted(init, p);
        if p(ks.last()) {
            let f = init.filter(p);
            assert forall|i: int, j: int|
                0 <= i < j < f.push(ks.last()).len() implies key_lt(
                #[trigger] f.push(ks.last())[i],
                #[trigger] f.push(ks.last())[j],
            ) by {
                if j == f.len() {
                    assert(f.contains(f[i]));
                    init.lemma_filter_contains_rev(p, f[i]);
                    assert(init.contains(f[i]));
                    let m = choose|m: int| 0 <= m < init.len() && init[m] == f[i];
                    assert(ks[m] == f[i]);
                }
            }
        }
    }
}

/// A map from keys to values, sorted by key, with no key twice.
pub struct KeyMap<V> {
    pub entries: Vec<(Vec<char>, V)>,
}

impl<V: View> KeyMap<V> {
    /// The keys, in order.
    pub open spec fn keys(&self) -> Seq<Seq<char>> {
        self.entries@.map_values(|e: (Vec<char>, V)| e.0@)
    }

    /// The keys are strictly sorted.
    pub open spec fn wf(&self) -> bool {
        keys_sorted(self.keys())
    }

    /// The index of the entry of `k`.
    pub open spec fn index_of(&self, k: Seq<char>) -> int {
        choose|i: int| 0 <= i < self.keys().len() && self.keys()[i] == k
    }

    /// The map from keys to the views of their values.
    pub open spec fn map(&self) -> Map<Seq<char>, V::V> {
        Map::new(|k: Seq<char>| self.keys().contains(k), |k: Seq<char>| self.entries@[self.index_of(k)].1@)
    }

    /// The entry at index `i` is what the map holds for its key.
    pub proof fn lemma_entry(&self, i: int)
        requires
            self.wf(),
            0 <= i < self.entries@.len(),
        ensures
            self.map().dom().contains(self.keys()[i]),
            self.map()[self.keys()[i]] == self.entries@[i].1@,
            self.index_of(self.keys()[i]) == i,
    {
        let k = self.keys()[i];
        assert(self.keys().contains(k));
        let j = self.index_of(k);
        if j != i {
            lemma_sorted_distinct(self.keys(), i, j);
        }
    }

    /// An empty map.
    pub fn new() -> (r: Self)
        ensures
            r.wf(),
            r.map() == Map::<Seq<char>, V::V>::empty(),
            r.keys() == Seq::<Seq<char>>::empty(),
    {
        let r = KeyMap { entries: Vec::new() };
        assert(r.keys() =~= Seq::<Seq<char>>::empty());
        assert(r.map() =~= Map::<Seq<char>, V::V>::empty());
        r
    }

    /// The number of keys.
    pub fn len(&self) -> (r: usize)
        ensures
            r == self.keys().len(),
    {
        self.entries.len()
    }

    /// Finds `key`: `Ok(i)` when it is the key of entry `i`, or `Err(p)` when
    /// it is absent and belongs at position `p`.
    pub fn find(&self, key: &[char]) -> (r: Result<usize, usize>)
        requires
            self.wf(),
        ensures
            r matches Ok(i) ==> i < self.keys().len() && self.keys()[i as int] == key@,
            r matches Err(p) ==> {
                &&& p <= self.keys().len()
                &&& forall|j: int| 0 <= j < p ==> key_lt(#[trigger] self.keys()[j], key@)
                &&& forall|j: int| p <= j < self.keys().len() ==> key_lt(key@, #[trigger] self.keys()[j])
                &&& !self.map().dom().contains(key@)
            },
    {
        let n = self.entries.len();
        for i in 0..n
            invariant
                n == self.keys().len(),
                self.wf(),
                forall|j: int| 0 <= j < i ==> key_lt(#[trigger] self.keys()[j], key@),
        {
            assert(self.keys()[i as int] == self.entries@[i as int].0@);
            match compare_keys(self.entries[i].0.as_slice(), key) {
                KeyOrder::Equal => {
                    return Ok(i);
                },
                KeyOrder::Greater => {
                    assert forall|j: int| i <= j < self.keys().len() implies key_lt(
                        key@,
                        #[trigger] self.keys()[j],
                    ) by {
                        if j > i {
                            lemma_key_lt_transitive(key@, self.keys()[i as int], self.keys()[j]);
                        }
                    }
                    assert(!self.map().dom().contains(key@)) by {
                        if self.keys().contains(key@) {
                            let j = choose|j: int| 0 <= j < self.keys().len() && self.keys()[j] == key@;
                            lemma_key_lt_irreflexive(key@);
                        }
                    }
                    return Err(i);
                },
                KeyOrder::Less => {},
            }
        }
        assert(!self.map().dom().contains(key@)) by {
            if self.keys().contains(key@) {
                let j = choose|j: int| 0 <= j < self.keys().len() && self.keys()[j] == key@;
                lemma_key_lt_irreflexive(key@);
            }
        }
        Err(n)
    }

    /// The value of `key`, if present.
    pub fn get(&self, key: &[char]) -> (r: Option<&V>)
        requires
            self.wf(),
        ensures
            r matches Some(v) ==> self.map().dom().contains(key@) && self.map()[key@] == v@,
            r is None ==> !self.map().dom().contains(key@),
    {
        match self.find(key) {
            Ok(i) => {
                proof {
                    self.lemma_entry(i as int);
                }
                Some(&self.entries[i].1)
            },
            Err(_) => None,
        }
    }

    /// Sets the value of `key`, adding the key if it is absent.
    pub fn insert(&mut self, key: Vec<char>, value: V)
        requires
            old(self).wf(),
        ensures
            final(self).wf(),
            final(self).map() == old(self).map().insert(key@, value@),
    {
        let ghost old_map = self.map();
        let ghost old_keys = self.keys();
        let ghost k = key@;
        let ghost v = value@;
        match self.find(key.as_slice()) {
            Ok(i) => {
                proof {
                    self.lemma_entry(i as int);
                }
                let _ = self.entries.remove(i);
                self.entries.insert(i, (key, value));
                assert(self.keys() =~= old_keys);
                assert(self.wf());
                assert forall|x: Seq<char>| #[trigger]
                    self.map().dom().contains(x) == old_map.insert(k, v).dom().contains(x) by {}
                assert forall|x: Seq<char>| #[trigger]
                    self.map().dom().contains(x) implies self.map()[x] == old_map.insert(k, v)[x] by {
                    let j = choose|j: int| 0 <= j < self.keys().len() && self.keys()[j] == x;
                    self.lemma_entry(j);
                    if j != i {
                        lemma_sorted_distinct(old_keys, i as int, j);
                        old(self).lemma_entry(j);
                    }
                }
                assert(self.map() =~= old_map.insert(k, v));
            },
            Err(p) => {
                self.entries.insert(p, (key, value));
                assert(self.keys() =~= old_keys.insert(p as int, k));
                assert(self.wf()) by {
                    assert forall|i: int, j: int|
                        0 <= i < j < self.keys().len() implies key_lt(
                        #[trigger] self.keys()[i],
                        #[trigger] self.keys()[j],
                    ) by {
                        if j < p {
                        } else if j == p {
                        } else if i < p {
                            lemma_key_lt_transitive(self.keys()[i], k, self.keys()[j]);
                        } else if i == p {
                        } else {
                            assert(self.keys()[i] == old_keys[i - 1]);
                            assert(self.keys()[j] == old_keys[j - 1]);
                        }
                    }
                }
                assert forall|x: Seq<char>| #[trigger]
                    self.map().dom().contains(x) == old_map.insert(k, v).dom().contains(x) by {
                    if self.keys().contains(x) {
                        let j = choose|j: int| 0 <= j < self.keys().len() && self.keys()[j] == x;
                        if j < p {
                            assert(old_keys[j] == x);
                        } else if j > p {
                            assert(old_keys[j - 1] == x);
                        }
                    }
                    if old_keys.contains(x) {
                        let j = choose|j: int| 0 <= j < old_keys.len() && old_keys[j] == x;
                        if j < p {
                            assert(self.keys()[j] == x);
                        } else {
                            assert(self.keys()[j + 1] == x);
                        }
                    }
                    if x == k {
                        assert(self.keys()[p as int] == x);
                    }
                }
                assert forall|x: Seq<char>| #[trigger]
                    self.map().dom().contains(x) implies self.map()[x] == old_map.insert(k, v)[x] by {
                    let j = choose|j: int| 0 <= j < self.keys().len() && self.keys()[j] == x;
                    self.lemma_entry(j);
                    if j < p {
                        old(self).lemma_entry(j);
                        assert(x != k);
                    } else if j > p {
                        old(self).lemma_entry(j - 1);
                        assert(x != k);
                    }
                }
                assert(self.map() =~= old_map.insert(k, v));
            },
        }
    }
}

} // verus!
