//! A map from string keys to values, kept sorted by key with each key present once.
use vstd::prelude::*;
use crate::keyorder::{key_cmp, key_lt, lemma_key_lt_irreflexive, lemma_key_lt_transitive};

verus! {

/// Entries sorted by key in the order of `key_lt`, keys unique.
pub struct StrMap<V> {
    entries: Vec<(String, V)>,
}

impl<V> StrMap<V> {
    /// The keys in iteration order.
    pub closed spec fn key_list(&self) -> Seq<Seq<char>> {
        self.entries@.map_values(|e: (String, V)| e.0@)
    }

    /// The entries are sorted by key, so no key appears twice.
    pub closed spec fn wf(&self) -> bool {
        forall|i: int, j: int|
            0 <= i < j < self.entries@.len() ==> key_lt(
                #[trigger] self.entries@[i].0@,
                #[trigger] self.entries@[j].0@,
            )
    }

    spec fn index_of(&self, k: Seq<char>) -> int {
        choose|i: int| 0 <= i < self.entries@.len() && self.entries@[i].0@ == k
    }

    pub closed spec fn view(&self) -> Map<Seq<char>, V> {
        Map::new(
            |k: Seq<char>| exists|i: int| 0 <= i < self.entries@.len() && self.entries@[i].0@ == k,
            |k: Seq<char>| self.entries@[self.index_of(k)].1,
        )
    }

    proof fn lemma_unique(&self, i: int, j: int)
        requires
            self.wf(),
            0 <= i < self.entries@.len(),
            0 <= j < self.entries@.len(),
            self.entries@[i].0@ == self.entries@[j].0@,
        ensures
            i == j,
    {
        if i < j {
            lemma_key_lt_irreflexive(self.entries@[i].0@);
        } else if j < i {
            lemma_key_lt_irreflexive(self.entries@[j].0@);
        }
    }

    proof fn lemma_view_at(&self, i: int)
        requires
            self.wf(),
            0 <= i < self.entries@.len(),
        ensures
            self@.contains_key(self.entries@[i].0@),
            self@[self.entries@[i].0@] == self.entries@[i].1,
    {
        let k = self.entries@[i].0@;
        assert(self@.contains_key(k));
        let j = self.index_of(k);
        self.lemma_unique(i, j);
    }

    /// The keys listed in iteration order are sorted, unique, and exactly the keys of the map.
    pub proof fn lemma_key_list(&self)
        requires
            self.wf(),
        ensures
            self.key_list().len() == self@.len(),
            forall|i: int, j: int|
                0 <= i < j < self.key_list().len() ==> key_lt(
                    #[trigger] self.key_list()[i],
                    #[trigger] self.key_list()[j],
                ),
            forall|k: Seq<char>| self@.contains_key(k) <==> self.key_list().contains(k),
    {
        let ks = self.key_list();
        assert forall|k: Seq<char>| self@.contains_key(k) <==> ks.contains(k) by {
            if self@.contains_key(k) {
                let i = choose|i: int| 0 <= i < self.entries@.len() && self.entries@[i].0@ == k;
                assert(ks[i] == k);
            }
            if ks.contains(k) {
                let i = choose|i: int| 0 <= i < ks.len() && ks[i] == k;
                assert(self.entries@[i].0@ == k);
            }
        }
        assert forall|i: int, j: int| 0 <= i < ks.len() && 0 <= j < ks.len() && i != j
            implies ks[i] != ks[j] by {
            if ks[i] == ks[j] {
                self.lemma_unique(i, j);
            }
        }
        assert(ks.no_duplicates());
        ks.unique_seq_to_set();
        assert(self@.dom() =~= ks.to_set());
    }

    pub fn new() -> (r: Self)
        ensures
            r.wf(),
            r@ == Map::<Seq<char>, V>::empty(),
    {
        let r = StrMap { entries: Vec::new() };
        assert(r@ =~= Map::<Seq<char>, V>::empty());
        r
    }

    pub fn len(&self) -> (r: usize)
        requires
            self.wf(),
        ensures
            r == self@.len(),
    {
        proof {
            self.lemma_key_list();
        }
        self.entries.len()
    }

    /// Where `k` stands: `Ok(i)` when entry `i` holds it, `Err(i)` when it would be inserted at `i`.
    fn find(&self, k: &str) -> (r: Result<usize, usize>)
        requires
            self.wf(),
        ensures
            r matches Ok(i) ==> i < self.entries@.len() && self.entries@[i as int].0@ == k@,
            r matches Err(i) ==> i <= self.entries@.len() && (forall|j: int|
                0 <= j < i ==> key_lt(#[trigger] self.entries@[j].0@, k@)) && (forall|j: int|
                i <= j < self.entries@.len() ==> key_lt(k@, #[trigger] self.entries@[j].0@)),
    {
        let mut i: usize = 0;
        while i < self.entries.len()
            invariant
                self.wf(),
                i <= self.entries@.len(),
                forall|j: int| 0 <= j < i ==> key_lt(#[trigger] self.entries@[j].0@, k@),
            decreases self.entries@.len() - i,
        {
            let c = key_cmp(self.entries[i].0.as_str(), k);
            if c == 0 {
                return Ok(i);
            } else if c == 1 {
                proof {
                    assert forall|j: int| i <= j < self.entries@.len() implies key_lt(
                        k@,
                        #[trigger] self.entries@[j].0@,
                    ) by {
                        if j > i {
                            lemma_key_lt_transitive(k@, self.entries@[i as int].0@, self.entries@[j].0@);
                        }
                    }
                }
                return Err(i);
            }
            i = i + 1;
        }
        Err(i)
    }

    pub fn contains_key(&self, k: &str) -> (r: bool)
        requires
            self.wf(),
        ensures
            r == self@.contains_key(k@),
    {
        match self.find(k) {
            Ok(_) => true,
            Err(i) => {
                proof {
                    if self@.contains_key(k@) {
                        let j = choose|j: int| 0 <= j < self.entries@.len() && self.entries@[j].0@ == k@;
                        lemma_key_lt_irreflexive(k@);
                    }
                }
                false
            },
        }
    }

    pub fn get(&self, k: &str) -> (r: Option<&V>)
        requires
            self.wf(),
        ensures
            r is Some == self@.contains_key(k@),
            r matches Some(v) ==> *v == self@[k@],
    {
        match self.find(k) {
            Ok(i) => {
                proof {
                    self.lemma_view_at(i as int);
                }
                Some(&self.entries[i].1)
            },
            Err(i) => {
                proof {
                    if self@.contains_key(k@) {
                        let j = choose|j: int| 0 <= j < self.entries@.len() && self.entries@[j].0@ == k@;
                        lemma_key_lt_irreflexive(k@);
                    }
                }
                None
            },
        }
    }

    /// The key at position `i` of the iteration order.
    pub fn key_at(&self, i: usize) -> (r: &String)
        requires
            i < self.key_list().len(),
        ensures
            r@ == self.key_list()[i as int],
    {
        &self.entries[i].0
    }

    /// The value at position `i` of the iteration order.
    pub fn value_at(&self, i: usize) -> (r: &V)
        requires
            self.wf(),
            i < self.key_list().len(),
        ensures
            self@.contains_key(self.key_list()[i as int]),
            *r == self@[self.key_list()[i as int]],
    {
        proof {
            self.lemma_view_at(i as int);
        }
        &self.entries[i].1
    }
    /// Sets the value of `k`, returning the value it had before, if any.
    pub fn insert(&mut self, k: String, v: V) -> (r: Option<V>)
        requires
            old(self).wf(),
        ensures
            final(self).wf(),
            final(self)@ == old(self)@.insert(k@, v),
            r == (if old(self)@.contains_key(k@) { Some(old(self)@[k@]) } else { None::<V> }),
    {
        let ghost pre = *self;
        match self.find(k.as_str()) {
            Ok(i) => {
                let (key, prev) = self.entries.remove(i);
                self.entries.insert(i, (key, v));
                proof {
                    pre.lemma_view_at(i as int);
                    assert(self.entries@ =~= pre.entries@.update(i as int, (pre.entries@[i as int].0, v)));
                    self.lemma_after_update(pre, i as int);
                }
                Some(prev)
            },
            Err(i) => {
                self.entries.insert(i, (k, v));
                proof {
                    assert(self.entries@ =~= pre.entries@.insert(i as int, (k, v)));
                    self.lemma_after_insert(pre, i as int);
                    if pre@.contains_key(k@) {
                        let j = choose|j: int| 0 <= j < pre.entries@.len() && pre.entries@[j].0@ == k@;
                        lemma_key_lt_irreflexive(k@);
                    }
                }
                None
            },
        }
    }

    proof fn lemma_after_update(&self, pre: Self, i: int)
        requires
            pre.wf(),
            0 <= i < pre.entries@.len(),
            self.entries@.len() == pre.entries@.len(),
            self.entries@ == pre.entries@.update(i, (pre.entries@[i].0, self.entries@[i].1)),
        ensures
            self.wf(),
            self@ == pre@.insert(pre.entries@[i].0@, self.entries@[i].1),
    {
        let k = pre.entries@[i].0@;
        assert forall|a: int, b: int| 0 <= a < b < self.entries@.len() implies key_lt(
            #[trigger] self.entries@[a].0@,
            #[trigger] self.entries@[b].0@,
        ) by {
            assert(key_lt(pre.entries@[a].0@, pre.entries@[b].0@));
        }
        assert forall|q: Seq<char>| #[trigger] self@.contains_key(q) == pre@.insert(k, self.entries@[i].1).contains_key(q) by {
            if self@.contains_key(q) {
                let j = choose|j: int| 0 <= j < self.entries@.len() && self.entries@[j].0@ == q;
                assert(pre.entries@[j].0@ == q);
            }
            if pre@.contains_key(q) {
                let j = choose|j: int| 0 <= j < pre.entries@.len() && pre.entries@[j].0@ == q;
                assert(self.entries@[j].0@ == q);
            }
        }
        assert forall|q: Seq<char>| #[trigger] self@.contains_key(q) implies self@[q] == pre@.insert(k, self.entries@[i].1)[q] by {
            let j = choose|j: int| 0 <= j < self.entries@.len() && self.entries@[j].0@ == q;
            self.lemma_view_at(j);
            if j != i {
                pre.lemma_view_at(j);
                if q == k {
                    pre.lemma_unique(j, i);
                }
            }
        }
        assert(self@ =~= pre@.insert(k, self.entries@[i].1));
    }

    proof fn lemma_after_insert(&self, pre: Self, i: int)
        requires
            pre.wf(),
            0 <= i <= pre.entries@.len(),
            self.entries@ == pre.entries@.insert(i, self.entries@[i]),
            forall|j: int| 0 <= j < i ==> key_lt(#[trigger] pre.entries@[j].0@, self.entries@[i].0@),
            forall|j: int| i <= j < pre.entries@.len() ==> key_lt(self.entries@[i].0@, #[trigger] pre.entries@[j].0@),
        ensures
            self.wf(),
            self@ == pre@.insert(self.entries@[i].0@, self.entries@[i].1),
    {
        let k = self.entries@[i].0@;
        let v = self.entries@[i].1;
        assert forall|a: int, b: int| 0 <= a < b < self.entries@.len() implies key_lt(
            #[trigger] self.entries@[a].0@,
            #[trigger] self.entries@[b].0@,
        ) by {
            if b < i {
                assert(key_lt(pre.entries@[a].0@, pre.entries@[b].0@));
            } else if b == i {
            } else if a < i {
                assert(key_lt(pre.entries@[a].0@, k));
                lemma_key_lt_transitive(pre.entries@[a].0@, k, pre.entries@[b - 1].0@);
            } else if a == i {
            } else {
                assert(key_lt(pre.entries@[a - 1].0@, pre.entries@[b - 1].0@));
            }
        }
        assert forall|q: Seq<char>| #[trigger] self@.contains_key(q) == pre@.insert(k, v).contains_key(q) by {
            if self@.contains_key(q) {
                let j = choose|j: int| 0 <= j < self.entries@.len() && self.entries@[j].0@ == q;
                if j < i {
                    assert(pre.entries@[j].0@ == q);
                } else if j > i {
                    assert(pre.entries@[j - 1].0@ == q);
                }
            }
            if pre@.contains_key(q) {
                let j = choose|j: int| 0 <= j < pre.entries@.len() && pre.entries@[j].0@ == q;
                if j < i {
                    assert(self.entries@[j].0@ == q);
                } else {
                    assert(self.entries@[j + 1].0@ == q);
                }
            }
        }
        assert forall|q: Seq<char>| #[trigger] self@.contains_key(q) implies self@[q] == pre@.insert(k, v)[q] by {
            let j = choose|j: int| 0 <= j < self.entries@.len() && self.entries@[j].0@ == q;
            self.lemma_view_at(j);
            if j < i {
                pre.lemma_view_at(j);
                lemma_key_lt_irreflexive(k);
            } else if j > i {
                pre.lemma_view_at(j - 1);
                lemma_key_lt_irreflexive(k);
            }
        }
        assert(self@ =~= pre@.insert(k, v));
    }

    /// Takes `k` out of the map, returning the value it had, if any.
    pub fn remove(&mut self, k: &str) -> (r: Option<V>)
        requires
            old(self).wf(),
        ensures
            final(self).wf(),
            final(self)@ == old(self)@.remove(k@),
            r == (if old(self)@.contains_key(k@) { Some(old(self)@[k@]) } else { None::<V> }),
    {
        let ghost pre = *self;
        match self.find(k) {
            Ok(i) => {
                let (_key, prev) = self.entries.remove(i);
                proof {
                    pre.lemma_view_at(i as int);
                    assert(self.entries@ =~= pre.entries@.remove(i as int));
                    assert forall|a: int, b: int| 0 <= a < b < self.entries@.len() implies key_lt(
                        #[trigger] self.entries@[a].0@,
                        #[trigger] self.entries@[b].0@,
                    ) by {
                        let a0 = if a < i { a } else { a + 1 };
                        let b0 = if b < i { b } else { b + 1 };
                        assert(key_lt(pre.entries@[a0].0@, pre.entries@[b0].0@));
                    }
                    assert forall|q: Seq<char>| #[trigger] self@.contains_key(q) == pre@.remove(k@).contains_key(q) by {
                        if self@.contains_key(q) {
                            let j = choose|j: int| 0 <= j < self.entries@.len() && self.entries@[j].0@ == q;
                            let j0 = if j < i { j } else { j + 1 };
                            assert(pre.entries@[j0].0@ == q);
                            if q == k@ {
                                pre.lemma_unique(j0, i as int);
                            }
                        }
                        if pre@.remove(k@).contains_key(q) {
                            let j = choose|j: int| 0 <= j < pre.entries@.len() && pre.entries@[j].0@ == q;
                            if j < i {
                                assert(self.entries@[j].0@ == q);
                            } else {
                                assert(self.entries@[j - 1].0@ == q);
                            }
                        }
                    }
                    assert forall|q: Seq<char>| #[trigger] self@.contains_key(q) implies self@[q] == pre@.remove(k@)[q] by {
                        let j = choose|j: int| 0 <= j < self.entries@.len() && self.entries@[j].0@ == q;
                        self.lemma_view_at(j);
                        let j0 = if j < i { j } else { j + 1 };
                        pre.lemma_view_at(j0);
                    }
                    assert(self@ =~= pre@.remove(k@));
                }
                Some(prev)
            },
            Err(i) => {
                proof {
                    if pre@.contains_key(k@) {
                        let j = choose|j: int| 0 <= j < pre.entries@.len() && pre.entries@[j].0@ == k@;
                        lemma_key_lt_irreflexive(k@);
                    }
                    assert(pre@.remove(k@) =~= pre@);
                }
                None
            },
        }
    }
}

impl StrMap<String> {
    /// The entries as name/value pairs, in key order.
    pub fn pairs(&self) -> (r: Vec<(String, String)>)
        requires
            self.wf(),
        ensures
            r@.len() == self.key_list().len(),
            forall|i: int| 0 <= i < r@.len() ==> (#[trigger] r@[i]).0@ == self.key_list()[i]
                && r@[i].1 == self@[self.key_list()[i]],
    {
        let mut r: Vec<(String, String)> = Vec::new();
        let mut i: usize = 0;
        while i < self.entries.len()
            invariant
                self.wf(),
                i <= self.entries@.len(),
                r@.len() == i,
                forall|j: int| 0 <= j < i ==> (#[trigger] r@[j]).0@ == self.key_list()[j]
                    && r@[j].1 == self@[self.key_list()[j]],
            decreases self.entries@.len() - i,
        {
            proof {
                self.lemma_view_at(i as int);
            }
            let k = self.entries[i].0.clone();
            let v = self.entries[i].1.clone();
            r.push((k, v));
            i = i + 1;
        }
        r
    }
}

} // verus!
