//! A small association map keyed by account or token identifiers.

use vstd::prelude::*;

verus! {

/// A map from `String` keys to values, holding its entries in insertion order.
/// No key appears twice.
#[derive(Debug)]
pub struct StrMap<V> {
    entries: Vec<(String, V)>,
}

impl<V> StrMap<V> {
    /// No key appears in two entries.
    pub closed spec fn wf(&self) -> bool {
        forall|i: int, j: int|
            0 <= i < j < self.entries@.len() ==> self.entries@[i].0@ != self.entries@[j].0@
    }

    /// The keys, in the order in which they were first inserted.
    pub closed spec fn key_seq(&self) -> Seq<Seq<char>> {
        self.entries@.map_values(|e: (String, V)| e.0@)
    }

    /// The entries as a sequence of pairs.
    pub closed spec fn entry_seq(&self) -> Seq<(String, V)> {
        self.entries@
    }

    pub closed spec fn view(&self) -> Map<Seq<char>, V> {
        Map::new(
            |k: Seq<char>| exists|i: int| 0 <= i < self.entries@.len() && self.entries@[i].0@ == k,
            |k: Seq<char>|
                self.entries@[choose|i: int|
                    0 <= i < self.entries@.len() && self.entries@[i].0@ == k].1,
        )
    }

    proof fn lemma_view_at(&self, i: int)
        requires
            0 <= i < self.entries@.len(),
            self.wf(),
        ensures
            self.view().dom().contains(self.entries@[i].0@),
            self.view().contains_key(self.entries@[i].0@),
            self.view()[self.entries@[i].0@] == self.entries@[i].1,
    {
        let k = self.entries@[i].0@;
        assert(self.view().dom().contains(k));
        let j = choose|j: int| 0 <= j < self.entries@.len() && self.entries@[j].0@ == k;
        assert(j == i);
    }

    /// Relates the entry sequence to the map: every entry is in the map, and
    /// every key of the map is the key of an entry.
    pub proof fn lemma_entries(&self)
        requires
            self.wf(),
        ensures
            self.key_seq().len() == self.entry_seq().len(),
            self.view().dom().finite(),
            self.view().len() == self.entry_seq().len(),
            forall|i: int|
                0 <= i < self.entry_seq().len() ==> {
                    &&& self.key_seq()[i] == (#[trigger] self.entry_seq()[i]).0@
                    &&& self.view().contains_key(self.entry_seq()[i].0@)
                    &&& self.view()[self.entry_seq()[i].0@] == self.entry_seq()[i].1
                },
            forall|k: Seq<char>|
                #[trigger] self.view().contains_key(k) ==> exists|i: int|
                    0 <= i < self.entry_seq().len() && self.entry_seq()[i].0@ == k,
            forall|i: int, j: int|
                0 <= i < j < self.key_seq().len() ==> self.key_seq()[i] != self.key_seq()[j],
    {
        assert forall|i: int| 0 <= i < self.entry_seq().len() implies {
            &&& self.key_seq()[i] == (#[trigger] self.entry_seq()[i]).0@
            &&& self.view().contains_key(self.entry_seq()[i].0@)
            &&& self.view()[self.entry_seq()[i].0@] == self.entry_seq()[i].1
        } by {
            self.lemma_view_at(i);
        }
        self.lemma_len();
    }

    proof fn lemma_len(&self)
        requires
            self.wf(),
        ensures
            self.view().dom().finite(),
            self.view().len() == self.entries@.len(),
    {
        let ks = self.key_seq();
        assert forall|k: Seq<char>| self.view().dom().contains(k) <==> ks.to_set().contains(k) by {
            if self.view().dom().contains(k) {
                let i = choose|i: int| 0 <= i < self.entries@.len() && self.entries@[i].0@ == k;
                assert(ks[i] == k);
            }
            if ks.to_set().contains(k) {
                let i = choose|i: int| 0 <= i < ks.len() && ks[i] == k;
                assert(self.entries@[i].0@ == k);
            }
        }
        assert(self.view().dom() =~= ks.to_set());
        assert(ks.no_duplicates());
        ks.unique_seq_to_set();
    }

    pub fn new() -> (r: Self)
        ensures
            r.wf(),
            r@ == Map::<Seq<char>, V>::empty(),
            r.entry_seq().len() == 0,
    {
        let r = StrMap { entries: Vec::new() };
        assert(r@ =~= Map::<Seq<char>, V>::empty());
        r
    }

    pub fn len(&self) -> (n: usize)
        requires
            self.wf(),
        ensures
            n == self@.len(),
            n == self.entry_seq().len(),
    {
        proof {
            self.lemma_len();
        }
        self.entries.len()
    }

    /// The position of `k` among the entries, if it is a key.
    fn index_of(&self, k: &String) -> (r: Option<usize>)
        requires
            self.wf(),
        ensures
            match r {
                Some(i) => i < self.entries@.len() && self.entries@[i as int].0@ == k@,
                None => !self@.contains_key(k@),
            },
    {
        let mut i: usize = 0;
        while i < self.entries.len()
            invariant
                i <= self.entries@.len(),
                forall|j: int| 0 <= j < i ==> self.entries@[j].0@ != k@,
            decreases self.entries@.len() - i,
        {
            if self.entries[i].0 == *k {
                return Some(i);
            }
            i = i + 1;
        }
        None
    }

    pub fn contains_key(&self, k: &String) -> (r: bool)
        requires
            self.wf(),
        ensures
            r == self@.contains_key(k@),
    {
        match self.index_of(k) {
            Some(i) => {
                proof {
                    self.lemma_view_at(i as int);
                }
                true
            },
            None => false,
        }
    }

    pub fn get(&self, k: &String) -> (r: Option<&V>)
        requires
            self.wf(),
        ensures
            match r {
                Some(v) => self@.contains_key(k@) && *v == self@[k@],
                None => !self@.contains_key(k@),
            },
    {
        match self.index_of(k) {
            Some(i) => {
                proof {
                    self.lemma_view_at(i as int);
                }
                Some(&self.entries[i].1)
            },
            None => None,
        }
    }

    /// The key and value of the entry at position `i`.
    pub fn entry_at(&self, i: usize) -> (r: (&String, &V))
        requires
            self.wf(),
            i < self.entry_seq().len(),
        ensures
            *r.0 == self.entry_seq()[i as int].0,
            *r.1 == self.entry_seq()[i as int].1,
    {
        (&self.entries[i].0, &self.entries[i].1)
    }

    /// Sets `k` to `v`, in place where `k` is already a key, else as a new last entry.
    pub fn insert(&mut self, k: String, v: V)
        requires
            old(self).wf(),
        ensures
            final(self).wf(),
            final(self)@ == old(self)@.insert(k@, v),
            !old(self)@.contains_key(k@) ==> final(self).entry_seq() == old(self).entry_seq().push((k, v)),
    {
        match self.index_of(&k) {
            Some(i) => {
                let ghost pre = *self;
                self.entries.set(i, (k, v));
                proof {
                    let kk = self.entries@[i as int].0@;
                    assert forall|a: int, b: int|
                        0 <= a < b < self.entries@.len() implies self.entries@[a].0@
                        != self.entries@[b].0@ by {
                        if a != i && b != i {
                            assert(pre.entries@[a] == self.entries@[a]);
                            assert(pre.entries@[b] == self.entries@[b]);
                        } else if a == i {
                            assert(pre.entries@[b] == self.entries@[b]);
                        } else {
                            assert(pre.entries@[a] == self.entries@[a]);
                        }
                    }
                    self.lemma_view_at(i as int);
                    assert forall|key: Seq<char>|
                        #[trigger] self@.dom().contains(key) == pre@.insert(kk, v).dom().contains(key) && (
                        self@.dom().contains(key) ==> self@[key] == pre@.insert(kk, v)[key]) by {
                        if self@.dom().contains(key) {
                            let j = choose|j: int|
                                0 <= j < self.entries@.len() && self.entries@[j].0@ == key;
                            self.lemma_view_at(j);
                            pre.lemma_view_at(j);
                        }
                        if pre@.dom().contains(key) {
                            let j = choose|j: int|
                                0 <= j < pre.entries@.len() && pre.entries@[j].0@ == key;
                            self.lemma_view_at(j);
                            pre.lemma_view_at(j);
                        }
                    }
                    assert(self@.dom() =~= pre@.insert(kk, v).dom());
                    assert(self@ =~= pre@.insert(kk, v));
                }
            },
            None => {
                let ghost pre = *self;
                let ghost kk = k@;
                self.entries.push((k, v));
                proof {
                    let n = pre.entries@.len() as int;
                    assert forall|a: int, b: int|
                        0 <= a < b < self.entries@.len() implies self.entries@[a].0@
                        != self.entries@[b].0@ by {
                        assert(self.entries@[a] == pre.entries@[a]);
                        if b < n {
                            assert(self.entries@[b] == pre.entries@[b]);
                        } else {
                            assert(pre@.contains_key(pre.entries@[a].0@)) by {
                                pre.lemma_view_at(a);
                            }
                        }
                    }
                    self.lemma_view_at(n);
                    assert forall|key: Seq<char>|
                        #[trigger] self@.dom().contains(key) == pre@.insert(kk, v).dom().contains(key) && (
                        self@.dom().contains(key) ==> self@[key] == pre@.insert(kk, v)[key]) by {
                        if self@.dom().contains(key) {
                            let j = choose|j: int|
                                0 <= j < self.entries@.len() && self.entries@[j].0@ == key;
                            self.lemma_view_at(j);
                            if j < n {
                                pre.lemma_view_at(j);
                            }
                        }
                        if pre@.dom().contains(key) {
                            let j = choose|j: int|
                                0 <= j < pre.entries@.len() && pre.entries@[j].0@ == key;
                            self.lemma_view_at(j);
                            pre.lemma_view_at(j);
                        }
                    }
                    assert(self@.dom() =~= pre@.insert(kk, v).dom());
                    assert(self@ =~= pre@.insert(kk, v));
                }
            },
        }
    }

    /// Removes `k`, handing back its value where it was a key.
    pub fn remove(&mut self, k: &String) -> (r: Option<V>)
        requires
            old(self).wf(),
        ensures
            final(self).wf(),
            final(self)@ == old(self)@.remove(k@),
            match r {
                Some(v) => old(self)@.contains_key(k@) && v == old(self)@[k@],
                None => !old(self)@.contains_key(k@),
            },
    {
        match self.index_of(k) {
            Some(i) => {
                let ghost pre = *self;
                proof {
                    pre.lemma_view_at(i as int);
                }
                let (_, v) = self.entries.remove(i);
                proof {
                    assert forall|a: int, b: int|
                        0 <= a < b < self.entries@.len() implies self.entries@[a].0@
                        != self.entries@[b].0@ by {
                        let pa = if a < i { a } else { a + 1 };
                        let pb = if b < i { b } else { b + 1 };
                        assert(self.entries@[a] == pre.entries@[pa]);
                        assert(self.entries@[b] == pre.entries@[pb]);
                    }
                    assert forall|key: Seq<char>|
                        #[trigger] self@.dom().contains(key) == pre@.remove(k@).dom().contains(key) && (
                        self@.dom().contains(key) ==> self@[key] == pre@.remove(k@)[key]) by {
                        if self@.dom().contains(key) {
                            let j = choose|j: int|
                                0 <= j < self.entries@.len() && self.entries@[j].0@ == key;
                            let pj = if j < i { j } else { j + 1 };
                            assert(self.entries@[j] == pre.entries@[pj]);
                            self.lemma_view_at(j);
                            pre.lemma_view_at(pj);
                        }
                        if pre@.dom().contains(key) && key != k@ {
                            let pj = choose|j: int|
                                0 <= j < pre.entries@.len() && pre.entries@[j].0@ == key;
                            assert(pj != i);
                            let j = if pj < i { pj } else { pj - 1 };
                            assert(self.entries@[j] == pre.entries@[pj]);
                            self.lemma_view_at(j);
                            pre.lemma_view_at(pj);
                        }
                    }
                    assert(!self@.contains_key(k@)) by {
                        if self@.contains_key(k@) {
                            let j = choose|j: int|
                                0 <= j < self.entries@.len() && self.entries@[j].0@ == k@;
                            let pj = if j < i { j } else { j + 1 };
                            assert(self.entries@[j] == pre.entries@[pj]);
                        }
                    }
                    assert(self@.dom() =~= pre@.remove(k@).dom());
                    assert(self@ =~= pre@.remove(k@));
                }
                Some(v)
            },
            None => {
                proof {
                    assert(self@ =~= self@.remove(k@));
                }
                None
            },
        }
    }
}

} // verus!
