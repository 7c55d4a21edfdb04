use vstd::prelude::*;

verus! {

/// A key of a `Table`: it can be compared and copied in executable code
/// consistently with its view.
pub trait TableKey: View + Sized {
    fn same_key(&self, other: &Self) -> (b: bool)
        ensures
            b == (self@ == other@),
    ;

    fn copy_key(&self) -> (c: Self)
        ensures
            c@ == self@,
    ;
}

impl TableKey for u64 {
    fn same_key(&self, other: &Self) -> (b: bool) {
        *self == *other
    }

    fn copy_key(&self) -> (c: Self) {
        *self
    }
}

impl TableKey for String {
    fn same_key(&self, other: &Self) -> (b: bool) {
        *self == *other
    }

    fn copy_key(&self) -> (c: Self) {
        self.clone()
    }
}

/// A dictionary of the contract's storage: a list of entries with pairwise
/// distinct keys, seen as a finite map from key views to value views.
pub struct Table<K: TableKey, V: View> {
    entries: Vec<(K, V)>,
}

impl<K: TableKey, V: View> Table<K, V> {
    pub closed spec fn has_index(&self, k: K::V, i: int) -> bool {
        0 <= i < self.entries@.len() && self.entries@[i].0@ == k
    }

    /// The keys of the entries are pairwise distinct.
    #[verifier::type_invariant]
    spec fn wf(&self) -> bool {
        forall|i: int, j: int|
            0 <= i < self.entries@.len() && 0 <= j < self.entries@.len() && i != j
                ==> #[trigger] self.entries@[i].0@ != #[trigger] self.entries@[j].0@
    }

    pub closed spec fn view(&self) -> Map<K::V, V::V> {
        Map::new(
            |k: K::V| exists|i: int| self.has_index(k, i),
            |k: K::V| self.entries@[choose|i: int| self.has_index(k, i)].1@,
        )
    }

    proof fn lemma_entry(&self, i: int)
        requires
            self.wf(),
            0 <= i < self.entries@.len(),
        ensures
            self@.contains_key(self.entries@[i].0@),
            self@[self.entries@[i].0@] == self.entries@[i].1@,
    {
        let k = self.entries@[i].0@;
        assert(self.has_index(k, i));
        let j = choose|j: int| self.has_index(k, j);
        assert(self.has_index(k, j));
        if j != i {
            assert(self.entries@[i].0@ != self.entries@[j].0@);
        }
    }

    pub fn new() -> (t: Self)
        ensures
            t@ == Map::<K::V, V::V>::empty(),
    {
        let t = Table { entries: Vec::new() };
        assert(t@ =~= Map::<K::V, V::V>::empty());
        t
    }

    fn find(&self, k: &K) -> (r: Option<usize>)
        ensures
            match r {
                Some(i) => self.has_index(k@, i as int),
                None => !self@.contains_key(k@),
            },
    {
        let n = self.entries.len();
        let mut i: usize = 0;
        while i < n
            invariant
                n == self.entries@.len(),
                0 <= i <= n,
                forall|j: int| 0 <= j < i ==> self.entries@[j].0@ != k@,
            decreases n - i,
        {
            if self.entries[i].0.same_key(k) {
                return Some(i);
            }
            i = i + 1;
        }
        None
    }

    /// The value stored under `k`, if any.
    pub fn get(&self, k: &K) -> (r: Option<&V>)
        ensures
            match r {
                Some(v) => self@.contains_key(k@) && v@ == self@[k@],
                None => !self@.contains_key(k@),
            },
    {
        proof {
            use_type_invariant(self);
        }
        match self.find(k) {
            Some(i) => {
                proof {
                    self.lemma_entry(i as int);
                }
                Some(&self.entries[i].1)
            },
            None => None,
        }
    }

    pub fn contains(&self, k: &K) -> (b: bool)
        ensures
            b == self@.contains_key(k@),
    {
        proof {
            use_type_invariant(self);
        }
        match self.find(k) {
            Some(i) => {
                proof {
                    self.lemma_entry(i as int);
                }
                true
            },
            None => false,
        }
    }

    /// The keys of the table, each once.
    pub fn keys(&self) -> (r: Vec<K>)
        ensures
            r@.len() == self@.dom().len(),
            forall|i: int| 0 <= i < r@.len() ==> self@.contains_key(#[trigger] r@[i]@),
            forall|k: K::V| self@.contains_key(k) ==> exists|i: int| 0 <= i < r@.len() && r@[i]@ == k,
    {
        proof {
            use_type_invariant(self);
        }
        let n = self.entries.len();
        let mut r: Vec<K> = Vec::new();
        let mut i: usize = 0;
        while i < n
            invariant
                self.wf(),
                n == self.entries@.len(),
                0 <= i <= n,
                r@.len() == i,
                forall|j: int| 0 <= j < i ==> #[trigger] r@[j]@ == self.entries@[j].0@,
            decreases n - i,
        {
            r.push(self.entries[i].0.copy_key());
            i = i + 1;
        }
        proof {
            assert forall|j: int| 0 <= j < r@.len() implies self@.contains_key(#[trigger] r@[j]@) by {
                self.lemma_entry(j);
            }
            assert forall|k: K::V| self@.contains_key(k) implies exists|j: int|
                0 <= j < r@.len() && r@[j]@ == k by {
                let j = choose|j: int| self.has_index(k, j);
                assert(r@[j]@ == k);
            }
            self.lemma_len();
        }
        r
    }

    proof fn lemma_len(&self)
        requires
            self.wf(),
        ensures
            self@.dom().len() == self.entries@.len(),
            self@.dom().finite(),
    {
        let ks = Seq::new(self.entries@.len(), |j: int| self.entries@[j].0@);
        assert forall|a: int, b: int| 0 <= a < ks.len() && 0 <= b < ks.len() && a != b implies ks[a]
            != ks[b] by {
            assert(self.entries@[a].0@ != self.entries@[b].0@);
        }
        assert(ks.no_duplicates());
        assert forall|k: K::V| #[trigger] self@.dom().contains(k) <==> ks.to_set().contains(k) by {
            if self@.dom().contains(k) {
                let j = choose|j: int| self.has_index(k, j);
                assert(ks[j] == k);
            }
            if ks.to_set().contains(k) {
                let j = choose|j: int| 0 <= j < ks.len() && ks[j] == k;
                assert(self.has_index(k, j));
            }
        }
        assert(self@.dom() =~= ks.to_set());
        ks.unique_seq_to_set();
    }

    /// Stores `v` under `k`, replacing what was there.
    pub fn insert(&mut self, k: K, v: V)
        ensures
            final(self)@ == old(self)@.insert(k@, v@),
    {
        proof {
            use_type_invariant(&*self);
        }
        let ghost old_t = *self;
        let found = self.find(&k);
        let mut e: Vec<(K, V)> = Vec::new();
        std::mem::swap(&mut e, &mut self.entries);
        match found {
            Some(i) => {
                e.set(i, (k, v));
                proof {
                    let t = Table { entries: e };
                    assert forall|a: int, b: int|
                        0 <= a < t.entries@.len() && 0 <= b < t.entries@.len() && a != b
                            implies #[trigger] t.entries@[a].0@ != #[trigger] t.entries@[b].0@ by {
                        if a != i as int && b != i as int {
                            assert(old_t.entries@[a] == t.entries@[a]);
                            assert(old_t.entries@[b] == t.entries@[b]);
                        } else if a == i as int {
                            assert(old_t.entries@[b] == t.entries@[b]);
                            assert(old_t.entries@[a].0@ != old_t.entries@[b].0@);
                        } else {
                            assert(old_t.entries@[a] == t.entries@[a]);
                            assert(old_t.entries@[a].0@ != old_t.entries@[b].0@);
                        }
                    }
                    t.lemma_same_domain_update(old_t, i as int);
                }
            },
            None => {
                e.push((k, v));
                proof {
                    let t = Table { entries: e };
                    let n = old_t.entries@.len() as int;
                    assert forall|a: int, b: int|
                        0 <= a < t.entries@.len() && 0 <= b < t.entries@.len() && a != b
                            implies #[trigger] t.entries@[a].0@ != #[trigger] t.entries@[b].0@ by {
                        if a < n && b < n {
                            assert(old_t.entries@[a] == t.entries@[a]);
                            assert(old_t.entries@[b] == t.entries@[b]);
                        } else if a == n {
                            assert(old_t.entries@[b] == t.entries@[b]);
                            assert(old_t.has_index(old_t.entries@[b].0@, b));
                        } else {
                            assert(old_t.entries@[a] == t.entries@[a]);
                            assert(old_t.has_index(old_t.entries@[a].0@, a));
                        }
                    }
                    assert(t.entries@.drop_last() =~= old_t.entries@);
                    t.lemma_same_domain_push(old_t);
                }
            },
        }
        self.entries = e;
    }

    proof fn lemma_same_domain_update(&self, old_t: Self, i: int)
        requires
            old_t.wf(),
            self.wf(),
            0 <= i < old_t.entries@.len(),
            old_t.entries@[i].0@ == self.entries@[i].0@,
            self.entries@ == old_t.entries@.update(i, self.entries@[i]),
        ensures
            self@ == old_t@.insert(self.entries@[i].0@, self.entries@[i].1@),
    {
        let k = self.entries@[i].0@;
        let target = old_t@.insert(k, self.entries@[i].1@);
        self.lemma_entry(i);
        assert forall|x: K::V| #[trigger] self@.contains_key(x) <==> target.contains_key(x) by {
            if self@.contains_key(x) {
                let j = choose|j: int| self.has_index(x, j);
                if j != i {
                    assert(old_t.has_index(x, j));
                }
            }
            if target.contains_key(x) && x != k {
                let j = choose|j: int| old_t.has_index(x, j);
                assert(self.has_index(x, j));
            }
        }
        assert forall|x: K::V| #[trigger] self@.contains_key(x) implies self@[x] == target[x] by {
            if x != k {
                let j = choose|j: int| self.has_index(x, j);
                assert(j != i);
                assert(old_t.has_index(x, j));
                self.lemma_entry(j);
                old_t.lemma_entry(j);
            }
        }
        assert(self@ =~= target);
    }

    proof fn lemma_same_domain_push(&self, old_t: Self)
        requires
            old_t.wf(),
            self.wf(),
            self.entries@.len() == old_t.entries@.len() + 1,
            self.entries@.drop_last() == old_t.entries@,
        ensures
            self@ == old_t@.insert(self.entries@.last().0@, self.entries@.last().1@),
    {
        let n = old_t.entries@.len() as int;
        let k = self.entries@[n].0@;
        let target = old_t@.insert(k, self.entries@[n].1@);
        self.lemma_entry(n);
        assert forall|j: int| 0 <= j < n implies self.entries@[j] == old_t.entries@[j] by {
            assert(self.entries@.drop_last()[j] == self.entries@[j]);
        }
        assert forall|x: K::V| #[trigger] self@.contains_key(x) <==> target.contains_key(x) by {
            if self@.contains_key(x) && x != k {
                let j = choose|j: int| self.has_index(x, j);
                assert(old_t.has_index(x, j));
            }
            if target.contains_key(x) && x != k {
                let j = choose|j: int| old_t.has_index(x, j);
                assert(self.has_index(x, j));
            }
        }
        assert forall|x: K::V| #[trigger] self@.contains_key(x) implies self@[x] == target[x] by {
            if x != k {
                let j = choose|j: int| self.has_index(x, j);
                assert(j != n);
                assert(old_t.has_index(x, j));
                self.lemma_entry(j);
                old_t.lemma_entry(j);
            }
        }
        assert(self@ =~= target);
    }
}

} // verus!
