use vstd::prelude::*;

verus! {

/// A small map keyed by strings, kept as two parallel vectors with distinct keys.
///
/// Its meaning is the `Map` given by `view`; `key_seq` exposes the order in which
/// keys were first inserted, so callers can walk the entries by index.
pub struct Table<V> {
    keys: Vec<String>,
    vals: Vec<V>,
}

impl<V> Table<V> {
    /// Keys are pairwise distinct and every key has exactly one value.
    pub closed spec fn wf(&self) -> bool {
        &&& self.keys@.len() == self.vals@.len()
        &&& forall|i: int, j: int|
            0 <= i < self.keys@.len() && 0 <= j < self.keys@.len() && i != j
                ==> #[trigger] self.keys@[i]@ != #[trigger] self.keys@[j]@
    }

    /// The keys, in the order they were first inserted.
    pub closed spec fn key_seq(&self) -> Seq<Seq<char>> {
        self.keys@.map_values(|k: String| k@)
    }

    spec fn has_key_at(&self, k: Seq<char>, i: int) -> bool {
        0 <= i < self.keys@.len() && self.keys@[i]@ == k
    }

    spec fn index_of(&self, k: Seq<char>) -> int {
        choose|i: int| self.has_key_at(k, i)
    }

    pub closed spec fn view(&self) -> Map<Seq<char>, V> {
        Map::new(
            |k: Seq<char>| exists|i: int| self.has_key_at(k, i),
            |k: Seq<char>| self.vals@[self.index_of(k)],
        )
    }

    proof fn lemma_index_of(&self, i: int)
        requires
            self.wf(),
            0 <= i < self.keys@.len(),
        ensures
            self.index_of(self.keys@[i]@) == i,
            self@.contains_key(self.keys@[i]@),
            self@[self.keys@[i]@] == self.vals@[i],
    {
        let k = self.keys@[i]@;
        assert(self.has_key_at(k, i));
        let j = self.index_of(k);
        assert(self.has_key_at(k, j));
        if i != j {
            assert(self.keys@[i]@ != self.keys@[j]@);
        }
    }

    /// The key sequence lists each key of the map exactly once.
    pub proof fn lemma_key_seq(&self)
        requires
            self.wf(),
        ensures
            self.key_seq().len() == self@.dom().len(),
            self.key_seq().no_duplicates(),
            self.key_seq().to_set() == self@.dom(),
            forall|i: int| 0 <= i < self.key_seq().len() ==> self@.contains_key(#[trigger] self.key_seq()[i]),
    {
        let ks = self.key_seq();
        assert forall|i: int| 0 <= i < ks.len() implies self@.contains_key(#[trigger] ks[i]) by {
            self.lemma_index_of(i);
        }
        assert forall|i: int, j: int| 0 <= i < ks.len() && 0 <= j < ks.len() && i != j
            implies ks[i] != ks[j] by {
            assert(self.keys@[i]@ != self.keys@[j]@);
        }
        assert(ks.no_duplicates());
        assert forall|k: Seq<char>| self@.contains_key(k) implies ks.to_set().contains(k) by {
            let i = self.index_of(k);
            assert(ks[i] == k);
        }
        assert(ks.to_set() =~= self@.dom());
        ks.unique_seq_to_set();
    }

    pub fn new() -> (r: Self)
        ensures
            r.wf(),
            r@ == Map::<Seq<char>, V>::empty(),
            r.key_seq().len() == 0,
    {
        let r = Table { keys: Vec::new(), vals: Vec::new() };
        assert(r@ =~= Map::<Seq<char>, V>::empty());
        assert(r.key_seq() =~= Seq::<Seq<char>>::empty());
        r
    }

    pub fn len(&self) -> (r: usize)
        requires
            self.wf(),
        ensures
            r == self.key_seq().len(),
    {
        self.keys.len()
    }

    /// The key at position `i` of `key_seq`.
    pub fn key_at(&self, i: usize) -> (r: &String)
        requires
            self.wf(),
            i < self.key_seq().len(),
        ensures
            r@ == self.key_seq()[i as int],
    {
        &self.keys[i]
    }

    /// The value stored under the key at position `i` of `key_seq`.
    pub fn value_at(&self, i: usize) -> (r: &V)
        requires
            self.wf(),
            i < self.key_seq().len(),
        ensures
            self@.contains_key(self.key_seq()[i as int]),
            *r == self@[self.key_seq()[i as int]],
    {
        proof {
            self.lemma_index_of(i as int);
        }
        &self.vals[i]
    }

    /// The position of `k` in `key_seq`, if it is a key.
    pub fn find(&self, k: &String) -> (r: Option<usize>)
        requires
            self.wf(),
        ensures
            match r {
                Some(i) => i < self.key_seq().len() && self.key_seq()[i as int] == k@,
                None => !self@.contains_key(k@),
            },
    {
        let mut i: usize = 0;
        while i < self.keys.len()
            invariant
                self.wf(),
                i <= self.keys@.len(),
                forall|j: int| 0 <= j < i ==> self.keys@[j]@ != k@,
            decreases self.keys@.len() - i,
        {
            if self.keys[i] == *k {
                return Some(i);
            }
            i = i + 1;
        }
        proof {
            if self@.contains_key(k@) {
                let j = self.index_of(k@);
                assert(self.has_key_at(k@, j));
            }
        }
        None
    }

    pub fn get(&self, k: &String) -> (r: Option<&V>)
        requires
            self.wf(),
        ensures
            match r {
                Some(v) => self@.contains_key(k@) && *v == self@[k@],
                None => !self@.contains_key(k@),
            },
    {
        match self.find(k) {
            Some(i) => {
                proof {
                    self.lemma_index_of(i as int);
                }
                Some(&self.vals[i])
            },
            None => None,
        }
    }

    fn push_new(&mut self, k: String, v: V)
        requires
            old(self).wf(),
            !old(self)@.contains_key(k@),
        ensures
            final(self).wf(),
            final(self)@ == old(self)@.insert(k@, v),
            final(self).key_seq() == old(self).key_seq().push(k@),
    {
        let ghost pre = *self;
        let ghost kv = k@;
        proof {
            assert forall|j: int| 0 <= j < pre.keys@.len() implies pre.keys@[j]@ != kv by {
                pre.lemma_index_of(j);
            }
        }
        self.keys.push(k);
        self.vals.push(v);
        let ghost post = *self;
        assert(post.wf());
        proof {
            assert forall|q: Seq<char>| #[trigger] post@.contains_key(q) == pre@.insert(kv, v).contains_key(q) by {
                if q != kv && post@.contains_key(q) {
                    let j = post.index_of(q);
                    assert(pre.has_key_at(q, j));
                }
                if pre@.contains_key(q) {
                    let j = pre.index_of(q);
                    assert(post.has_key_at(q, j));
                }
                if q == kv {
                    assert(post.has_key_at(q, pre.keys@.len() as int));
                }
            }
            assert forall|q: Seq<char>| post@.contains_key(q) implies #[trigger] post@[q] == pre@.insert(kv, v)[q] by {
                let j = post.index_of(q);
                post.lemma_index_of(j);
                if q != kv {
                    assert(j < pre.keys@.len());
                    pre.lemma_index_of(j);
                }
            }
        }
        assert(post@ =~= pre@.insert(kv, v));
        assert(post.key_seq() =~= pre.key_seq().push(kv));
    }

    /// Adds `k -> v` unless `k` is already present; says whether it was added.
    pub fn insert_if_absent(&mut self, k: String, v: V) -> (r: bool)
        requires
            old(self).wf(),
        ensures
            final(self).wf(),
            r == !old(self)@.contains_key(k@),
            final(self)@ == (if r { old(self)@.insert(k@, v) } else { old(self)@ }),
    {
        match self.find(&k) {
            Some(i) => {
                proof {
                    self.lemma_index_of(i as int);
                }
                false
            },
            None => {
                self.push_new(k, v);
                true
            },
        }
    }

    /// Sets `k -> v`, replacing any earlier value of `k`.
    pub fn insert(&mut self, k: String, v: V)
        requires
            old(self).wf(),
        ensures
            final(self).wf(),
            final(self)@ == old(self)@.insert(k@, v),
    {
        match self.find(&k) {
            Some(i) => {
                let ghost pre = *self;
                let ghost kv = k@;
                proof {
                    pre.lemma_index_of(i as int);
                }
                self.vals.set(i, v);
                let ghost post = *self;
                assert(post.keys@ == pre.keys@);
                assert(post.wf());
                proof {
                    assert forall|q: Seq<char>| #[trigger] post@.contains_key(q) == pre@.insert(kv, v).contains_key(q) by {
                        if post@.contains_key(q) {
                            let j = post.index_of(q);
                            assert(pre.has_key_at(q, j));
                        }
                        if pre@.contains_key(q) {
                            let j = pre.index_of(q);
                            assert(post.has_key_at(q, j));
                        }
                    }
                    assert forall|q: Seq<char>| post@.contains_key(q) implies #[trigger] post@[q] == pre@.insert(kv, v)[q] by {
                        let j = post.index_of(q);
                        post.lemma_index_of(j);
                        pre.lemma_index_of(j);
                    }
                }
                assert(post@ =~= pre@.insert(kv, v));
            },
            None => {
                self.push_new(k, v);
            },
        }
    }

    /// Replaces the value under the key at position `i` by `*v`, and hands the
    /// previous value back through `v`.
    pub fn swap_value_at(&mut self, i: usize, v: &mut V)
        requires
            old(self).wf(),
            i < old(self).key_seq().len(),
        ensures
            final(self).wf(),
            final(self).key_seq() == old(self).key_seq(),
            old(self)@.contains_key(old(self).key_seq()[i as int]),
            *final(v) == old(self)@[old(self).key_seq()[i as int]],
            final(self)@ == old(self)@.insert(old(self).key_seq()[i as int], *old(v)),
    {
        let ghost pre = *self;
        let ghost nv = *v;
        let ghost kv = self.keys@[i as int]@;
        proof {
            pre.lemma_index_of(i as int);
        }
        self.vals.set_and_swap(i, v);
        let ghost post = *self;
        assert(post.keys@ == pre.keys@);
        assert(post.wf());
        proof {
            assert forall|q: Seq<char>| #[trigger] post@.contains_key(q) == pre@.insert(kv, nv).contains_key(q) by {
                if post@.contains_key(q) {
                    let j = post.index_of(q);
                    assert(pre.has_key_at(q, j));
                }
                if pre@.contains_key(q) {
                    let j = pre.index_of(q);
                    assert(post.has_key_at(q, j));
                }
            }
            assert forall|q: Seq<char>| post@.contains_key(q) implies #[trigger] post@[q] == pre@.insert(kv, nv)[q] by {
                let j = post.index_of(q);
                post.lemma_index_of(j);
                pre.lemma_index_of(j);
            }
        }
        assert(post@ =~= pre@.insert(kv, nv));
        assert(post.key_seq() =~= pre.key_seq());
    }
}

} // verus!
