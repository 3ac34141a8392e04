use vstd::prelude::*;

verus! {

/// An association table with unique `u64` keys, the backing store for
/// every lazily-grown mapping in the library (Q-values, learned models,
/// recency counters, policies). Entries keep their insertion order, so
/// iteration is deterministic.
pub struct Table<V> {
    pub entries: Vec<(u64, V)>,
}

impl<V> Table<V> {
    /// Keys are pairwise distinct.
    pub open spec fn wf(self) -> bool {
        forall|i: int, j: int|
            0 <= i < j < self.entries@.len() ==> self.entries@[i].0 != self.entries@[j].0
    }

    pub open spec fn contains_sp(self, k: u64) -> bool {
        exists|i: int| 0 <= i < self.entries@.len() && self.entries@[i].0 == k
    }

    pub open spec fn idx_of(self, k: u64) -> int {
        choose|i: int| 0 <= i < self.entries@.len() && self.entries@[i].0 == k
    }

    pub open spec fn val_of(self, k: u64) -> V
        recommends
            self.contains_sp(k),
    {
        self.entries@[self.idx_of(k)].1
    }

    pub open spec fn len_sp(self) -> nat {
        self.entries@.len()
    }

    /// With distinct keys, any index holding `k` is the index `idx_of` picks.
    pub proof fn lemma_idx(self, k: u64, i: int)
        requires
            self.wf(),
            0 <= i < self.entries@.len(),
            self.entries@[i].0 == k,
        ensures
            self.contains_sp(k),
            self.idx_of(k) == i,
    {
        assert(self.contains_sp(k));
        let j = self.idx_of(k);
        assert(0 <= j < self.entries@.len() && self.entries@[j].0 == k);
        if i < j {
            assert(self.entries@[i].0 != self.entries@[j].0);
        } else if j < i {
            assert(self.entries@[j].0 != self.entries@[i].0);
        }
    }

    pub fn new() -> (r: Table<V>)
        ensures
            r.entries@.len() == 0,
            r.wf(),
            forall|k: u64| !r.contains_sp(k),
    {
        Table { entries: Vec::new() }
    }

    pub fn len(&self) -> (r: usize)
        ensures
            r == self.len_sp(),
    {
        self.entries.len()
    }

    /// Index of the entry holding `k`, if any.
    pub fn find(&self, k: u64) -> (r: Option<usize>)
        requires
            self.wf(),
        ensures
            match r {
                Some(i) => self.contains_sp(k) && i == self.idx_of(k) && i
                    < self.entries@.len() && self.entries@[i as int].0 == k,
                None => !self.contains_sp(k),
            },
    {
        let n = self.entries.len();
        let mut i: usize = 0;
        while i < n
            invariant
                n == self.entries@.len(),
                i <= n,
                self.wf(),
                forall|j: int| 0 <= j < i ==> self.entries@[j].0 != k,
            decreases n - i,
        {
            if self.entries[i].0 == k {
                proof {
                    self.lemma_idx(k, i as int);
                }
                return Some(i);
            }
            i += 1;
        }
        None
    }

    pub fn contains_key(&self, k: u64) -> (r: bool)
        requires
            self.wf(),
        ensures
            r == self.contains_sp(k),
    {
        self.find(k).is_some()
    }

    /// Binds `k` to `v`, replacing any previous binding. Every other key
    /// keeps its value; a fresh key goes to the end of the table.
    pub fn insert(&mut self, k: u64, v: V)
        requires
            old(self).wf(),
        ensures
            final(self).wf(),
            final(self).contains_sp(k),
            final(self).val_of(k) == v,
            forall|k2: u64|
                k2 != k ==> #[trigger] final(self).contains_sp(k2) == old(self).contains_sp(k2),
            forall|k2: u64|
                k2 != k && old(self).contains_sp(k2) ==> #[trigger] final(self).val_of(k2) == old(
                    self,
                ).val_of(k2),
            old(self).contains_sp(k) ==> final(self).entries@ == old(self).entries@.update(
                old(self).idx_of(k),
                (k, v),
            ),
            !old(self).contains_sp(k) ==> final(self).entries@ == old(self).entries@.push((k, v)),
    {
        let found = self.find(k);
        match found {
            Some(i) => {
                self.entries[i] = (k, v);
                proof {
                    assert(self.entries@ == old(self).entries@.update(old(self).idx_of(k), (k, v)));
                    self.lemma_idx(k, i as int);
                    assert forall|k2: u64| k2 != k && old(self).contains_sp(k2) implies
                        self.contains_sp(k2) && self.val_of(k2) == old(self).val_of(k2) by {
                        let j = old(self).idx_of(k2);
                        assert(old(self).entries@[j].0 == k2);
                        assert(self.entries@[j] == old(self).entries@[j]);
                        self.lemma_idx(k2, j);
                    }
                    assert forall|k2: u64| k2 != k && self.contains_sp(k2) implies old(
                        self,
                    ).contains_sp(k2) by {
                        let j = self.idx_of(k2);
                        assert(old(self).entries@[j].0 == k2);
                    }
                }
            },
            None => {
                self.entries.push((k, v));
                proof {
                    assert(self.entries@ == old(self).entries@.push((k, v)));
                    assert forall|i: int, j: int|
                        0 <= i < j < self.entries@.len() implies self.entries@[i].0
                        != self.entries@[j].0 by {
                        if j < self.entries@.len() - 1 {
                            assert(old(self).entries@[i].0 != old(self).entries@[j].0);
                        } else {
                            assert(old(self).entries@[i].0 == self.entries@[i].0);
                            if self.entries@[i].0 == k {
                                assert(old(self).contains_sp(k));
                            }
                        }
                    }
                    self.lemma_idx(k, self.entries@.len() - 1);
                    assert forall|k2: u64| k2 != k && old(self).contains_sp(k2) implies
                        self.contains_sp(k2) && self.val_of(k2) == old(self).val_of(k2) by {
                        let j = old(self).idx_of(k2);
                        assert(self.entries@[j].0 == k2);
                        self.lemma_idx(k2, j);
                    }
                    assert forall|k2: u64| k2 != k && self.contains_sp(k2) implies old(
                        self,
                    ).contains_sp(k2) by {
                        let j = self.idx_of(k2);
                        assert(0 <= j < old(self).entries@.len());
                        assert(old(self).entries@[j].0 == k2);
                    }
                }
            },
        }
    }
}

impl<V: Copy> Table<V> {
    /// The value bound to `k`, or `dflt` where `k` is unbound — the
    /// lazy-default read every learner uses for untouched entries.
    pub fn get_or(&self, k: u64, dflt: V) -> (r: V)
        requires
            self.wf(),
        ensures
            r == if self.contains_sp(k) {
                self.val_of(k)
            } else {
                dflt
            },
    {
        match self.find(k) {
            Some(i) => self.entries[i].1,
            None => dflt,
        }
    }

    pub fn get(&self, k: u64) -> (r: Option<V>)
        requires
            self.wf(),
        ensures
            match r {
                Some(v) => self.contains_sp(k) && v == self.val_of(k),
                None => !self.contains_sp(k),
            },
    {
        match self.find(k) {
            Some(i) => Some(self.entries[i].1),
            None => None,
        }
    }
}

/// Packs a (state, action) pair into a single table key.
pub open spec fn pair_key_sp(s: int, a: int) -> int {
    s * 0x1_0000_0000 + a
}

/// Key for a (state, action) pair: the two halves of a `u64`.
pub fn pair_key(s: usize, a: usize) -> (r: u64)
    requires
        s < 0x1_0000_0000,
        a < 0x1_0000_0000,
    ensures
        r == pair_key_sp(s as int, a as int),
        r as int == pair_key_sp(s as int, a as int),
{
    (s as u64) * 0x1_0000_0000u64 + (a as u64)
}

/// Distinct (state, action) pairs get distinct keys.
pub proof fn lemma_pair_key_injective(s1: int, a1: int, s2: int, a2: int)
    requires
        0 <= s1 < 0x1_0000_0000,
        0 <= a1 < 0x1_0000_0000,
        0 <= s2 < 0x1_0000_0000,
        0 <= a2 < 0x1_0000_0000,
        pair_key_sp(s1, a1) == pair_key_sp(s2, a2),
    ensures
        s1 == s2,
        a1 == a2,
{
    assert(s1 == s2 && a1 == a2) by (nonlinear_arith)
        requires
            0 <= s1 < 0x1_0000_0000,
            0 <= a1 < 0x1_0000_0000,
            0 <= s2 < 0x1_0000_0000,
            0 <= a2 < 0x1_0000_0000,
            s1 * 0x1_0000_0000 + a1 == s2 * 0x1_0000_0000 + a2;
}

} // verus!
