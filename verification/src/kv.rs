//! A small keyed store: an association list with unique `u128` keys and
//! `u128` values, where an absent key reads as zero. It backs the ledger's
//! balance and issuance tables.

use vstd::prelude::*;

verus! {

pub struct KvStore {
    pub entries: Vec<(u128, u128)>,
}

impl KvStore {
    /// Keys are pairwise distinct.
    pub open spec fn wf(self) -> bool {
        forall|i: int, j: int|
            0 <= i < j < self.entries@.len() ==> (#[trigger] self.entries@[i]).0 != (
            #[trigger] self.entries@[j]).0
    }

    pub open spec fn has_key(self, k: u128) -> bool {
        exists|i: int| 0 <= i < self.entries@.len() && (#[trigger] self.entries@[i]).0 == k
    }

    /// The value stored under `k`; zero when the key is absent.
    pub open spec fn val(self, k: u128) -> u128 {
        if self.has_key(k) {
            self.entries@[choose|i: int|
                0 <= i < self.entries@.len() && (#[trigger] self.entries@[i]).0 == k].1
        } else {
            0
        }
    }

    proof fn lemma_val_at(self, k: u128, i: int)
        requires
            self.wf(),
            0 <= i < self.entries@.len(),
            self.entries@[i].0 == k,
        ensures
            self.has_key(k),
            self.val(k) == self.entries@[i].1,
    {
        assert(self.has_key(k));
        let j = choose|j: int|
            0 <= j < self.entries@.len() && (#[trigger] self.entries@[j]).0 == k;
        if j < i {
            assert(self.entries@[j].0 != self.entries@[i].0);
        } else if i < j {
            assert(self.entries@[i].0 != self.entries@[j].0);
        }
    }

    pub fn new() -> (s: KvStore)
        ensures
            s.wf(),
            forall|k: u128| !s.has_key(k),
            forall|k: u128| s.val(k) == 0,
    {
        KvStore { entries: Vec::new() }
    }

    fn find(&self, k: u128) -> (r: Option<usize>)
        requires
            self.wf(),
        ensures
            match r {
                Some(i) => i < self.entries@.len() && self.entries@[i as int].0 == k,
                None => !self.has_key(k),
            },
    {
        let n = self.entries.len();
        let mut i: usize = 0;
        while i < n
            invariant
                n == self.entries@.len(),
                i <= n,
                forall|j: int| 0 <= j < i ==> (#[trigger] self.entries@[j]).0 != k,
            decreases n - i,
        {
            if self.entries[i].0 == k {
                return Some(i);
            }
            i += 1;
        }
        None
    }

    /// Read the value under `k` (zero when absent).
    pub fn get(&self, k: u128) -> (r: u128)
        requires
            self.wf(),
        ensures
            r == self.val(k),
    {
        match self.find(k) {
            Some(i) => {
                proof {
                    self.lemma_val_at(k, i as int);
                }
                self.entries[i].1
            },
            None => 0,
        }
    }

    /// Store `v` under `k`, leaving every other key untouched.
    pub fn set(&mut self, k: u128, v: u128)
        requires
            old(self).wf(),
        ensures
            final(self).wf(),
            final(self).has_key(k),
            final(self).val(k) == v,
            forall|k2: u128| k2 != k ==> final(self).val(k2) == old(self).val(k2),
            forall|k2: u128| k2 != k ==> (final(self).has_key(k2) <==> old(self).has_key(k2)),
    {
        let found = self.find(k);
        match found {
            Some(i) => {
                self.entries[i] = (k, v);
                proof {
                    assert(self.entries@ == old(self).entries@.update(i as int, (k, v)));
                    assert forall|j: int| 0 <= j < self.entries@.len() implies (
                    #[trigger] self.entries@[j]).0 == old(self).entries@[j].0 by {
                        if j != i {
                            assert(self.entries@[j] == old(self).entries@[j]);
                        }
                    }
                    assert(self.wf());
                    self.lemma_val_at(k, i as int);
                    self.lemma_preserves_others(*old(self), k, i as int);
                }
            },
            None => {
                self.entries.push((k, v));
                proof {
                    let n = old(self).entries@.len() as int;
                    assert(self.entries@ == old(self).entries@.push((k, v)));
                    assert forall|i: int, j: int|
                        0 <= i < j < self.entries@.len() implies (#[trigger] self.entries@[i]).0
                        != (#[trigger] self.entries@[j]).0 by {
                        if j < n {
                            assert(self.entries@[i] == old(self).entries@[i]);
                            assert(self.entries@[j] == old(self).entries@[j]);
                        } else {
                            assert(self.entries@[i] == old(self).entries@[i]);
                            assert(old(self).entries@[i].0 != k);
                        }
                    }
                    self.lemma_val_at(k, n);
                    self.lemma_preserves_others(*old(self), k, n);
                }
            },
        }
    }

    /// After a store whose entries agree with `prior` everywhere except at
    /// index `i`, which now carries key `k`, every other key reads as before.
    proof fn lemma_preserves_others(self, prior: KvStore, k: u128, i: int)
        requires
            self.wf(),
            prior.wf(),
            0 <= i < self.entries@.len(),
            self.entries@[i].0 == k,
            self.entries@.len() == prior.entries@.len() || (self.entries@.len() == prior.entries@.len()
                + 1 && i == prior.entries@.len()),
            forall|j: int|
                0 <= j < self.entries@.len() && j != i ==> self.entries@[j] == prior.entries@[j],
            i < prior.entries@.len() ==> prior.entries@[i].0 == k,
        ensures
            forall|k2: u128| k2 != k ==> self.val(k2) == prior.val(k2),
            forall|k2: u128| k2 != k ==> (self.has_key(k2) <==> prior.has_key(k2)),
    {
        assert forall|k2: u128| k2 != k implies (self.has_key(k2) <==> prior.has_key(k2)) && self.val(
            k2,
        ) == prior.val(k2) by {
            if prior.has_key(k2) {
                let j = choose|j: int|
                    0 <= j < prior.entries@.len() && (#[trigger] prior.entries@[j]).0 == k2;
                assert(j != i);
                assert(self.entries@[j] == prior.entries@[j]);
                self.lemma_val_at(k2, j);
                prior.lemma_val_at(k2, j);
            } else if self.has_key(k2) {
                let j = choose|j: int|
                    0 <= j < self.entries@.len() && (#[trigger] self.entries@[j]).0 == k2;
                assert(j != i);
                assert(j < prior.entries@.len());
                assert(prior.entries@[j].0 == k2);
                assert(false);
            }
        }
    }
}

} // verus!
