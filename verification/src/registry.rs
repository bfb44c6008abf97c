//! Keyed storage of `Pair` records. A pair is looked up by either ordering
//! of its two assets, and by its pool-share asset; both directions are
//! served from one record, so the two mappings can never disagree.

use vstd::prelude::*;

use crate::types::Pair;

verus! {

/// `p` is the pool of the unordered asset pair `{a, b}`.
pub open spec fn matches_tokens(p: Pair, a: u64, b: u64) -> bool {
    ||| (p.token_0 == a && p.token_1 == b)
    ||| (p.token_0 == b && p.token_1 == a)
}

/// `{a, b}` and `{c, d}` are the same unordered pair.
pub open spec fn same_unordered(a: u64, b: u64, c: u64, d: u64) -> bool {
    ||| (a == c && b == d)
    ||| (a == d && b == c)
}

pub struct PairRegistry {
    pub pairs: Vec<Pair>,
}

impl PairRegistry {
    pub open spec fn pairs_seq(self) -> Seq<Pair> {
        self.pairs@
    }

    /// Every record is well formed; no two records serve the same unordered
    /// asset pair, and no two share a pool-share asset.
    pub open spec fn wf(self) -> bool {
        &&& forall|i: int| 0 <= i < self.pairs@.len() ==> (#[trigger] self.pairs@[i]).wf()
        &&& forall|i: int, j: int|
            0 <= i < j < self.pairs@.len() ==> !matches_tokens(
                #[trigger] self.pairs@[i],
                (#[trigger] self.pairs@[j]).token_0,
                self.pairs@[j].token_1,
            )
        &&& forall|i: int, j: int|
            0 <= i < j < self.pairs@.len() ==> (#[trigger] self.pairs@[i]).pool_share_asset != (
            #[trigger] self.pairs@[j]).pool_share_asset
    }

    pub open spec fn has_pair(self, a: u64, b: u64) -> bool {
        exists|i: int| 0 <= i < self.pairs@.len() && matches_tokens(#[trigger] self.pairs@[i], a, b)
    }

    /// The index the token lookup resolves to; meaningful only when
    /// `has_pair(a, b)`.
    pub open spec fn index_of_pair(self, a: u64, b: u64) -> int {
        choose|i: int| 0 <= i < self.pairs@.len() && matches_tokens(#[trigger] self.pairs@[i], a, b)
    }

    /// The record for the unordered pair `{a, b}`; meaningful only when
    /// `has_pair(a, b)`.
    pub open spec fn pair_at(self, a: u64, b: u64) -> Pair {
        self.pairs@[self.index_of_pair(a, b)]
    }

    pub open spec fn has_share(self, share: u64) -> bool {
        exists|i: int|
            0 <= i < self.pairs@.len() && (#[trigger] self.pairs@[i]).pool_share_asset == share
    }

    /// The index the share lookup resolves to; meaningful only when
    /// `has_share(share)`.
    pub open spec fn index_of_share(self, share: u64) -> int {
        choose|i: int|
            0 <= i < self.pairs@.len() && (#[trigger] self.pairs@[i]).pool_share_asset == share
    }

    /// The record whose pool-share asset is `share`; meaningful only when
    /// `has_share(share)`.
    pub open spec fn pair_of_share(self, share: u64) -> Pair {
        self.pairs@[self.index_of_share(share)]
    }

    /// The record at a matching index is the record every token lookup
    /// returns.
    pub proof fn lemma_pair_at(self, a: u64, b: u64, i: int)
        requires
            self.wf(),
            0 <= i < self.pairs@.len(),
            matches_tokens(self.pairs@[i], a, b),
        ensures
            self.has_pair(a, b),
            self.index_of_pair(a, b) == i,
            self.pair_at(a, b) == self.pairs@[i],
    {
        assert(self.has_pair(a, b));
        let j = self.index_of_pair(a, b);
        assert(0 <= j < self.pairs@.len() && matches_tokens(self.pairs@[j], a, b));
        if j < i {
            assert(!matches_tokens(self.pairs@[j], self.pairs@[i].token_0, self.pairs@[i].token_1));
        } else if i < j {
            assert(!matches_tokens(self.pairs@[i], self.pairs@[j].token_0, self.pairs@[j].token_1));
        }
    }

    /// The record at an index with share asset `share` is the record the
    /// share lookup returns.
    pub proof fn lemma_pair_of_share(self, share: u64, i: int)
        requires
            self.wf(),
            0 <= i < self.pairs@.len(),
            self.pairs@[i].pool_share_asset == share,
        ensures
            self.has_share(share),
            self.index_of_share(share) == i,
            self.pair_of_share(share) == self.pairs@[i],
    {
        assert(self.has_share(share));
        let j = self.index_of_share(share);
        assert(0 <= j < self.pairs@.len() && self.pairs@[j].pool_share_asset == share);
        if j < i {
            assert(self.pairs@[j].pool_share_asset != self.pairs@[i].pool_share_asset);
        } else if i < j {
            assert(self.pairs@[i].pool_share_asset != self.pairs@[j].pool_share_asset);
        }
    }

    /// An empty registry.
    pub fn new() -> (s: PairRegistry)
        ensures
            s.wf(),
            forall|a: u64, b: u64| !s.has_pair(a, b),
            forall|share: u64| !s.has_share(share),
            s.pairs_seq() =~= Seq::<Pair>::empty(),
    {
        PairRegistry { pairs: Vec::new() }
    }

    fn find_tokens(&self, a: u64, b: u64) -> (r: Option<usize>)
        requires
            self.wf(),
        ensures
            match r {
                Some(i) => i < self.pairs@.len() && matches_tokens(self.pairs@[i as int], a, b),
                None => !self.has_pair(a, b),
            },
    {
        let n = self.pairs.len();
        let mut i: usize = 0;
        while i < n
            invariant
                n == self.pairs@.len(),
                i <= n,
                forall|j: int| 0 <= j < i ==> !matches_tokens(#[trigger] self.pairs@[j], a, b),
            decreases n - i,
        {
            let p = &self.pairs[i];
            if (p.token_0 == a && p.token_1 == b) || (p.token_0 == b && p.token_1 == a) {
                return Some(i);
            }
            i += 1;
        }
        None
    }

    /// Look a pair up by either ordering of its assets.
    pub fn get(&self, a: u64, b: u64) -> (r: Option<Pair>)
        requires
            self.wf(),
        ensures
            self.has_pair(a, b) ==> r == Some(self.pair_at(a, b)),
            !self.has_pair(a, b) ==> r is None,
    {
        match self.find_tokens(a, b) {
            Some(i) => {
                proof {
                    self.lemma_pair_at(a, b, i as int);
                }
                Some(self.pairs[i])
            },
            None => None,
        }
    }

    /// Does a pair exist, in either ordering?
    pub fn contains_pair(&self, a: u64, b: u64) -> (r: bool)
        requires
            self.wf(),
        ensures
            r == self.has_pair(a, b),
    {
        match self.find_tokens(a, b) {
            Some(i) => {
                proof {
                    self.lemma_pair_at(a, b, i as int);
                }
                true
            },
            None => false,
        }
    }

    /// Resolve the reverse mapping: pool-share asset to pair.
    pub fn get_by_share(&self, share: u64) -> (r: Option<Pair>)
        requires
            self.wf(),
        ensures
            self.has_share(share) ==> r == Some(self.pair_of_share(share)),
            !self.has_share(share) ==> r is None,
    {
        let n = self.pairs.len();
        let mut i: usize = 0;
        while i < n
            invariant
                n == self.pairs@.len(),
                i <= n,
                self.wf(),
                forall|j: int| 0 <= j < i ==> (#[trigger] self.pairs@[j]).pool_share_asset != share,
            decreases n - i,
        {
            if self.pairs[i].pool_share_asset == share {
                proof {
                    self.lemma_pair_of_share(share, i as int);
                }
                return Some(self.pairs[i]);
            }
            i += 1;
        }
        None
    }

    /// Upsert the record for its unordered asset pair; both lookup
    /// directions change together, every other record stays as it was.
    pub fn put(&mut self, p: Pair)
        requires
            old(self).wf(),
            p.wf(),
            forall|i: int|
                0 <= i < old(self).pairs@.len() && matches_tokens(
                    #[trigger] old(self).pairs@[i],
                    p.token_0,
                    p.token_1,
                ) ==> old(self).pairs@[i].pool_share_asset == p.pool_share_asset,
            forall|i: int|
                0 <= i < old(self).pairs@.len() && !matches_tokens(
                    #[trigger] old(self).pairs@[i],
                    p.token_0,
                    p.token_1,
                ) ==> old(self).pairs@[i].pool_share_asset != p.pool_share_asset,
        ensures
            final(self).wf(),
            final(self).has_pair(p.token_0, p.token_1),
            final(self).pair_at(p.token_0, p.token_1) == p,
            final(self).has_share(p.pool_share_asset),
            final(self).pair_of_share(p.pool_share_asset) == p,
            !old(self).has_pair(p.token_0, p.token_1) ==> final(self).pairs_seq() == old(self).pairs_seq().push(p),
            old(self).has_pair(p.token_0, p.token_1) ==> final(self).pairs_seq() == old(self).pairs_seq().update(old(self).index_of_pair(p.token_0, p.token_1), p),
            forall|a: u64, b: u64|
                !same_unordered(a, b, p.token_0, p.token_1) ==> ((final(self).has_pair(a, b)
                    <==> old(self).has_pair(a, b)) && (old(self).has_pair(a, b) ==> final(self).pair_at(a, b) == old(self).pair_at(a, b))),
            forall|s: u64|
                s != p.pool_share_asset ==> ((final(self).has_share(s) <==> old(self).has_share(s))
                    && (old(self).has_share(s) ==> final(self).pair_of_share(s) == old(self).pair_of_share(s))),
    {
        let found = self.find_tokens(p.token_0, p.token_1);
        match found {
            Some(i) => {
                proof {
                    self.lemma_pair_at(p.token_0, p.token_1, i as int);
                }
                self.pairs[i] = p;
                proof {
                    self.lemma_put_after(*old(self), p, i as int);
                }
            },
            None => {
                let ghost n = self.pairs@.len() as int;
                self.pairs.push(p);
                proof {
                    self.lemma_put_after(*old(self), p, n);
                }
            },
        }
    }

    /// After a write whose records agree with `prior` everywhere except at
    /// index `i`, which now holds `p`, every other lookup reads as before.
    proof fn lemma_put_after(self, prior: PairRegistry, p: Pair, i: int)
        requires
            prior.wf(),
            p.wf(),
            0 <= i < self.pairs@.len(),
            self.pairs@[i] == p,
            self.pairs@.len() == prior.pairs@.len() || (self.pairs@.len() == prior.pairs@.len() + 1
                && i == prior.pairs@.len()),
            forall|j: int|
                0 <= j < self.pairs@.len() && j != i ==> self.pairs@[j] == prior.pairs@[j],
            i < prior.pairs@.len() ==> matches_tokens(prior.pairs@[i], p.token_0, p.token_1),
            forall|j: int|
                0 <= j < prior.pairs@.len() && matches_tokens(
                    #[trigger] prior.pairs@[j],
                    p.token_0,
                    p.token_1,
                ) ==> prior.pairs@[j].pool_share_asset == p.pool_share_asset,
            forall|j: int|
                0 <= j < prior.pairs@.len() && !matches_tokens(
                    #[trigger] prior.pairs@[j],
                    p.token_0,
                    p.token_1,
                ) ==> prior.pairs@[j].pool_share_asset != p.pool_share_asset,
            i == prior.pairs@.len() ==> !prior.has_pair(p.token_0, p.token_1),
        ensures
            self.wf(),
            self.has_pair(p.token_0, p.token_1),
            self.pair_at(p.token_0, p.token_1) == p,
            self.has_share(p.pool_share_asset),
            self.pair_of_share(p.pool_share_asset) == p,
            forall|a: u64, b: u64|
                !same_unordered(a, b, p.token_0, p.token_1) ==> ((self.has_pair(a, b) <==> prior.has_pair(
                    a,
                    b,
                )) && (prior.has_pair(a, b) ==> self.pair_at(a, b) == prior.pair_at(a, b))),
            forall|s: u64|
                s != p.pool_share_asset ==> ((self.has_share(s) <==> prior.has_share(s)) && (
                prior.has_share(s) ==> self.pair_of_share(s) == prior.pair_of_share(s))),
    {
        assert forall|j: int| 0 <= j < self.pairs@.len() implies (#[trigger] self.pairs@[j]).wf() by {
            if j != i {
                assert(self.pairs@[j] == prior.pairs@[j]);
            }
        }
        assert forall|j: int, k: int| 0 <= j < k < self.pairs@.len() implies !matches_tokens(
            #[trigger] self.pairs@[j],
            (#[trigger] self.pairs@[k]).token_0,
            self.pairs@[k].token_1,
        ) && self.pairs@[j].pool_share_asset != self.pairs@[k].pool_share_asset by {
            if j != i && k != i {
                assert(self.pairs@[j] == prior.pairs@[j]);
                assert(self.pairs@[k] == prior.pairs@[k]);
            } else if j == i {
                assert(self.pairs@[k] == prior.pairs@[k]);
                if matches_tokens(prior.pairs@[k], p.token_0, p.token_1) {
                    if i < prior.pairs@.len() {
                        assert(matches_tokens(prior.pairs@[i], prior.pairs@[k].token_0,
                            prior.pairs@[k].token_1));
                    }
                    assert(false);
                }
            } else {
                assert(self.pairs@[j] == prior.pairs@[j]);
                if matches_tokens(prior.pairs@[j], p.token_0, p.token_1) {
                    if i < prior.pairs@.len() {
                        if j < i {
                            assert(!matches_tokens(prior.pairs@[j], prior.pairs@[i].token_0,
                                prior.pairs@[i].token_1));
                        } else {
                            assert(!matches_tokens(prior.pairs@[i], prior.pairs@[j].token_0,
                                prior.pairs@[j].token_1));
                        }
                    }
                    assert(false);
                }
            }
        }
        self.lemma_pair_at(p.token_0, p.token_1, i);
        self.lemma_pair_of_share(p.pool_share_asset, i);
        assert forall|a: u64, b: u64| !same_unordered(a, b, p.token_0, p.token_1) implies ((
        self.has_pair(a, b) <==> prior.has_pair(a, b)) && (prior.has_pair(a, b) ==> self.pair_at(
            a,
            b,
        ) == prior.pair_at(a, b))) by {
            if prior.has_pair(a, b) {
                let j = choose|j: int|
                    0 <= j < prior.pairs@.len() && matches_tokens(#[trigger] prior.pairs@[j], a, b);
                assert(j != i);
                assert(self.pairs@[j] == prior.pairs@[j]);
                self.lemma_pair_at(a, b, j);
                prior.lemma_pair_at(a, b, j);
            } else if self.has_pair(a, b) {
                let j = choose|j: int|
                    0 <= j < self.pairs@.len() && matches_tokens(#[trigger] self.pairs@[j], a, b);
                assert(j != i);
                assert(self.pairs@[j] == prior.pairs@[j]);
                assert(false);
            }
        }
        assert forall|s: u64| s != p.pool_share_asset implies ((self.has_share(s)
            <==> prior.has_share(s)) && (prior.has_share(s) ==> self.pair_of_share(s)
            == prior.pair_of_share(s))) by {
            if prior.has_share(s) {
                let j = choose|j: int|
                    0 <= j < prior.pairs@.len() && (#[trigger] prior.pairs@[j]).pool_share_asset
                        == s;
                assert(j != i);
                assert(self.pairs@[j] == prior.pairs@[j]);
                self.lemma_pair_of_share(s, j);
                prior.lemma_pair_of_share(s, j);
            } else if self.has_share(s) {
                let j = choose|j: int|
                    0 <= j < self.pairs@.len() && (#[trigger] self.pairs@[j]).pool_share_asset == s;
                assert(j != i);
                assert(self.pairs@[j] == prior.pairs@[j]);
                assert(false);
            }
        }
    }
}

} // verus!
