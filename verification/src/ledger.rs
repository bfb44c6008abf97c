//! The ledger that holds user and pool asset balances, consumed by the pair
//! engine behind an explicit capability interface: balance queries, checked
//! transfers, minting and burning of fungible assets, and allocation of
//! fresh asset identifiers.

use vstd::prelude::*;

use crate::kv::KvStore;
use crate::types::Error;

verus! {

/// One table key per `(asset, account)` pair, packed into 128 bits.
pub open spec fn pack_key(asset: u64, account: u64) -> u128 {
    (asset * 0x1_0000_0000_0000_0000 + account) as u128
}

proof fn lemma_pack_injective(a1: u64, c1: u64, a2: u64, c2: u64)
    by (nonlinear_arith)
    requires
        a1 * 0x1_0000_0000_0000_0000 + c1 == a2 * 0x1_0000_0000_0000_0000 + c2,
    ensures
        a1 == a2,
        c1 == c2,
{
}

proof fn lemma_pack_high(a: u64, c: u64)
    by (nonlinear_arith)
    ensures
        (a * 0x1_0000_0000_0000_0000 + c) / 0x1_0000_0000_0000_0000 == a,
        a * 0x1_0000_0000_0000_0000 + c <= u128::MAX,
{
}

fn pack(asset: u64, account: u64) -> (k: u128)
    ensures
        k == pack_key(asset, account),
{
    proof {
        lemma_pack_high(asset, account);
    }
    (asset as u128) * 0x1_0000_0000_0000_0000u128 + (account as u128)
}

/// Asset balances per account, total issuance per asset, and the next free
/// asset identifier.
pub struct Ledger {
    pub balances: KvStore,
    pub issuance: KvStore,
    pub next_asset_id: u64,
}

impl Ledger {
    /// The balance of `account` in `asset`; zero when never credited.
    pub open spec fn balance_spec(self, asset: u64, account: u64) -> u128 {
        self.balances.val(pack_key(asset, account))
    }

    /// The total amount of `asset` in existence.
    pub open spec fn issuance_spec(self, asset: u64) -> u128 {
        self.issuance.val(asset as u128)
    }

    pub open spec fn next_id(self) -> u64 {
        self.next_asset_id
    }

    /// Both tables have unique keys, and no table mentions an asset id that
    /// was never allocated.
    pub open spec fn wf(self) -> bool {
        &&& self.balances.wf()
        &&& self.issuance.wf()
        &&& forall|k: u128|
            self.balances.has_key(k) ==> k / 0x1_0000_0000_0000_0000 < self.next_asset_id
        &&& forall|k: u128| self.issuance.has_key(k) ==> k < self.next_asset_id as u128
    }

    /// An asset id at or past `next_asset_id` has no balances and no
    /// issuance.
    pub proof fn lemma_fresh_asset_clean(self, asset: u64, account: u64)
        requires
            self.wf(),
            asset >= self.next_asset_id,
        ensures
            self.balance_spec(asset, account) == 0,
            self.issuance_spec(asset) == 0,
    {
        lemma_pack_high(asset, account);
        if self.balances.has_key(pack_key(asset, account)) {
            assert(pack_key(asset, account) / 0x1_0000_0000_0000_0000 < self.next_asset_id);
        }
        if self.issuance.has_key(asset as u128) {
            assert((asset as u128) < self.next_asset_id as u128);
        }
    }

    /// A positive balance means the asset id was allocated.
    pub proof fn lemma_held_asset_allocated(self, asset: u64, account: u64)
        requires
            self.wf(),
            self.balance_spec(asset, account) > 0,
        ensures
            asset < self.next_asset_id,
    {
        if asset >= self.next_asset_id {
            self.lemma_fresh_asset_clean(asset, account);
        }
    }

    /// An empty ledger; no asset id has been allocated yet.
    pub fn new() -> (l: Ledger)
        ensures
            l.wf(),
            l.next_id() == 0,
            forall|a: u64, c: u64| l.balance_spec(a, c) == 0,
            forall|a: u64| l.issuance_spec(a) == 0,
    {
        Ledger { balances: KvStore::new(), issuance: KvStore::new(), next_asset_id: 0 }
    }

    /// Hand out a fresh asset identifier, for newly created pool-share
    /// assets. `None` only when the id space is exhausted.
    pub fn allocate_asset_id(&mut self) -> (r: Option<u64>)
        requires
            old(self).wf(),
        ensures
            final(self).wf(),
            old(self).next_id() < u64::MAX ==> r == Some(old(self).next_id()) && final(self).next_id() == old(self).next_id() + 1,
            old(self).next_id() == u64::MAX ==> r is None && final(self).next_id() == old(self).next_id(),
            forall|a: u64, c: u64| final(self).balance_spec(a, c) == old(self).balance_spec(a, c),
            forall|a: u64| final(self).issuance_spec(a) == old(self).issuance_spec(a),
    {
        if self.next_asset_id == u64::MAX {
            None
        } else {
            let id = self.next_asset_id;
            self.next_asset_id = self.next_asset_id + 1;
            Some(id)
        }
    }

    /// Read a balance.
    pub fn balance(&self, asset: u64, account: u64) -> (r: u128)
        requires
            self.wf(),
        ensures
            r == self.balance_spec(asset, account),
    {
        let k = pack(asset, account);
        self.balances.get(k)
    }

    /// Read the total issuance of an asset.
    pub fn total_issuance(&self, asset: u64) -> (r: u128)
        requires
            self.wf(),
        ensures
            r == self.issuance_spec(asset),
    {
        self.issuance.get(asset as u128)
    }

    /// Succeeds exactly when `account` holds at least `amount` of `asset`.
    pub fn ensure_can_withdraw(&self, asset: u64, account: u64, amount: u128) -> (r: Result<
        (),
        Error,
    >)
        requires
            self.wf(),
        ensures
            self.balance_spec(asset, account) >= amount ==> r == Ok::<(), Error>(()),
            self.balance_spec(asset, account) < amount ==> r == Err::<(), Error>(
                Error::InsufficientBalance,
            ),
    {
        if self.balance(asset, account) >= amount {
            Ok(())
        } else {
            Err(Error::InsufficientBalance)
        }
    }

    /// Write one balance cell, keeping the allocation invariant.
    fn set_balance(&mut self, asset: u64, account: u64, value: u128)
        requires
            old(self).wf(),
            asset < old(self).next_id(),
        ensures
            final(self).wf(),
            final(self).balance_spec(asset, account) == value,
            forall|a: u64, c: u64|
                !(a == asset && c == account) ==> final(self).balance_spec(a, c) == old(self).balance_spec(a, c),
            forall|a: u64| final(self).issuance_spec(a) == old(self).issuance_spec(a),
            final(self).next_id() == old(self).next_id(),
    {
        let k = pack(asset, account);
        self.balances.set(k, value);
        proof {
            lemma_pack_high(asset, account);
            assert forall|k2: u128| self.balances.has_key(k2) implies k2
                / 0x1_0000_0000_0000_0000 < self.next_asset_id by {
                if k2 != pack_key(asset, account) {
                    assert(old(self).balances.has_key(k2));
                }
            }
            assert forall|a: u64, c: u64| !(a == asset && c == account) implies self.balance_spec(
                a,
                c,
            ) == old(self).balance_spec(a, c) by {
                if pack_key(a, c) == pack_key(asset, account) {
                    lemma_pack_injective(a, c, asset, account);
                }
            }
        }
    }

    /// Write one issuance cell, keeping the allocation invariant.
    fn set_issuance(&mut self, asset: u64, value: u128)
        requires
            old(self).wf(),
            asset < old(self).next_id(),
        ensures
            final(self).wf(),
            final(self).issuance_spec(asset) == value,
            forall|a: u64| a != asset ==> final(self).issuance_spec(a) == old(self).issuance_spec(a),
            forall|a: u64, c: u64| final(self).balance_spec(a, c) == old(self).balance_spec(a, c),
            final(self).next_id() == old(self).next_id(),
    {
        self.issuance.set(asset as u128, value);
        proof {
            assert forall|k2: u128| self.issuance.has_key(k2) implies k2 < self.next_asset_id
                as u128 by {
                if k2 != asset as u128 {
                    assert(old(self).issuance.has_key(k2));
                }
            }
        }
    }

    /// Create `amount` of `asset` in `account`, growing the issuance by the
    /// same amount. Fails with `InvalidAsset` for an unallocated asset id
    /// and with `ArithmeticOverflow` when a cell would not fit; a failed
    /// call changes nothing.
    pub fn mint_asset(&mut self, asset: u64, account: u64, amount: u128) -> (r: Result<(), Error>)
        requires
            old(self).wf(),
        ensures
            final(self).wf(),
            final(self).next_id() == old(self).next_id(),
            asset >= old(self).next_id() ==> r == Err::<(), Error>(Error::InvalidAsset)
                && Ledger::same_state(*final(self), *old(self)),
            asset < old(self).next_id() && (old(self).balance_spec(asset, account) + amount
                > u128::MAX || old(self).issuance_spec(asset) + amount > u128::MAX) ==> r == Err::<
                (),
                Error,
            >(Error::ArithmeticOverflow) && Ledger::same_state(*final(self), *old(self)),
            asset < old(self).next_id() && old(self).balance_spec(asset, account) + amount
                <= u128::MAX && old(self).issuance_spec(asset) + amount <= u128::MAX ==> {
                &&& r == Ok::<(), Error>(())
                &&& final(self).balance_spec(asset, account) == old(self).balance_spec(
                    asset,
                    account,
                ) + amount
                &&& final(self).issuance_spec(asset) == old(self).issuance_spec(asset) + amount
                &&& forall|a: u64, c: u64|
                    !(a == asset && c == account) ==> final(self).balance_spec(a, c) == old(self).balance_spec(a, c)
                &&& forall|a: u64| a != asset ==> final(self).issuance_spec(a) == old(self).issuance_spec(a)
            },
    {
        if asset >= self.next_asset_id {
            return Err(Error::InvalidAsset);
        }
        let bal = self.balance(asset, account);
        if amount > u128::MAX - bal {
            return Err(Error::ArithmeticOverflow);
        }
        let iss = self.total_issuance(asset);
        if amount > u128::MAX - iss {
            return Err(Error::ArithmeticOverflow);
        }
        self.set_balance(asset, account, bal + amount);
        self.set_issuance(asset, iss + amount);
        Ok(())
    }

    /// Destroy `amount` of `asset` held by `account`, shrinking the
    /// issuance by the same amount. Fails with `InvalidAsset` for an
    /// unallocated asset id and with `InsufficientBalance` when the account
    /// or the issuance holds less; a failed call changes nothing.
    pub fn burn_asset(&mut self, asset: u64, account: u64, amount: u128) -> (r: Result<(), Error>)
        requires
            old(self).wf(),
        ensures
            final(self).wf(),
            final(self).next_id() == old(self).next_id(),
            asset >= old(self).next_id() ==> r == Err::<(), Error>(Error::InvalidAsset)
                && Ledger::same_state(*final(self), *old(self)),
            asset < old(self).next_id() && (old(self).balance_spec(asset, account) < amount || old(self).issuance_spec(asset) < amount) ==> r == Err::<(), Error>(Error::InsufficientBalance)
                && Ledger::same_state(*final(self), *old(self)),
            asset < old(self).next_id() && old(self).balance_spec(asset, account) >= amount && old(self).issuance_spec(asset) >= amount ==> {
                &&& r == Ok::<(), Error>(())
                &&& final(self).balance_spec(asset, account) == old(self).balance_spec(
                    asset,
                    account,
                ) - amount
                &&& final(self).issuance_spec(asset) == old(self).issuance_spec(asset) - amount
                &&& forall|a: u64, c: u64|
                    !(a == asset && c == account) ==> final(self).balance_spec(a, c) == old(self).balance_spec(a, c)
                &&& forall|a: u64| a != asset ==> final(self).issuance_spec(a) == old(self).issuance_spec(a)
            },
    {
        if asset >= self.next_asset_id {
            return Err(Error::InvalidAsset);
        }
        let bal = self.balance(asset, account);
        if bal < amount {
            return Err(Error::InsufficientBalance);
        }
        let iss = self.total_issuance(asset);
        if iss < amount {
            return Err(Error::InsufficientBalance);
        }
        self.set_balance(asset, account, bal - amount);
        self.set_issuance(asset, iss - amount);
        Ok(())
    }

    /// Move `amount` of `asset` from one account to another. Fails with
    /// `InvalidAsset` for an unallocated asset id, `InsufficientBalance`
    /// when the source holds less, and `ArithmeticOverflow` when the
    /// destination cell would not fit; a failed call changes nothing, and a
    /// transfer to the source itself is a no-op.
    pub fn transfer(&mut self, asset: u64, from: u64, to: u64, amount: u128) -> (r: Result<
        (),
        Error,
    >)
        requires
            old(self).wf(),
        ensures
            final(self).wf(),
            final(self).next_id() == old(self).next_id(),
            forall|a: u64| final(self).issuance_spec(a) == old(self).issuance_spec(a),
            asset >= old(self).next_id() ==> r == Err::<(), Error>(Error::InvalidAsset)
                && Ledger::same_state(*final(self), *old(self)),
            asset < old(self).next_id() && old(self).balance_spec(asset, from) < amount ==> r
                == Err::<(), Error>(Error::InsufficientBalance) && Ledger::same_state(
                *final(self),
                *old(self),
            ),
            asset < old(self).next_id() && old(self).balance_spec(asset, from) >= amount && from
                == to ==> r == Ok::<(), Error>(()) && Ledger::same_state(*final(self), *old(self)),
            asset < old(self).next_id() && old(self).balance_spec(asset, from) >= amount && from
                != to && old(self).balance_spec(asset, to) + amount > u128::MAX ==> r == Err::<
                (),
                Error,
            >(Error::ArithmeticOverflow) && Ledger::same_state(*final(self), *old(self)),
            asset < old(self).next_id() && old(self).balance_spec(asset, from) >= amount && from
                != to && old(self).balance_spec(asset, to) + amount <= u128::MAX ==> {
                &&& r == Ok::<(), Error>(())
                &&& final(self).balance_spec(asset, from) == old(self).balance_spec(asset, from)
                    - amount
                &&& final(self).balance_spec(asset, to) == old(self).balance_spec(asset, to)
                    + amount
                &&& forall|a: u64, c: u64|
                    !(a == asset && (c == from || c == to)) ==> final(self).balance_spec(a, c)
                        == old(self).balance_spec(a, c)
            },
    {
        if asset >= self.next_asset_id {
            return Err(Error::InvalidAsset);
        }
        let bal_from = self.balance(asset, from);
        if bal_from < amount {
            return Err(Error::InsufficientBalance);
        }
        if from == to {
            return Ok(());
        }
        let bal_to = self.balance(asset, to);
        if amount > u128::MAX - bal_to {
            return Err(Error::ArithmeticOverflow);
        }
        self.set_balance(asset, from, bal_from - amount);
        self.set_balance(asset, to, bal_to + amount);
        Ok(())
    }

    /// Two ledgers agree on every observation: balances, issuances, and the
    /// next free asset id.
    pub open spec fn same_state(l1: Ledger, l2: Ledger) -> bool {
        &&& forall|a: u64, c: u64| l1.balance_spec(a, c) == l2.balance_spec(a, c)
        &&& forall|a: u64| l1.issuance_spec(a) == l2.issuance_spec(a)
        &&& l1.next_id() == l2.next_id()
    }
}

} // verus!
