//! Interfaces the engine offers to a host system.

use vstd::prelude::*;

use crate::ledger::Ledger;
use crate::types::Error;

verus! {

/// Interface for hosts that allocate pool identifiers: create (or find) the
/// pool for an unordered asset pair and hand back its identifier.
pub trait PairFactory {
    fn create_pair(&mut self, token_a: u64, token_b: u64) -> u64;
}

/// The constant-product market maker as a host-facing interface. The
/// verified contract lives on the implementing type's own `create_pair`.
pub trait XykAmm {
    /// The implementor's records are well formed and agree with `ledger`.
    spec fn amm_inv(&self, ledger: &Ledger) -> bool;

    /// Create a new pool for two distinct assets, seed it with the two
    /// deposits, and return the shares minted to the caller.
    fn create_pair(
        &mut self,
        ledger: &mut Ledger,
        who: u64,
        token_0: u64,
        token_0_amount: u128,
        token_1: u64,
        token_1_amount: u128,
        now: u64,
    ) -> (r: Result<u128, Error>)
        requires
            old(self).amm_inv(old(ledger)),
            who != crate::pallet::VAULT_ACCOUNT,
        ensures
            final(self).amm_inv(final(ledger)),
    ;
}

} // verus!
