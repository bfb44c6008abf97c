//! The constant-product engine: create, mint, burn, swap, and the sync step
//! that refreshes reserves and cumulative prices. Every operation either
//! commits its whole effect or returns a typed error and changes nothing.

use vstd::prelude::*;

use crate::ledger::Ledger;
use crate::math::is_sqrt_floor;
use crate::math::mul_checked;
use crate::math::sqrt_floor;
use crate::registry::matches_tokens;
use crate::registry::same_unordered;
use crate::registry::PairRegistry;
use crate::types::Error;
use crate::types::Event;
use crate::types::Pair;

verus! {

/// Swap fee: of every input, `FEE_NUMERATOR / FEE_DENOMINATOR` takes part in
/// the exchange; the rest stays in the pool (a 0.3% fee).
pub const FEE_NUMERATOR: u128 = 997;

pub const FEE_DENOMINATOR: u128 = 1000;

/// The account that holds pool custody. It is internal: the dispatch layer
/// never authenticates it as a caller.
pub const VAULT_ACCOUNT: u64 = 0xFFFF_FFFF_FFFF_FFFF;

/// Shares minted for a deposit of `amt_0` and `amt_1` against reserves
/// `r_0` and `r_1` when `supply` shares are outstanding: the smaller of the
/// two proportional claims, rounded down, so a depositor never mints more
/// than the proportional share of the smaller side.
pub open spec fn mint_shares_spec(amt_0: int, amt_1: int, r_0: int, r_1: int, supply: int) -> int {
    let s_0 = amt_0 * supply / r_0;
    let s_1 = amt_1 * supply / r_1;
    if s_0 <= s_1 {
        s_0
    } else {
        s_1
    }
}

/// Payout of one reserve for burning `shares` of `supply` outstanding
/// shares, rounded down.
pub open spec fn burn_amount_spec(shares: int, reserve: int, supply: int) -> int {
    shares * reserve / supply
}

/// Constant-product output with the swap fee, rounded down.
pub open spec fn swap_out_spec(r_in: int, r_out: int, a_in: int) -> int {
    (r_out * a_in * FEE_NUMERATOR) / (r_in * FEE_DENOMINATOR + a_in * FEE_NUMERATOR)
}

/// The fee-bearing output is bounded: it never drains the output reserve,
/// and it claims at most the fee-free proportional value of the input.
pub proof fn lemma_swap_out_bounds(r_in: int, r_out: int, a_in: int)
    requires
        r_in > 0,
        r_out > 0,
        a_in > 0,
    ensures
        0 <= swap_out_spec(r_in, r_out, a_in) < r_out,
        swap_out_spec(r_in, r_out, a_in) * (r_in + a_in) <= r_out * a_in,
{
    let d = r_in * 1000 + a_in * 997;
    let n = r_out * a_in * 997;
    let q = n / d;
    assert(n >= 0 && q * d <= n && q >= 0 && n < (q + 1) * d) by (nonlinear_arith)
        requires
            r_in > 0,
            r_out > 0,
            a_in > 0,
            d == r_in * 1000 + a_in * 997,
            n == r_out * a_in * 997,
            q == n / d,
    ;
    assert(q * (r_in + a_in) <= r_out * a_in && q < r_out) by (nonlinear_arith)
        requires
            r_in > 0,
            r_out > 0,
            a_in > 0,
            d == r_in * 1000 + a_in * 997,
            n == r_out * a_in * 997,
            q >= 0,
            q * d <= n,
    ;
    assert(swap_out_spec(r_in, r_out, a_in) == q);
}

/// The constant-product law for one swap: with the fee taken, the product
/// of the reserves never decreases.
pub proof fn lemma_swap_preserves_product(r_in: int, r_out: int, a_in: int, out: int)
    by (nonlinear_arith)
    requires
        r_in > 0,
        r_out > 0,
        a_in > 0,
        0 <= out < r_out,
        out * (r_in + a_in) <= r_out * a_in,
    ensures
        (r_in + a_in) * (r_out - out) >= r_in * r_out,
{
}

/// Burning the shares just minted for a deposit pays back at most the
/// deposit: rounding always favours the pool.
pub proof fn lemma_mint_burn_le(amt: int, r: int, supply: int, shares: int)
    by (nonlinear_arith)
    requires
        r > 0,
        supply > 0,
        amt >= 0,
        0 <= shares,
        shares <= amt * supply / r,
    ensures
        shares * (r + amt) / (supply + shares) <= amt,
{
}

/// Burning every outstanding share pays out each reserve exactly.
pub proof fn lemma_burn_all(r: int, supply: int)
    by (nonlinear_arith)
    requires
        supply > 0,
        r >= 0,
    ensures
        supply * r / supply == r,
{
}

/// Burning only part of the supply leaves part of each reserve.
pub proof fn lemma_burn_partial(shares: int, r: int, supply: int)
    by (nonlinear_arith)
    requires
        supply > 0,
        r > 0,
        0 < shares < supply,
    ensures
        0 <= shares * r / supply < r,
{
}

/// Products grow with their factors.
pub proof fn lemma_mul_le_mono(a: int, b: int, c: int, d: int)
    by (nonlinear_arith)
    requires
        0 <= a <= c,
        0 <= b <= d,
    ensures
        a * b <= c * d,
{
}

/// The engine's state: the pair registry and the log of emitted events.
pub struct Pallet {
    pub registry: PairRegistry,
    pub events: Vec<Event>,
}

impl Pallet {
    pub open spec fn wf(self) -> bool {
        self.registry.wf()
    }

    /// The engine's records agree with the ledger: every asset a pair
    /// names was allocated there, and a pool's share supply is zero exactly
    /// when its reserves are.
    pub open spec fn coupled(self, ledger: Ledger) -> bool {
        forall|i: int|
            0 <= i < self.registry.pairs_seq().len() ==> ((
            #[trigger] self.registry.pairs_seq()[i]).pool_share_asset < ledger.next_id()
                && self.registry.pairs_seq()[i].token_0 < ledger.next_id()
                && self.registry.pairs_seq()[i].token_1 < ledger.next_id() && (
            ledger.issuance_spec(self.registry.pairs_seq()[i].pool_share_asset) == 0
                <==> self.registry.pairs_seq()[i].reserve_0 == 0))
    }

    /// An engine with no pairs and no events.
    pub fn new() -> (s: Pallet)
        ensures
            s.wf(),
            forall|a: u64, b: u64| !s.registry.has_pair(a, b),
            forall|share: u64| !s.registry.has_share(share),
            s.events@ == Seq::<Event>::empty(),
            forall|ledger: Ledger| s.coupled(ledger),
    {
        let s = Pallet { registry: PairRegistry::new(), events: Vec::new() };
        proof {
            assert(s.events@ =~= Seq::<Event>::empty());
        }
        s
    }

    /// The decision `create_pair` takes, in the order the checks run.
    pub open spec fn create_checks(
        self,
        ledger: Ledger,
        who: u64,
        token_0: u64,
        token_0_amount: u128,
        token_1: u64,
        token_1_amount: u128,
    ) -> Result<(), Error> {
        if token_0 == token_1 {
            Err(Error::InvalidAsset)
        } else if self.registry.has_pair(token_0, token_1) {
            Err(Error::PairAlreadyExists)
        } else if token_0_amount == 0 || token_1_amount == 0 {
            Err(Error::InvalidAmount)
        } else if ledger.balance_spec(token_0, who) < token_0_amount || ledger.balance_spec(
            token_1,
            who,
        ) < token_1_amount {
            Err(Error::InsufficientBalance)
        } else if token_0_amount * token_1_amount > u128::MAX {
            Err(Error::ArithmeticOverflow)
        } else if ledger.balance_spec(token_0, VAULT_ACCOUNT) + token_0_amount > u128::MAX
            || ledger.balance_spec(token_1, VAULT_ACCOUNT) + token_1_amount > u128::MAX {
            Err(Error::ArithmeticOverflow)
        } else if ledger.next_id() == u64::MAX {
            Err(Error::ArithmeticOverflow)
        } else {
            Ok(())
        }
    }

    /// The record a successful `create_pair` stores.
    pub open spec fn created_pair(
        ledger: Ledger,
        token_0: u64,
        token_0_amount: u128,
        token_1: u64,
        token_1_amount: u128,
        now: u64,
    ) -> Pair {
        Pair {
            token_0,
            reserve_0: token_0_amount,
            token_1,
            reserve_1: token_1_amount,
            k_last: (token_0_amount * token_1_amount) as u128,
            block_timestamp_last: now,
            price_0_cumulative_last: 0,
            price_1_cumulative_last: 0,
            pool_share_asset: ledger.next_id(),
        }
    }

    /// Nothing observable changed: registry records, events, and ledger.
    pub open spec fn unchanged(self, prior: Pallet, ledger: Ledger, prior_ledger: Ledger) -> bool {
        &&& self.registry.pairs_seq() == prior.registry.pairs_seq()
        &&& self.events@ == prior.events@
        &&& Ledger::same_state(ledger, prior_ledger)
    }

    /// Create a new pool for two distinct assets and seed it with the two
    /// deposits. The caller's deposits move into pool custody, the first
    /// `floor(sqrt(amount_0 * amount_1))` pool shares are minted to the
    /// caller from a freshly allocated share asset, and the record starts
    /// with `k_last` equal to the exact product of the deposits and both
    /// price accumulators at zero. A failed call changes nothing.
    pub fn create_pair(
        &mut self,
        ledger: &mut Ledger,
        who: u64,
        token_0: u64,
        token_0_amount: u128,
        token_1: u64,
        token_1_amount: u128,
        now: u64,
    ) -> (r: Result<u128, Error>)
        requires
            old(self).wf(),
            old(ledger).wf(),
            old(self).coupled(*old(ledger)),
            who != VAULT_ACCOUNT,
        ensures
            final(self).wf(),
            final(ledger).wf(),
            final(self).coupled(*final(ledger)),
            match old(self).create_checks(
                *old(ledger),
                who,
                token_0,
                token_0_amount,
                token_1,
                token_1_amount,
            ) {
                Err(e) => r == Err::<u128, Error>(e) && final(self).unchanged(
                    *old(self),
                    *final(ledger),
                    *old(ledger),
                ),
                Ok(()) => match r {
                    Ok(shares) => {
                        let share = old(ledger).next_id();
                        let p = Pallet::created_pair(
                            *old(ledger),
                            token_0,
                            token_0_amount,
                            token_1,
                            token_1_amount,
                            now,
                        );
                        &&& is_sqrt_floor(shares as int, token_0_amount * token_1_amount)
                        &&& shares >= 1
                        &&& final(self).registry.pairs_seq() == old(self).registry.pairs_seq().push(p)
                        &&& final(self).registry.has_pair(token_0, token_1)
                        &&& final(self).registry.pair_at(token_0, token_1) == p
                        &&& final(self).registry.has_share(share)
                        &&& final(self).registry.pair_of_share(share) == p
                        &&& final(ledger).next_id() == old(ledger).next_id() + 1
                        &&& final(ledger).balance_spec(token_0, who) == old(ledger).balance_spec(
                            token_0,
                            who,
                        ) - token_0_amount
                        &&& final(ledger).balance_spec(token_1, who) == old(ledger).balance_spec(
                            token_1,
                            who,
                        ) - token_1_amount
                        &&& final(ledger).balance_spec(token_0, VAULT_ACCOUNT) == old(ledger).balance_spec(token_0, VAULT_ACCOUNT) + token_0_amount
                        &&& final(ledger).balance_spec(token_1, VAULT_ACCOUNT) == old(ledger).balance_spec(token_1, VAULT_ACCOUNT) + token_1_amount
                        &&& final(ledger).balance_spec(share, who) == shares
                        &&& final(ledger).issuance_spec(share) == shares
                        &&& forall|a: u64, c: u64|
                            !((a == token_0 && (c == who || c == VAULT_ACCOUNT)) || (a == token_1
                                && (c == who || c == VAULT_ACCOUNT)) || (a == share && c == who))
                                ==> final(ledger).balance_spec(a, c) == old(ledger).balance_spec(
                                a,
                                c,
                            )
                        &&& forall|a: u64|
                            a != share ==> final(ledger).issuance_spec(a) == old(ledger).issuance_spec(a)
                        &&& final(self).events@ == old(self).events@.push(
                            Event::PairCreated(token_0, token_1, who),
                        ).push(Event::Sync(token_0, token_1, token_0_amount, token_1_amount))
                    },
                    Err(_) => false,
                },
            },
    {
        if token_0 == token_1 {
            return Err(Error::InvalidAsset);
        }
        if self.registry.contains_pair(token_0, token_1) {
            return Err(Error::PairAlreadyExists);
        }
        if token_0_amount == 0 || token_1_amount == 0 {
            return Err(Error::InvalidAmount);
        }
        if ledger.balance(token_0, who) < token_0_amount {
            return Err(Error::InsufficientBalance);
        }
        if ledger.balance(token_1, who) < token_1_amount {
            return Err(Error::InsufficientBalance);
        }
        let k = match mul_checked(token_0_amount, token_1_amount) {
            Some(v) => v,
            None => { return Err(Error::ArithmeticOverflow) },
        };
        let vault_0 = ledger.balance(token_0, VAULT_ACCOUNT);
        if token_0_amount > u128::MAX - vault_0 {
            return Err(Error::ArithmeticOverflow);
        }
        let vault_1 = ledger.balance(token_1, VAULT_ACCOUNT);
        if token_1_amount > u128::MAX - vault_1 {
            return Err(Error::ArithmeticOverflow);
        }
        proof {
            old(ledger).lemma_held_asset_allocated(token_0, who);
            old(ledger).lemma_held_asset_allocated(token_1, who);
            old(ledger).lemma_fresh_asset_clean(old(ledger).next_id(), who);
        }
        let share = match ledger.allocate_asset_id() {
            Some(id) => id,
            None => { return Err(Error::ArithmeticOverflow) },
        };
        proof {
            assert(token_0_amount * token_1_amount >= 1) by (nonlinear_arith)
                requires
                    token_0_amount >= 1,
                    token_1_amount >= 1,
            ;
        }
        let shares = sqrt_floor(k);
        let res_0 = ledger.transfer(token_0, who, VAULT_ACCOUNT, token_0_amount);
        if res_0.is_err() {
            return Err(Error::ArithmeticOverflow);
        }
        let res_1 = ledger.transfer(token_1, who, VAULT_ACCOUNT, token_1_amount);
        if res_1.is_err() {
            return Err(Error::ArithmeticOverflow);
        }
        let res_mint = ledger.mint_asset(share, who, shares);
        if res_mint.is_err() {
            return Err(Error::ArithmeticOverflow);
        }
        let pair = Pair::new(token_0, token_0_amount, token_1, token_1_amount, share, now);
        proof {
            assert forall|i: int|
                0 <= i < self.registry.pairs_seq().len() && !matches_tokens(
                    #[trigger] self.registry.pairs_seq()[i],
                    pair.token_0,
                    pair.token_1,
                ) implies self.registry.pairs_seq()[i].pool_share_asset != pair.pool_share_asset by {
                assert(self.registry.pairs_seq()[i].pool_share_asset < old(ledger).next_id());
            }
        }
        self.registry.put(pair);
        self.events.push(Event::PairCreated(token_0, token_1, who));
        self.events.push(Event::Sync(token_0, token_1, token_0_amount, token_1_amount));
        proof {
            assert forall|i: int| 0 <= i < self.registry.pairs_seq().len() implies ((
            #[trigger] self.registry.pairs_seq()[i]).pool_share_asset < ledger.next_id() && (
            ledger.issuance_spec(self.registry.pairs_seq()[i].pool_share_asset) == 0
                <==> self.registry.pairs_seq()[i].reserve_0 == 0)) by {
                if i < old(self).registry.pairs_seq().len() {
                    assert(self.registry.pairs_seq()[i] == old(self).registry.pairs_seq()[i]);
                    assert(old(self).registry.pairs_seq()[i].pool_share_asset < old(ledger).next_id());
                } else {
                    assert(self.registry.pairs_seq()[i] == pair);
                }
            }
        }
        Ok(shares)
    }

    /// The input-side reserve of `p` for a swap paying in `asset_in`.
    pub open spec fn swap_r_in(p: Pair, asset_in: u64) -> int {
        if p.token_0 == asset_in {
            p.reserve_0 as int
        } else {
            p.reserve_1 as int
        }
    }

    /// The output-side reserve of `p` for a swap paying in `asset_in`.
    pub open spec fn swap_r_out(p: Pair, asset_in: u64) -> int {
        if p.token_0 == asset_in {
            p.reserve_1 as int
        } else {
            p.reserve_0 as int
        }
    }

    /// The decision `swap` takes, in the order the checks run.
    pub open spec fn swap_checks(
        self,
        ledger: Ledger,
        who: u64,
        asset_in: u64,
        amount_in: u128,
        asset_out: u64,
        min_amount_out: u128,
        now: u64,
    ) -> Result<(), Error> {
        if amount_in == 0 {
            Err(Error::InvalidAmount)
        } else if asset_in == asset_out {
            Err(Error::InvalidAsset)
        } else if !self.registry.has_pair(asset_in, asset_out) {
            Err(Error::PairNotFound)
        } else {
            let p = self.registry.pair_at(asset_in, asset_out);
            if now < p.block_timestamp_last {
                Err(Error::ClockRegression)
            } else if p.sync_overflows(now) {
                Err(Error::ArithmeticOverflow)
            } else if p.reserve_0 == 0 {
                Err(Error::InsufficientBalance)
            } else if ledger.balance_spec(asset_in, who) < amount_in {
                Err(Error::InsufficientBalance)
            } else {
                let r_in = Pallet::swap_r_in(p, asset_in);
                let r_out = Pallet::swap_r_out(p, asset_in);
                if r_out * amount_in > u128::MAX || r_out * amount_in * FEE_NUMERATOR > u128::MAX
                    || r_in * FEE_DENOMINATOR + amount_in * FEE_NUMERATOR > u128::MAX {
                    Err(Error::ArithmeticOverflow)
                } else {
                    let out = swap_out_spec(r_in, r_out, amount_in as int);
                    if out < min_amount_out {
                        Err(Error::SlippageExceeded)
                    } else if r_in + amount_in > u128::MAX || (r_in + amount_in) * (r_out - out)
                        > u128::MAX {
                        Err(Error::ArithmeticOverflow)
                    } else if ledger.balance_spec(asset_out, VAULT_ACCOUNT) < out {
                        Err(Error::InsufficientBalance)
                    } else if ledger.balance_spec(asset_in, VAULT_ACCOUNT) + amount_in > u128::MAX
                        || ledger.balance_spec(asset_out, who) + out > u128::MAX {
                        Err(Error::ArithmeticOverflow)
                    } else {
                        Ok(())
                    }
                }
            }
        }
    }

    /// The record a successful swap stores: reserves shifted by the input
    /// and the output, accumulators refreshed at the pre-trade reserves,
    /// `k_last` recomputed from the new reserves.
    pub open spec fn swapped_pair(p: Pair, asset_in: u64, amount_in: u128, now: u64) -> Pair {
        let ps = p.synced(now);
        let r_in = Pallet::swap_r_in(p, asset_in);
        let r_out = Pallet::swap_r_out(p, asset_in);
        let out = swap_out_spec(r_in, r_out, amount_in as int);
        if p.token_0 == asset_in {
            Pair {
                reserve_0: (r_in + amount_in) as u128,
                reserve_1: (r_out - out) as u128,
                k_last: ((r_in + amount_in) * (r_out - out)) as u128,
                ..ps
            }
        } else {
            Pair {
                reserve_0: (r_out - out) as u128,
                reserve_1: (r_in + amount_in) as u128,
                k_last: ((r_in + amount_in) * (r_out - out)) as u128,
                ..ps
            }
        }
    }

    /// Exchange `amount_in` of `asset_in` for the other asset of the pair.
    /// The output follows the fee-bearing constant-product formula, rounded
    /// down, and the product of the reserves never decreases across the
    /// trade. Fails with `SlippageExceeded` when the output is below
    /// `min_amount_out`; a failed call changes nothing.
    #[verifier::rlimit(50)]
    pub fn swap(
        &mut self,
        ledger: &mut Ledger,
        who: u64,
        asset_in: u64,
        amount_in: u128,
        asset_out: u64,
        min_amount_out: u128,
        now: u64,
    ) -> (r: Result<u128, Error>)
        requires
            old(self).wf(),
            old(ledger).wf(),
            old(self).coupled(*old(ledger)),
            who != VAULT_ACCOUNT,
        ensures
            final(self).wf(),
            final(ledger).wf(),
            final(self).coupled(*final(ledger)),
            match old(self).swap_checks(
                *old(ledger),
                who,
                asset_in,
                amount_in,
                asset_out,
                min_amount_out,
                now,
            ) {
                Err(e) => r == Err::<u128, Error>(e) && final(self).unchanged(
                    *old(self),
                    *final(ledger),
                    *old(ledger),
                ),
                Ok(()) => match r {
                    Ok(got) => {
                        let p = old(self).registry.pair_at(asset_in, asset_out);
                        let np = Pallet::swapped_pair(p, asset_in, amount_in, now);
                        let out = swap_out_spec(
                            Pallet::swap_r_in(p, asset_in),
                            Pallet::swap_r_out(p, asset_in),
                            amount_in as int,
                        );
                        &&& got == out
                        &&& got >= min_amount_out
                        &&& np.reserve_0 * np.reserve_1 >= p.reserve_0 * p.reserve_1
                        &&& final(self).registry.pairs_seq() == old(self).registry.pairs_seq().update(
                            old(self).registry.index_of_pair(asset_in, asset_out),
                            np,
                        )
                        &&& final(self).registry.has_pair(asset_in, asset_out)
                        &&& final(self).registry.pair_at(asset_in, asset_out) == np
                        &&& final(self).registry.pair_of_share(np.pool_share_asset) == np
                        &&& forall|a: u64, b: u64|
                            !same_unordered(a, b, asset_in, asset_out) ==> ((final(self).registry.has_pair(a, b) <==> old(self).registry.has_pair(a, b)) && (
                            old(self).registry.has_pair(a, b) ==> final(self).registry.pair_at(
                                a,
                                b,
                            ) == old(self).registry.pair_at(a, b)))
                        &&& final(ledger).balance_spec(asset_in, who) == old(ledger).balance_spec(
                            asset_in,
                            who,
                        ) - amount_in
                        &&& final(ledger).balance_spec(asset_out, who) == old(ledger).balance_spec(
                            asset_out,
                            who,
                        ) + out
                        &&& final(ledger).balance_spec(asset_in, VAULT_ACCOUNT) == old(ledger).balance_spec(asset_in, VAULT_ACCOUNT) + amount_in
                        &&& final(ledger).balance_spec(asset_out, VAULT_ACCOUNT) == old(ledger).balance_spec(asset_out, VAULT_ACCOUNT) - out
                        &&& forall|a: u64, c: u64|
                            !((a == asset_in && (c == who || c == VAULT_ACCOUNT)) || (a == asset_out
                                && (c == who || c == VAULT_ACCOUNT))) ==> final(ledger).balance_spec(a, c) == old(ledger).balance_spec(a, c)
                        &&& forall|a: u64|
                            final(ledger).issuance_spec(a) == old(ledger).issuance_spec(a)
                        &&& final(ledger).next_id() == old(ledger).next_id()
                        &&& final(self).events@ == old(self).events@.push(
                            Event::Swapped(who, asset_in, amount_in, asset_out, out as u128),
                        ).push(Event::Sync(np.token_0, np.token_1, np.reserve_0, np.reserve_1))
                    },
                    Err(_) => false,
                },
            },
    {
        if amount_in == 0 {
            return Err(Error::InvalidAmount);
        }
        if asset_in == asset_out {
            return Err(Error::InvalidAsset);
        }
        let mut p = match self.registry.get(asset_in, asset_out) {
            Some(p) => p,
            None => { return Err(Error::PairNotFound) },
        };
        let ghost p0 = p;
        let ghost idx0 = old(self).registry.index_of_pair(asset_in, asset_out);
        proof {
            assert(old(self).registry.has_pair(asset_in, asset_out));
            assert(0 <= idx0 < old(self).registry.pairs_seq().len() && matches_tokens(
                old(self).registry.pairs_seq()[idx0],
                asset_in,
                asset_out,
            ));
            assert(old(self).registry.pairs_seq()[idx0] == p0);
            assert(asset_in < old(ledger).next_id() && asset_out < old(ledger).next_id());
        }
        match p.sync(now) {
            Ok(()) => {},
            Err(e) => { return Err(e) },
        }
        if p.reserve_0 == 0 {
            return Err(Error::InsufficientBalance);
        }
        if ledger.balance(asset_in, who) < amount_in {
            return Err(Error::InsufficientBalance);
        }
        let (r_in, r_out) = if p.token_0 == asset_in {
            (p.reserve_0, p.reserve_1)
        } else {
            (p.reserve_1, p.reserve_0)
        };
        let num_a = match mul_checked(r_out, amount_in) {
            Some(v) => v,
            None => { return Err(Error::ArithmeticOverflow) },
        };
        let num = match mul_checked(num_a, FEE_NUMERATOR) {
            Some(v) => v,
            None => { return Err(Error::ArithmeticOverflow) },
        };
        let den_a = match mul_checked(r_in, FEE_DENOMINATOR) {
            Some(v) => v,
            None => { return Err(Error::ArithmeticOverflow) },
        };
        let den_b = match mul_checked(amount_in, FEE_NUMERATOR) {
            Some(v) => v,
            None => { return Err(Error::ArithmeticOverflow) },
        };
        let den = match crate::math::add_checked(den_a, den_b) {
            Some(v) => v,
            None => { return Err(Error::ArithmeticOverflow) },
        };
        let out = num / den;
        proof {
            lemma_swap_out_bounds(r_in as int, r_out as int, amount_in as int);
            assert(out == swap_out_spec(r_in as int, r_out as int, amount_in as int));
        }
        if out < min_amount_out {
            return Err(Error::SlippageExceeded);
        }
        let new_r_in = match crate::math::add_checked(r_in, amount_in) {
            Some(v) => v,
            None => { return Err(Error::ArithmeticOverflow) },
        };
        let new_r_out = r_out - out;
        let new_k = match mul_checked(new_r_in, new_r_out) {
            Some(v) => v,
            None => { return Err(Error::ArithmeticOverflow) },
        };
        let vault_out = ledger.balance(asset_out, VAULT_ACCOUNT);
        if vault_out < out {
            return Err(Error::InsufficientBalance);
        }
        let vault_in = ledger.balance(asset_in, VAULT_ACCOUNT);
        if amount_in > u128::MAX - vault_in {
            return Err(Error::ArithmeticOverflow);
        }
        let who_out = ledger.balance(asset_out, who);
        if out > u128::MAX - who_out {
            return Err(Error::ArithmeticOverflow);
        }
        if p.token_0 == asset_in {
            p.reserve_0 = new_r_in;
            p.reserve_1 = new_r_out;
        } else {
            p.reserve_0 = new_r_out;
            p.reserve_1 = new_r_in;
        }
        p.k_last = new_k;
        proof {
            assert(p == Pallet::swapped_pair(p0, asset_in, amount_in, now));
            lemma_swap_preserves_product(
                r_in as int,
                r_out as int,
                amount_in as int,
                out as int,
            );
            assert((r_out - out) * (r_in + amount_in) == (r_in + amount_in) * (r_out - out))
                by (nonlinear_arith);
            assert(p0.reserve_1 * p0.reserve_0 == p0.reserve_0 * p0.reserve_1)
                by (nonlinear_arith);
            assert(p.reserve_0 * p.reserve_1 >= p0.reserve_0 * p0.reserve_1);
        }
        let res_in = ledger.transfer(asset_in, who, VAULT_ACCOUNT, amount_in);
        if res_in.is_err() {
            return Err(Error::ArithmeticOverflow);
        }
        let res_out = ledger.transfer(asset_out, VAULT_ACCOUNT, who, out);
        if res_out.is_err() {
            return Err(Error::ArithmeticOverflow);
        }
        let ghost idx = idx0;
        proof {
            assert(matches_tokens(p0, p.token_0, p.token_1));
            old(self).registry.lemma_pair_at(p.token_0, p.token_1, idx);
            assert forall|i: int|
                0 <= i < self.registry.pairs_seq().len() && !matches_tokens(
                    #[trigger] self.registry.pairs_seq()[i],
                    p.token_0,
                    p.token_1,
                ) implies self.registry.pairs_seq()[i].pool_share_asset != p.pool_share_asset by {
                if i < idx {
                    assert(self.registry.pairs_seq()[i].pool_share_asset
                        != self.registry.pairs_seq()[idx].pool_share_asset);
                } else if idx < i {
                    assert(self.registry.pairs_seq()[idx].pool_share_asset
                        != self.registry.pairs_seq()[i].pool_share_asset);
                }
            }
        }
        self.registry.put(p);
        self.events.push(Event::Swapped(who, asset_in, amount_in, asset_out, out));
        self.events.push(Event::Sync(p.token_0, p.token_1, p.reserve_0, p.reserve_1));
        proof {
            self.registry.lemma_pair_at(asset_in, asset_out, idx);
            self.registry.lemma_pair_of_share(p.pool_share_asset, idx);
            assert forall|i: int| 0 <= i < self.registry.pairs_seq().len() implies ((
            #[trigger] self.registry.pairs_seq()[i]).pool_share_asset < ledger.next_id()
                && self.registry.pairs_seq()[i].token_0 < ledger.next_id()
                && self.registry.pairs_seq()[i].token_1 < ledger.next_id() && (
            ledger.issuance_spec(self.registry.pairs_seq()[i].pool_share_asset) == 0
                <==> self.registry.pairs_seq()[i].reserve_0 == 0)) by {
                if i != idx {
                    assert(self.registry.pairs_seq()[i] == old(self).registry.pairs_seq()[i]);
                } else {
                    assert(self.registry.pairs_seq()[i] == p);
                    assert(old(self).registry.pairs_seq()[idx] == p0);
                }
            }
        }
        Ok(out)
    }

    /// The amount deposited on the `token_0` side of `p`.
    pub open spec fn amt_side_0(p: Pair, asset_0: u64, amount_0: u128, amount_1: u128) -> u128 {
        if p.token_0 == asset_0 {
            amount_0
        } else {
            amount_1
        }
    }

    /// The amount deposited on the `token_1` side of `p`.
    pub open spec fn amt_side_1(p: Pair, asset_0: u64, amount_0: u128, amount_1: u128) -> u128 {
        if p.token_0 == asset_0 {
            amount_1
        } else {
            amount_0
        }
    }

    /// The decision `mint` takes, in the order the checks run. For a pool
    /// whose share supply is zero the check on the caller's resulting share
    /// balance is stated with the minted amount in the `ensures` of `mint`.
    pub open spec fn mint_checks(
        self,
        ledger: Ledger,
        who: u64,
        asset_0: u64,
        amount_0: u128,
        asset_1: u64,
        amount_1: u128,
        now: u64,
    ) -> Result<(), Error> {
        if asset_0 == asset_1 {
            Err(Error::InvalidAsset)
        } else if !self.registry.has_pair(asset_0, asset_1) {
            Err(Error::PairNotFound)
        } else {
            let p = self.registry.pair_at(asset_0, asset_1);
            if now < p.block_timestamp_last {
                Err(Error::ClockRegression)
            } else if p.sync_overflows(now) {
                Err(Error::ArithmeticOverflow)
            } else if amount_0 == 0 || amount_1 == 0 {
                Err(Error::InvalidAmount)
            } else if ledger.balance_spec(asset_0, who) < amount_0 || ledger.balance_spec(
                asset_1,
                who,
            ) < amount_1 {
                Err(Error::InsufficientBalance)
            } else {
                let amt_0 = Pallet::amt_side_0(p, asset_0, amount_0, amount_1);
                let amt_1 = Pallet::amt_side_1(p, asset_0, amount_0, amount_1);
                let supply = ledger.issuance_spec(p.pool_share_asset);
                if supply == 0 {
                    if amt_0 * amt_1 > u128::MAX {
                        Err(Error::ArithmeticOverflow)
                    } else if ledger.balance_spec(asset_0, VAULT_ACCOUNT) + amount_0 > u128::MAX
                        || ledger.balance_spec(asset_1, VAULT_ACCOUNT) + amount_1 > u128::MAX {
                        Err(Error::ArithmeticOverflow)
                    } else {
                        Ok(())
                    }
                } else {
                    if amt_0 * supply > u128::MAX || amt_1 * supply > u128::MAX {
                        Err(Error::ArithmeticOverflow)
                    } else {
                        let shares = mint_shares_spec(
                            amt_0 as int,
                            amt_1 as int,
                            p.reserve_0 as int,
                            p.reserve_1 as int,
                            supply as int,
                        );
                        if shares == 0 {
                            Err(Error::InvalidAmount)
                        } else if p.reserve_0 + amt_0 > u128::MAX || p.reserve_1 + amt_1
                            > u128::MAX || (p.reserve_0 + amt_0) * (p.reserve_1 + amt_1)
                            > u128::MAX {
                            Err(Error::ArithmeticOverflow)
                        } else if supply + shares > u128::MAX {
                            Err(Error::ArithmeticOverflow)
                        } else if ledger.balance_spec(asset_0, VAULT_ACCOUNT) + amount_0
                            > u128::MAX || ledger.balance_spec(asset_1, VAULT_ACCOUNT) + amount_1
                            > u128::MAX {
                            Err(Error::ArithmeticOverflow)
                        } else if ledger.balance_spec(p.pool_share_asset, who) + shares
                            > u128::MAX {
                            Err(Error::ArithmeticOverflow)
                        } else {
                            Ok(())
                        }
                    }
                }
            }
        }
    }

    /// The record a successful `mint` stores: both deposits added to the
    /// reserves, accumulators refreshed at the pre-deposit reserves,
    /// `k_last` recomputed.
    pub open spec fn minted_pair(p: Pair, amt_0: u128, amt_1: u128, now: u64) -> Pair {
        let ps = p.synced(now);
        Pair {
            reserve_0: (p.reserve_0 + amt_0) as u128,
            reserve_1: (p.reserve_1 + amt_1) as u128,
            k_last: ((p.reserve_0 + amt_0) * (p.reserve_1 + amt_1)) as u128,
            ..ps
        }
    }

    /// Everything a successful `mint` of `shares` changes, stated over the
    /// prior state.
    pub open spec fn mint_post(
        post: Pallet,
        prior: Pallet,
        ledger_post: Ledger,
        ledger_prior: Ledger,
        who: u64,
        asset_0: u64,
        amount_0: u128,
        asset_1: u64,
        amount_1: u128,
        now: u64,
        shares: u128,
    ) -> bool {
        let p = prior.registry.pair_at(asset_0, asset_1);
        let amt_0 = Pallet::amt_side_0(p, asset_0, amount_0, amount_1);
        let amt_1 = Pallet::amt_side_1(p, asset_0, amount_0, amount_1);
        let share = p.pool_share_asset;
        let np = Pallet::minted_pair(p, amt_0, amt_1, now);
        &&& post.registry.pairs_seq() == prior.registry.pairs_seq().update(
            prior.registry.index_of_pair(asset_0, asset_1),
            np,
        )
        &&& post.registry.has_pair(asset_0, asset_1)
        &&& post.registry.pair_at(asset_0, asset_1) == np
        &&& post.registry.pair_of_share(share) == np
        &&& forall|a: u64, b: u64|
            !same_unordered(a, b, asset_0, asset_1) ==> ((post.registry.has_pair(a, b)
                <==> prior.registry.has_pair(a, b)) && (prior.registry.has_pair(a, b)
                ==> post.registry.pair_at(a, b) == prior.registry.pair_at(a, b)))
        &&& ledger_post.balance_spec(asset_0, who) == ledger_prior.balance_spec(asset_0, who)
            - amount_0
        &&& ledger_post.balance_spec(asset_1, who) == ledger_prior.balance_spec(asset_1, who)
            - amount_1
        &&& ledger_post.balance_spec(asset_0, VAULT_ACCOUNT) == ledger_prior.balance_spec(
            asset_0,
            VAULT_ACCOUNT,
        ) + amount_0
        &&& ledger_post.balance_spec(asset_1, VAULT_ACCOUNT) == ledger_prior.balance_spec(
            asset_1,
            VAULT_ACCOUNT,
        ) + amount_1
        &&& ledger_post.balance_spec(share, who) == ledger_prior.balance_spec(share, who) + shares
        &&& ledger_post.issuance_spec(share) == ledger_prior.issuance_spec(share) + shares
        &&& forall|a: u64, c: u64|
            !((a == asset_0 && (c == who || c == VAULT_ACCOUNT)) || (a == asset_1 && (c == who || c
                == VAULT_ACCOUNT)) || (a == share && c == who)) ==> ledger_post.balance_spec(a, c)
                == ledger_prior.balance_spec(a, c)
        &&& forall|a: u64|
            a != share ==> ledger_post.issuance_spec(a) == ledger_prior.issuance_spec(a)
        &&& ledger_post.next_id() == ledger_prior.next_id()
        &&& post.events@ == prior.events@.push(
            Event::LiquidityMinted(who, asset_0, amount_0, asset_1, amount_1, shares),
        ).push(Event::Sync(np.token_0, np.token_1, np.reserve_0, np.reserve_1))
    }

    /// Add liquidity to an existing pair. Both deposits are taken in full
    /// and added to the reserves; the shares minted are the smaller of the
    /// two proportional claims, rounded down (any excess of the larger side
    /// is left to the pool). A pool whose share supply is zero is re-seeded
    /// with the square-root formula. A failed call changes nothing.
    #[verifier::rlimit(50)]
    pub fn mint(
        &mut self,
        ledger: &mut Ledger,
        who: u64,
        asset_0: u64,
        amount_0: u128,
        asset_1: u64,
        amount_1: u128,
        now: u64,
    ) -> (r: Result<u128, Error>)
        requires
            old(self).wf(),
            old(ledger).wf(),
            old(self).coupled(*old(ledger)),
            who != VAULT_ACCOUNT,
        ensures
            final(self).wf(),
            final(ledger).wf(),
            final(self).coupled(*final(ledger)),
            match old(self).mint_checks(
                *old(ledger),
                who,
                asset_0,
                amount_0,
                asset_1,
                amount_1,
                now,
            ) {
                Err(e) => r == Err::<u128, Error>(e) && final(self).unchanged(
                    *old(self),
                    *final(ledger),
                    *old(ledger),
                ),
                Ok(()) => {
                    let p = old(self).registry.pair_at(asset_0, asset_1);
                    let amt_0 = Pallet::amt_side_0(p, asset_0, amount_0, amount_1);
                    let amt_1 = Pallet::amt_side_1(p, asset_0, amount_0, amount_1);
                    let supply = old(ledger).issuance_spec(p.pool_share_asset);
                    if supply > 0 {
                        let shares = mint_shares_spec(
                            amt_0 as int,
                            amt_1 as int,
                            p.reserve_0 as int,
                            p.reserve_1 as int,
                            supply as int,
                        );
                        &&& r == Ok::<u128, Error>(shares as u128)
                        &&& Pallet::mint_post(
                            *final(self),
                            *old(self),
                            *final(ledger),
                            *old(ledger),
                            who,
                            asset_0,
                            amount_0,
                            asset_1,
                            amount_1,
                            now,
                            shares as u128,
                        )
                    } else {
                        forall|s: u128|
                            #[trigger] is_sqrt_floor(s as int, amt_0 * amt_1) ==> if old(ledger).balance_spec(p.pool_share_asset, who) + s > u128::MAX {
                                r == Err::<u128, Error>(Error::ArithmeticOverflow) && final(self).unchanged(*old(self), *final(ledger), *old(ledger))
                            } else {
                                r == Ok::<u128, Error>(s) && Pallet::mint_post(
                                    *final(self),
                                    *old(self),
                                    *final(ledger),
                                    *old(ledger),
                                    who,
                                    asset_0,
                                    amount_0,
                                    asset_1,
                                    amount_1,
                                    now,
                                    s,
                                )
                            }
                    }
                },
            },
    {
        if asset_0 == asset_1 {
            return Err(Error::InvalidAsset);
        }
        let mut p = match self.registry.get(asset_0, asset_1) {
            Some(p) => p,
            None => { return Err(Error::PairNotFound) },
        };
        let ghost p0 = p;
        let ghost idx0 = old(self).registry.index_of_pair(asset_0, asset_1);
        proof {
            assert(old(self).registry.has_pair(asset_0, asset_1));
            assert(0 <= idx0 < old(self).registry.pairs_seq().len() && matches_tokens(
                old(self).registry.pairs_seq()[idx0],
                asset_0,
                asset_1,
            ));
            assert(old(self).registry.pairs_seq()[idx0] == p0);
            assert(asset_0 < old(ledger).next_id() && asset_1 < old(ledger).next_id());
            assert(p0.pool_share_asset < old(ledger).next_id());
        }
        match p.sync(now) {
            Ok(()) => {},
            Err(e) => { return Err(e) },
        }
        if amount_0 == 0 || amount_1 == 0 {
            return Err(Error::InvalidAmount);
        }
        if ledger.balance(asset_0, who) < amount_0 {
            return Err(Error::InsufficientBalance);
        }
        if ledger.balance(asset_1, who) < amount_1 {
            return Err(Error::InsufficientBalance);
        }
        let (amt_0, amt_1) = if p.token_0 == asset_0 {
            (amount_0, amount_1)
        } else {
            (amount_1, amount_0)
        };
        let supply = ledger.total_issuance(p.pool_share_asset);
        let shares: u128;
        let new_r_0: u128;
        let new_r_1: u128;
        let new_k: u128;
        if supply == 0 {
            let k = match mul_checked(amt_0, amt_1) {
                Some(v) => v,
                None => { return Err(Error::ArithmeticOverflow) },
            };
            let vault_0 = ledger.balance(asset_0, VAULT_ACCOUNT);
            if amount_0 > u128::MAX - vault_0 {
                return Err(Error::ArithmeticOverflow);
            }
            let vault_1 = ledger.balance(asset_1, VAULT_ACCOUNT);
            if amount_1 > u128::MAX - vault_1 {
                return Err(Error::ArithmeticOverflow);
            }
            proof {
                assert(amt_0 * amt_1 >= 1) by (nonlinear_arith)
                    requires
                        amt_0 >= 1,
                        amt_1 >= 1,
                ;
            }
            shares = sqrt_floor(k);
            proof {
                assert forall|s: u128| #[trigger] is_sqrt_floor(s as int, amt_0 * amt_1) implies s
                    == shares by {
                    crate::math::lemma_sqrt_floor_unique(s as int, shares as int, amt_0 * amt_1);
                }
            }
            let who_share = ledger.balance(p.pool_share_asset, who);
            if shares > u128::MAX - who_share {
                return Err(Error::ArithmeticOverflow);
            }
            new_r_0 = amt_0;
            new_r_1 = amt_1;
            new_k = k;
            proof {
                assert(p.reserve_0 == 0 && p.reserve_1 == 0);
            }
        } else {
            proof {
                assert(p.reserve_0 > 0 && p.reserve_1 > 0);
            }
            let n_0 = match mul_checked(amt_0, supply) {
                Some(v) => v,
                None => { return Err(Error::ArithmeticOverflow) },
            };
            let n_1 = match mul_checked(amt_1, supply) {
                Some(v) => v,
                None => { return Err(Error::ArithmeticOverflow) },
            };
            let s_0 = n_0 / p.reserve_0;
            let s_1 = n_1 / p.reserve_1;
            shares = if s_0 <= s_1 {
                s_0
            } else {
                s_1
            };
            if shares == 0 {
                return Err(Error::InvalidAmount);
            }
            new_r_0 = match crate::math::add_checked(p.reserve_0, amt_0) {
                Some(v) => v,
                None => { return Err(Error::ArithmeticOverflow) },
            };
            new_r_1 = match crate::math::add_checked(p.reserve_1, amt_1) {
                Some(v) => v,
                None => { return Err(Error::ArithmeticOverflow) },
            };
            new_k = match mul_checked(new_r_0, new_r_1) {
                Some(v) => v,
                None => { return Err(Error::ArithmeticOverflow) },
            };
            if shares > u128::MAX - supply {
                return Err(Error::ArithmeticOverflow);
            }
            let vault_0 = ledger.balance(asset_0, VAULT_ACCOUNT);
            if amount_0 > u128::MAX - vault_0 {
                return Err(Error::ArithmeticOverflow);
            }
            let vault_1 = ledger.balance(asset_1, VAULT_ACCOUNT);
            if amount_1 > u128::MAX - vault_1 {
                return Err(Error::ArithmeticOverflow);
            }
            let who_share = ledger.balance(p.pool_share_asset, who);
            if shares > u128::MAX - who_share {
                return Err(Error::ArithmeticOverflow);
            }
        }
        p.reserve_0 = new_r_0;
        p.reserve_1 = new_r_1;
        p.k_last = new_k;
        proof {
            assert(p == Pallet::minted_pair(
                p0,
                Pallet::amt_side_0(p0, asset_0, amount_0, amount_1),
                Pallet::amt_side_1(p0, asset_0, amount_0, amount_1),
                now,
            ));
        }
        let res_0 = ledger.transfer(asset_0, who, VAULT_ACCOUNT, amount_0);
        if res_0.is_err() {
            return Err(Error::ArithmeticOverflow);
        }
        let res_1 = ledger.transfer(asset_1, who, VAULT_ACCOUNT, amount_1);
        if res_1.is_err() {
            return Err(Error::ArithmeticOverflow);
        }
        let res_mint = ledger.mint_asset(p.pool_share_asset, who, shares);
        if res_mint.is_err() {
            return Err(Error::ArithmeticOverflow);
        }
        let ghost idx = idx0;
        proof {
            assert(matches_tokens(p0, p.token_0, p.token_1));
            old(self).registry.lemma_pair_at(p.token_0, p.token_1, idx);
            assert forall|i: int|
                0 <= i < self.registry.pairs_seq().len() && !matches_tokens(
                    #[trigger] self.registry.pairs_seq()[i],
                    p.token_0,
                    p.token_1,
                ) implies self.registry.pairs_seq()[i].pool_share_asset != p.pool_share_asset by {
                if i < idx {
                    assert(self.registry.pairs_seq()[i].pool_share_asset
                        != self.registry.pairs_seq()[idx].pool_share_asset);
                } else if idx < i {
                    assert(self.registry.pairs_seq()[idx].pool_share_asset
                        != self.registry.pairs_seq()[i].pool_share_asset);
                }
            }
        }
        self.registry.put(p);
        self.events.push(Event::LiquidityMinted(who, asset_0, amount_0, asset_1, amount_1, shares));
        self.events.push(Event::Sync(p.token_0, p.token_1, p.reserve_0, p.reserve_1));
        proof {
            self.registry.lemma_pair_at(asset_0, asset_1, idx);
            self.registry.lemma_pair_of_share(p.pool_share_asset, idx);
            assert forall|i: int| 0 <= i < self.registry.pairs_seq().len() implies ((
            #[trigger] self.registry.pairs_seq()[i]).pool_share_asset < ledger.next_id()
                && self.registry.pairs_seq()[i].token_0 < ledger.next_id()
                && self.registry.pairs_seq()[i].token_1 < ledger.next_id() && (
            ledger.issuance_spec(self.registry.pairs_seq()[i].pool_share_asset) == 0
                <==> self.registry.pairs_seq()[i].reserve_0 == 0)) by {
                if i != idx {
                    assert(self.registry.pairs_seq()[i] == old(self).registry.pairs_seq()[i]);
                } else {
                    assert(self.registry.pairs_seq()[i] == p);
                    assert(old(self).registry.pairs_seq()[idx] == p0);
                }
            }
        }
        Ok(shares)
    }

    /// The decision `burn` takes, in the order the checks run.
    pub open spec fn burn_checks(
        self,
        ledger: Ledger,
        who: u64,
        pool_share_asset: u64,
        amount: u128,
        now: u64,
    ) -> Result<(), Error> {
        if amount == 0 {
            Err(Error::InvalidAmount)
        } else if !self.registry.has_share(pool_share_asset) {
            Err(Error::PairNotFound)
        } else {
            let p = self.registry.pair_of_share(pool_share_asset);
            if now < p.block_timestamp_last {
                Err(Error::ClockRegression)
            } else if p.sync_overflows(now) {
                Err(Error::ArithmeticOverflow)
            } else if ledger.balance_spec(pool_share_asset, who) < amount {
                Err(Error::InsufficientBalance)
            } else if ledger.issuance_spec(pool_share_asset) < amount {
                Err(Error::InsufficientBalance)
            } else {
                let supply = ledger.issuance_spec(pool_share_asset);
                if amount * p.reserve_0 > u128::MAX || amount * p.reserve_1 > u128::MAX {
                    Err(Error::ArithmeticOverflow)
                } else {
                    let out_0 = burn_amount_spec(amount as int, p.reserve_0 as int, supply as int);
                    let out_1 = burn_amount_spec(amount as int, p.reserve_1 as int, supply as int);
                    if out_0 == 0 || out_1 == 0 {
                        Err(Error::InvalidAmount)
                    } else if ledger.balance_spec(p.token_0, VAULT_ACCOUNT) < out_0
                        || ledger.balance_spec(p.token_1, VAULT_ACCOUNT) < out_1 {
                        Err(Error::InsufficientBalance)
                    } else if ledger.balance_spec(p.token_0, who) + out_0 > u128::MAX
                        || ledger.balance_spec(p.token_1, who) + out_1 > u128::MAX {
                        Err(Error::ArithmeticOverflow)
                    } else {
                        Ok(())
                    }
                }
            }
        }
    }

    /// The record a successful `burn` stores: both payouts taken from the
    /// reserves, accumulators refreshed at the pre-burn reserves, `k_last`
    /// recomputed (zero when the pool is drained).
    pub open spec fn burned_pair(p: Pair, amount: u128, supply: u128, now: u64) -> Pair {
        let ps = p.synced(now);
        let out_0 = burn_amount_spec(amount as int, p.reserve_0 as int, supply as int);
        let out_1 = burn_amount_spec(amount as int, p.reserve_1 as int, supply as int);
        Pair {
            reserve_0: (p.reserve_0 - out_0) as u128,
            reserve_1: (p.reserve_1 - out_1) as u128,
            k_last: ((p.reserve_0 - out_0) * (p.reserve_1 - out_1)) as u128,
            ..ps
        }
    }

    /// Remove liquidity: burn `amount` pool shares and pay out the
    /// proportional amounts of both reserves, rounded down. Burning every
    /// outstanding share drives both reserves to exactly zero while the
    /// record and its share-asset mapping stay in place for re-seeding.
    /// A failed call changes nothing.
    #[verifier::rlimit(50)]
    pub fn burn(
        &mut self,
        ledger: &mut Ledger,
        who: u64,
        pool_share_asset: u64,
        amount: u128,
        now: u64,
    ) -> (r: Result<(u128, u128), Error>)
        requires
            old(self).wf(),
            old(ledger).wf(),
            old(self).coupled(*old(ledger)),
            who != VAULT_ACCOUNT,
        ensures
            final(self).wf(),
            final(ledger).wf(),
            final(self).coupled(*final(ledger)),
            match old(self).burn_checks(*old(ledger), who, pool_share_asset, amount, now) {
                Err(e) => r == Err::<(u128, u128), Error>(e) && final(self).unchanged(
                    *old(self),
                    *final(ledger),
                    *old(ledger),
                ),
                Ok(()) => {
                    let p = old(self).registry.pair_of_share(pool_share_asset);
                    let supply = old(ledger).issuance_spec(pool_share_asset);
                    let out_0 = burn_amount_spec(amount as int, p.reserve_0 as int, supply as int);
                    let out_1 = burn_amount_spec(amount as int, p.reserve_1 as int, supply as int);
                    let np = Pallet::burned_pair(p, amount, supply, now);
                    &&& r == Ok::<(u128, u128), Error>((out_0 as u128, out_1 as u128))
                    &&& amount == supply ==> np.reserve_0 == 0 && np.reserve_1 == 0
                    &&& amount < supply ==> np.reserve_0 > 0 && np.reserve_1 > 0
                    &&& final(self).registry.pairs_seq() == old(self).registry.pairs_seq().update(
                        old(self).registry.index_of_share(pool_share_asset),
                        np,
                    )
                    &&& final(self).registry.has_share(pool_share_asset)
                    &&& final(self).registry.pair_of_share(pool_share_asset) == np
                    &&& final(self).registry.has_pair(np.token_0, np.token_1)
                    &&& final(self).registry.pair_at(np.token_0, np.token_1) == np
                    &&& forall|s: u64|
                        s != pool_share_asset ==> ((final(self).registry.has_share(s) <==> old(self).registry.has_share(s)) && (old(self).registry.has_share(s) ==> final(self).registry.pair_of_share(s) == old(self).registry.pair_of_share(s)))
                    &&& final(ledger).balance_spec(pool_share_asset, who) == old(ledger).balance_spec(pool_share_asset, who) - amount
                    &&& final(ledger).issuance_spec(pool_share_asset) == supply - amount
                    &&& final(ledger).balance_spec(np.token_0, who) == old(ledger).balance_spec(
                        np.token_0,
                        who,
                    ) + out_0
                    &&& final(ledger).balance_spec(np.token_1, who) == old(ledger).balance_spec(
                        np.token_1,
                        who,
                    ) + out_1
                    &&& final(ledger).balance_spec(np.token_0, VAULT_ACCOUNT) == old(ledger).balance_spec(np.token_0, VAULT_ACCOUNT) - out_0
                    &&& final(ledger).balance_spec(np.token_1, VAULT_ACCOUNT) == old(ledger).balance_spec(np.token_1, VAULT_ACCOUNT) - out_1
                    &&& forall|a: u64, c: u64|
                        !((a == np.token_0 && (c == who || c == VAULT_ACCOUNT)) || (a == np.token_1
                            && (c == who || c == VAULT_ACCOUNT)) || (a == pool_share_asset && c
                            == who)) ==> final(ledger).balance_spec(a, c) == old(ledger).balance_spec(a, c)
                    &&& forall|a: u64|
                        a != pool_share_asset ==> final(ledger).issuance_spec(a) == old(ledger).issuance_spec(a)
                    &&& final(ledger).next_id() == old(ledger).next_id()
                    &&& final(self).events@ == old(self).events@.push(
                        Event::LiquidityBurned(
                            who,
                            pool_share_asset,
                            amount,
                            out_0 as u128,
                            out_1 as u128,
                        ),
                    ).push(Event::Sync(np.token_0, np.token_1, np.reserve_0, np.reserve_1))
                },
            },
    {
        if amount == 0 {
            return Err(Error::InvalidAmount);
        }
        let mut p = match self.registry.get_by_share(pool_share_asset) {
            Some(p) => p,
            None => { return Err(Error::PairNotFound) },
        };
        let ghost p0 = p;
        let ghost idx = old(self).registry.index_of_share(pool_share_asset);
        proof {
            assert(old(self).registry.has_share(pool_share_asset));
            assert(0 <= idx < old(self).registry.pairs_seq().len() && old(self).registry.pairs_seq()[idx].pool_share_asset == pool_share_asset);
            assert(old(self).registry.pairs_seq()[idx] == p0);
            assert(p0.token_0 < old(ledger).next_id() && p0.token_1 < old(ledger).next_id());
            assert(pool_share_asset < old(ledger).next_id());
        }
        match p.sync(now) {
            Ok(()) => {},
            Err(e) => { return Err(e) },
        }
        if ledger.balance(pool_share_asset, who) < amount {
            return Err(Error::InsufficientBalance);
        }
        let supply = ledger.total_issuance(pool_share_asset);
        if supply < amount {
            return Err(Error::InsufficientBalance);
        }
        proof {
            assert(p.reserve_0 > 0 && p.reserve_1 > 0);
        }
        let n_0 = match mul_checked(amount, p.reserve_0) {
            Some(v) => v,
            None => { return Err(Error::ArithmeticOverflow) },
        };
        let n_1 = match mul_checked(amount, p.reserve_1) {
            Some(v) => v,
            None => { return Err(Error::ArithmeticOverflow) },
        };
        let out_0 = n_0 / supply;
        let out_1 = n_1 / supply;
        if out_0 == 0 || out_1 == 0 {
            return Err(Error::InvalidAmount);
        }
        proof {
            if amount == supply {
                lemma_burn_all(p.reserve_0 as int, supply as int);
                lemma_burn_all(p.reserve_1 as int, supply as int);
            } else {
                lemma_burn_partial(amount as int, p.reserve_0 as int, supply as int);
                lemma_burn_partial(amount as int, p.reserve_1 as int, supply as int);
            }
            lemma_mul_le_mono(
                p.reserve_0 - out_0,
                p.reserve_1 - out_1,
                p.reserve_0 as int,
                p.reserve_1 as int,
            );
        }
        let vault_0 = ledger.balance(p.token_0, VAULT_ACCOUNT);
        if vault_0 < out_0 {
            return Err(Error::InsufficientBalance);
        }
        let vault_1 = ledger.balance(p.token_1, VAULT_ACCOUNT);
        if vault_1 < out_1 {
            return Err(Error::InsufficientBalance);
        }
        let who_0 = ledger.balance(p.token_0, who);
        if out_0 > u128::MAX - who_0 {
            return Err(Error::ArithmeticOverflow);
        }
        let who_1 = ledger.balance(p.token_1, who);
        if out_1 > u128::MAX - who_1 {
            return Err(Error::ArithmeticOverflow);
        }
        let new_r_0 = p.reserve_0 - out_0;
        let new_r_1 = p.reserve_1 - out_1;
        let new_k = new_r_0 * new_r_1;
        p.reserve_0 = new_r_0;
        p.reserve_1 = new_r_1;
        p.k_last = new_k;
        proof {
            assert(p == Pallet::burned_pair(p0, amount, supply, now));
        }
        let res_burn = ledger.burn_asset(pool_share_asset, who, amount);
        if res_burn.is_err() {
            return Err(Error::ArithmeticOverflow);
        }
        let res_0 = ledger.transfer(p.token_0, VAULT_ACCOUNT, who, out_0);
        if res_0.is_err() {
            return Err(Error::ArithmeticOverflow);
        }
        let res_1 = ledger.transfer(p.token_1, VAULT_ACCOUNT, who, out_1);
        if res_1.is_err() {
            return Err(Error::ArithmeticOverflow);
        }
        proof {
            assert(matches_tokens(p0, p.token_0, p.token_1));
            old(self).registry.lemma_pair_at(p.token_0, p.token_1, idx);
            assert forall|i: int|
                0 <= i < self.registry.pairs_seq().len() && !matches_tokens(
                    #[trigger] self.registry.pairs_seq()[i],
                    p.token_0,
                    p.token_1,
                ) implies self.registry.pairs_seq()[i].pool_share_asset != p.pool_share_asset by {
                if i < idx {
                    assert(self.registry.pairs_seq()[i].pool_share_asset
                        != self.registry.pairs_seq()[idx].pool_share_asset);
                } else if idx < i {
                    assert(self.registry.pairs_seq()[idx].pool_share_asset
                        != self.registry.pairs_seq()[i].pool_share_asset);
                }
            }
        }
        self.registry.put(p);
        self.events.push(
            Event::LiquidityBurned(who, pool_share_asset, amount, out_0, out_1),
        );
        self.events.push(Event::Sync(p.token_0, p.token_1, p.reserve_0, p.reserve_1));
        proof {
            self.registry.lemma_pair_at(p.token_0, p.token_1, idx);
            self.registry.lemma_pair_of_share(pool_share_asset, idx);
            assert forall|i: int| 0 <= i < self.registry.pairs_seq().len() implies ((
            #[trigger] self.registry.pairs_seq()[i]).pool_share_asset < ledger.next_id()
                && self.registry.pairs_seq()[i].token_0 < ledger.next_id()
                && self.registry.pairs_seq()[i].token_1 < ledger.next_id() && (
            ledger.issuance_spec(self.registry.pairs_seq()[i].pool_share_asset) == 0
                <==> self.registry.pairs_seq()[i].reserve_0 == 0)) by {
                if i != idx {
                    assert(self.registry.pairs_seq()[i] == old(self).registry.pairs_seq()[i]);
                } else {
                    assert(self.registry.pairs_seq()[i] == p);
                    assert(old(self).registry.pairs_seq()[idx] == p0);
                }
            }
        }
        Ok((out_0, out_1))
    }

    /// The decision `sync_pair` takes, in the order the checks run.
    pub open spec fn sync_checks(self, asset_0: u64, asset_1: u64, now: u64) -> Result<(), Error> {
        if !self.registry.has_pair(asset_0, asset_1) {
            Err(Error::PairNotFound)
        } else {
            let p = self.registry.pair_at(asset_0, asset_1);
            if now < p.block_timestamp_last {
                Err(Error::ClockRegression)
            } else if p.sync_overflows(now) {
                Err(Error::ArithmeticOverflow)
            } else {
                Ok(())
            }
        }
    }

    /// Refresh a pair's timestamp, price accumulators and `k_last` without
    /// touching its reserves, and emit a `Sync` event. Safe to call any
    /// number of times within one timestamp: after the first call the
    /// others find no elapsed time and leave the accumulators unchanged.
    /// A failed call changes nothing.
    pub fn sync_pair(&mut self, asset_0: u64, asset_1: u64, now: u64) -> (r: Result<
        (u128, u128),
        Error,
    >)
        requires
            old(self).wf(),
        ensures
            final(self).wf(),
            forall|l: Ledger| old(self).coupled(l) ==> final(self).coupled(l),
            match old(self).sync_checks(asset_0, asset_1, now) {
                Err(e) => r == Err::<(u128, u128), Error>(e) && final(self).registry.pairs_seq()
                    == old(self).registry.pairs_seq() && final(self).events@ == old(self).events@,
                Ok(()) => {
                    let p = old(self).registry.pair_at(asset_0, asset_1);
                    let np = p.synced(now);
                    &&& r == Ok::<(u128, u128), Error>((p.reserve_0, p.reserve_1))
                    &&& final(self).registry.pairs_seq() == old(self).registry.pairs_seq().update(
                        old(self).registry.index_of_pair(asset_0, asset_1),
                        np,
                    )
                    &&& final(self).registry.has_pair(asset_0, asset_1)
                    &&& final(self).registry.pair_at(asset_0, asset_1) == np
                    &&& forall|a: u64, b: u64|
                        !same_unordered(a, b, asset_0, asset_1) ==> ((final(self).registry.has_pair(
                            a,
                            b,
                        ) <==> old(self).registry.has_pair(a, b)) && (old(self).registry.has_pair(
                            a,
                            b,
                        ) ==> final(self).registry.pair_at(a, b) == old(self).registry.pair_at(
                            a,
                            b,
                        )))
                    &&& final(self).events@ == old(self).events@.push(
                        Event::Sync(np.token_0, np.token_1, np.reserve_0, np.reserve_1),
                    )
                },
            },
    {
        let mut p = match self.registry.get(asset_0, asset_1) {
            Some(p) => p,
            None => { return Err(Error::PairNotFound) },
        };
        let ghost p0 = p;
        let ghost idx = old(self).registry.index_of_pair(asset_0, asset_1);
        proof {
            assert(old(self).registry.has_pair(asset_0, asset_1));
            assert(0 <= idx < old(self).registry.pairs_seq().len() && matches_tokens(
                old(self).registry.pairs_seq()[idx],
                asset_0,
                asset_1,
            ));
            assert(old(self).registry.pairs_seq()[idx] == p0);
        }
        match p.sync(now) {
            Ok(()) => {},
            Err(e) => { return Err(e) },
        }
        proof {
            assert(matches_tokens(p0, p.token_0, p.token_1));
            old(self).registry.lemma_pair_at(p.token_0, p.token_1, idx);
            assert forall|i: int|
                0 <= i < self.registry.pairs_seq().len() && !matches_tokens(
                    #[trigger] self.registry.pairs_seq()[i],
                    p.token_0,
                    p.token_1,
                ) implies self.registry.pairs_seq()[i].pool_share_asset != p.pool_share_asset by {
                if i < idx {
                    assert(self.registry.pairs_seq()[i].pool_share_asset
                        != self.registry.pairs_seq()[idx].pool_share_asset);
                } else if idx < i {
                    assert(self.registry.pairs_seq()[idx].pool_share_asset
                        != self.registry.pairs_seq()[i].pool_share_asset);
                }
            }
        }
        self.registry.put(p);
        self.events.push(Event::Sync(p.token_0, p.token_1, p.reserve_0, p.reserve_1));
        proof {
            self.registry.lemma_pair_at(asset_0, asset_1, idx);
            assert forall|l: Ledger| old(self).coupled(l) implies self.coupled(l) by {
                assert forall|i: int| 0 <= i < self.registry.pairs_seq().len() implies ((
                #[trigger] self.registry.pairs_seq()[i]).pool_share_asset < l.next_id()
                    && self.registry.pairs_seq()[i].token_0 < l.next_id()
                    && self.registry.pairs_seq()[i].token_1 < l.next_id() && (l.issuance_spec(
                    self.registry.pairs_seq()[i].pool_share_asset,
                ) == 0 <==> self.registry.pairs_seq()[i].reserve_0 == 0)) by {
                    if i != idx {
                        assert(self.registry.pairs_seq()[i] == old(self).registry.pairs_seq()[i]);
                    } else {
                        assert(self.registry.pairs_seq()[i] == p);
                        assert(old(self).registry.pairs_seq()[idx] == p0);
                    }
                }
            }
        }
        Ok((p.reserve_0, p.reserve_1))
    }
}

impl crate::traits::XykAmm for Pallet {
    open spec fn amm_inv(&self, ledger: &Ledger) -> bool {
        self.wf() && ledger.wf() && self.coupled(*ledger)
    }

    fn create_pair(
        &mut self,
        ledger: &mut Ledger,
        who: u64,
        token_0: u64,
        token_0_amount: u128,
        token_1: u64,
        token_1_amount: u128,
        now: u64,
    ) -> Result<u128, Error> {
        Pallet::create_pair(self, ledger, who, token_0, token_0_amount, token_1, token_1_amount, now)
    }
}

/// Minting against a seeded pool and at once burning the exact minted
/// shares pays back at most the deposit on each side: rounding never
/// favours the withdrawer.
pub proof fn lemma_mint_burn_round_trip(
    amt_0: int,
    amt_1: int,
    r_0: int,
    r_1: int,
    supply: int,
)
    requires
        r_0 > 0,
        r_1 > 0,
        supply > 0,
        amt_0 >= 0,
        amt_1 >= 0,
    ensures
        ({
            let shares = mint_shares_spec(amt_0, amt_1, r_0, r_1, supply);
            &&& burn_amount_spec(shares, r_0 + amt_0, supply + shares) <= amt_0
            &&& burn_amount_spec(shares, r_1 + amt_1, supply + shares) <= amt_1
        }),
{
    let shares = mint_shares_spec(amt_0, amt_1, r_0, r_1, supply);
    assert(amt_0 * supply / r_0 >= 0 && amt_1 * supply / r_1 >= 0) by (nonlinear_arith)
        requires
            r_0 > 0,
            r_1 > 0,
            supply > 0,
            amt_0 >= 0,
            amt_1 >= 0,
    ;
    lemma_mint_burn_le(amt_0, r_0, supply, shares);
    lemma_mint_burn_le(amt_1, r_1, supply, shares);
}

} // verus!
