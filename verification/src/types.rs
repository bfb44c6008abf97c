//! Data model: the `Pair` record, the error taxonomy, and domain events.

use vstd::prelude::*;

use crate::math::add_checked;
use crate::math::mul_checked;

verus! {

/// Typed failures of the state-changing operations. Every failure is
/// recoverable: a failed call leaves all persistent state unchanged.
#[derive(Clone, Copy, Debug, PartialEq, Eq, Structural)]
pub enum Error {
    /// An asset id is unknown to the ledger, or the two assets of a pair
    /// coincide.
    InvalidAsset,
    /// No pair exists for the given assets, in either ordering.
    PairNotFound,
    /// A pair for the given assets already exists, in one of the orderings.
    PairAlreadyExists,
    /// An amount is zero, or rounds down to a zero share or payout.
    InvalidAmount,
    /// An account holds less of an asset than the operation needs.
    InsufficientBalance,
    /// A swap would pay out less than the caller's stated minimum.
    SlippageExceeded,
    /// An intermediate product or sum does not fit the 128-bit balance width.
    ArithmeticOverflow,
    /// A subtraction would go below zero.
    ArithmeticUnderflow,
    /// The supplied timestamp lies before the pair's last recorded one.
    ClockRegression,
}

/// Domain events; each successful state-changing call emits one, followed by
/// a `Sync` event carrying the refreshed reserves.
#[derive(Clone, Copy, Debug, PartialEq, Eq, Structural)]
pub enum Event {
    /// token_0, token_1, creating account
    PairCreated(u64, u64, u64),
    /// account, asset_0, amount_0, asset_1, amount_1, shares minted
    LiquidityMinted(u64, u64, u128, u64, u128, u128),
    /// account, pool-share asset, shares burned, amount_0 out, amount_1 out
    LiquidityBurned(u64, u64, u128, u128, u128),
    /// account, asset in, amount in, asset out, amount out
    Swapped(u64, u64, u128, u64, u128),
    /// token_0, token_1, reserve_0, reserve_1 after the refresh
    Sync(u64, u64, u128, u128),
}

/// One liquidity pool for an unordered pair of distinct assets.
#[derive(Clone, Copy, Debug, PartialEq, Eq, Structural)]
pub struct Pair {
    pub token_0: u64,
    /// Balance of `token_0` held by the pool.
    pub reserve_0: u128,
    pub token_1: u64,
    /// Balance of `token_1` held by the pool.
    pub reserve_1: u128,
    /// Last recorded product `reserve_0 * reserve_1`.
    pub k_last: u128,
    /// Timestamp of the last reserve refresh; non-decreasing.
    pub block_timestamp_last: u64,
    /// Time-integral of the spot price of `token_0` in `token_1`.
    pub price_0_cumulative_last: u128,
    /// Time-integral of the spot price of `token_1` in `token_0`.
    pub price_1_cumulative_last: u128,
    /// The fungible asset representing proportional ownership of the pool.
    pub pool_share_asset: u64,
}

impl Pair {
    /// Structural invariant: distinct assets, a share asset distinct from
    /// both, and a pool that is fully empty or fully seeded.
    pub open spec fn wf(self) -> bool {
        &&& self.token_0 != self.token_1
        &&& self.pool_share_asset != self.token_0
        &&& self.pool_share_asset != self.token_1
        &&& (self.reserve_0 == 0 <==> self.reserve_1 == 0)
    }

    /// The record of a freshly seeded pool: reserves equal the deposits,
    /// `k_last` is their exact product, and both accumulators start at zero.
    pub fn new(
        token_0: u64,
        reserve_0: u128,
        token_1: u64,
        reserve_1: u128,
        pool_share_asset: u64,
        now: u64,
    ) -> (p: Pair)
        requires
            token_0 != token_1,
            pool_share_asset != token_0,
            pool_share_asset != token_1,
            (reserve_0 == 0) <==> (reserve_1 == 0),
            reserve_0 * reserve_1 <= u128::MAX,
        ensures
            p == (Pair {
                token_0,
                reserve_0,
                token_1,
                reserve_1,
                k_last: (reserve_0 * reserve_1) as u128,
                block_timestamp_last: now,
                price_0_cumulative_last: 0,
                price_1_cumulative_last: 0,
                pool_share_asset,
            }),
            p.wf(),
    {
        let k_last: u128 = reserve_0 * reserve_1;
        Pair {
            token_0,
            reserve_0,
            token_1,
            reserve_1,
            k_last,
            block_timestamp_last: now,
            price_0_cumulative_last: 0,
            price_1_cumulative_last: 0,
            pool_share_asset,
        }
    }

    /// True when a refresh at `now` adds to the price accumulators: time has
    /// passed and the pool is seeded.
    pub open spec fn accumulates(self, now: u64) -> bool {
        now > self.block_timestamp_last && self.reserve_0 > 0 && self.reserve_1 > 0
    }

    /// Increment of `price_0_cumulative_last` at `now`: the spot price
    /// `reserve_1 / reserve_0` times the elapsed time, rounded down (the
    /// rounding loses less than one unit of the smallest denomination).
    pub open spec fn price_0_delta(self, now: u64) -> int {
        if self.accumulates(now) {
            (self.reserve_1 * (now - self.block_timestamp_last)) / self.reserve_0 as int
        } else {
            0
        }
    }

    /// Increment of `price_1_cumulative_last` at `now`.
    pub open spec fn price_1_delta(self, now: u64) -> int {
        if self.accumulates(now) {
            (self.reserve_0 * (now - self.block_timestamp_last)) / self.reserve_1 as int
        } else {
            0
        }
    }

    /// True when some intermediate of the refresh at `now` does not fit the
    /// 128-bit balance width: one of the two `reserve * elapsed` products,
    /// an accumulator sum, or the recomputed product of the reserves.
    pub open spec fn sync_overflows(self, now: u64) -> bool {
        ||| (self.accumulates(now) && {
            ||| self.reserve_1 * (now - self.block_timestamp_last) > u128::MAX
            ||| self.reserve_0 * (now - self.block_timestamp_last) > u128::MAX
            ||| self.price_0_cumulative_last + self.price_0_delta(now) > u128::MAX
            ||| self.price_1_cumulative_last + self.price_1_delta(now) > u128::MAX
        })
        ||| self.reserve_0 * self.reserve_1 > u128::MAX
    }

    /// The pair after a successful refresh at `now`: accumulators grown by
    /// the price deltas, timestamp advanced, `k_last` recomputed.
    pub open spec fn synced(self, now: u64) -> Pair {
        Pair {
            block_timestamp_last: now,
            price_0_cumulative_last: (self.price_0_cumulative_last + self.price_0_delta(
                now,
            )) as u128,
            price_1_cumulative_last: (self.price_1_cumulative_last + self.price_1_delta(
                now,
            )) as u128,
            k_last: (self.reserve_0 * self.reserve_1) as u128,
            ..self
        }
    }

    /// Refreshing twice at one timestamp is the same as refreshing once:
    /// the second refresh finds no elapsed time and leaves the accumulators
    /// exactly as the first left them.
    pub proof fn lemma_sync_idempotent(self, now: u64)
        requires
            self.wf(),
            now >= self.block_timestamp_last,
            !self.sync_overflows(now),
        ensures
            !self.synced(now).sync_overflows(now),
            self.synced(now).synced(now) == self.synced(now),
    {
        let p1 = self.synced(now);
        assert(!p1.accumulates(now));
        assert(p1.price_0_delta(now) == 0 && p1.price_1_delta(now) == 0);
        assert(p1.synced(now) == p1);
    }

    /// Refresh timestamp, price accumulators and `k_last` ("sync"). Fails
    /// with `ClockRegression` if the clock ran backwards and with
    /// `ArithmeticOverflow` if an intermediate does not fit; a failed call
    /// leaves the pair unchanged. Calling it twice at the same timestamp
    /// leaves the accumulators of the second call unchanged.
    pub fn sync(&mut self, now: u64) -> (r: Result<(), Error>)
        requires
            old(self).wf(),
        ensures
            now < old(self).block_timestamp_last ==> r == Err::<(), Error>(Error::ClockRegression)
                && *final(self) == *old(self),
            now >= old(self).block_timestamp_last && old(self).sync_overflows(now) ==> r == Err::<
                (),
                Error,
            >(Error::ArithmeticOverflow) && *final(self) == *old(self),
            now >= old(self).block_timestamp_last && !old(self).sync_overflows(now) ==> r == Ok::<
                (),
                Error,
            >(()) && *final(self) == old(self).synced(now),
            final(self).wf(),
    {
        if now < self.block_timestamp_last {
            return Err(Error::ClockRegression);
        }
        let elapsed: u64 = now - self.block_timestamp_last;
        let mut acc_0 = self.price_0_cumulative_last;
        let mut acc_1 = self.price_1_cumulative_last;
        if elapsed > 0 && self.reserve_0 > 0 {
            let num_0 = match mul_checked(self.reserve_1, elapsed as u128) {
                Some(v) => v,
                None => { return Err(Error::ArithmeticOverflow) },
            };
            acc_0 = match add_checked(acc_0, num_0 / self.reserve_0) {
                Some(v) => v,
                None => { return Err(Error::ArithmeticOverflow) },
            };
            let num_1 = match mul_checked(self.reserve_0, elapsed as u128) {
                Some(v) => v,
                None => { return Err(Error::ArithmeticOverflow) },
            };
            acc_1 = match add_checked(acc_1, num_1 / self.reserve_1) {
                Some(v) => v,
                None => { return Err(Error::ArithmeticOverflow) },
            };
        }
        let k = match mul_checked(self.reserve_0, self.reserve_1) {
            Some(v) => v,
            None => { return Err(Error::ArithmeticOverflow) },
        };
        self.price_0_cumulative_last = acc_0;
        self.price_1_cumulative_last = acc_1;
        self.block_timestamp_last = now;
        self.k_last = k;
        Ok(())
    }
}

} // verus!
