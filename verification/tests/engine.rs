//! End-to-end tests of the pair engine through its public operations.

use amm_dex::ledger::Ledger;
use amm_dex::pallet::Pallet;
use amm_dex::pallet::VAULT_ACCOUNT;
use amm_dex::types::Error;
use amm_dex::types::Event;

const ALICE: u64 = 1;
const BOB: u64 = 2;

/// A ledger with two assets and generous balances for Alice and Bob, and an
/// empty engine. Returns (engine, ledger, asset_a, asset_b).
fn setup(amount: u128) -> (Pallet, Ledger, u64, u64) {
    let mut ledger = Ledger::new();
    let a = ledger.allocate_asset_id().unwrap();
    let b = ledger.allocate_asset_id().unwrap();
    ledger.mint_asset(a, ALICE, amount).unwrap();
    ledger.mint_asset(b, ALICE, amount).unwrap();
    ledger.mint_asset(a, BOB, amount).unwrap();
    ledger.mint_asset(b, BOB, amount).unwrap();
    (Pallet::new(), ledger, a, b)
}

#[test]
fn create_pair_sets_reserves_and_k_exactly() {
    let (mut amm, mut ledger, a, b) = setup(1_000_000);
    let shares = amm.create_pair(&mut ledger, ALICE, a, 2000, b, 500, 7).unwrap();
    // floor(sqrt(2000 * 500)) = floor(sqrt(1_000_000)) = 1000
    assert_eq!(shares, 1000);
    let p = amm.registry.get(a, b).unwrap();
    assert_eq!(p.reserve_0, 2000);
    assert_eq!(p.reserve_1, 500);
    assert_eq!(p.k_last, 2000 * 500);
    assert_eq!(p.block_timestamp_last, 7);
    assert_eq!(p.price_0_cumulative_last, 0);
    assert_eq!(p.price_1_cumulative_last, 0);
    // deposits moved into custody
    assert_eq!(ledger.balance(a, ALICE), 1_000_000 - 2000);
    assert_eq!(ledger.balance(b, ALICE), 1_000_000 - 500);
    assert_eq!(ledger.balance(a, VAULT_ACCOUNT), 2000);
    assert_eq!(ledger.balance(b, VAULT_ACCOUNT), 500);
    // the caller holds every minted share
    assert_eq!(ledger.balance(p.pool_share_asset, ALICE), 1000);
    assert_eq!(ledger.total_issuance(p.pool_share_asset), 1000);
    // reverse lookup agrees with the forward one
    let q = amm.registry.get_by_share(p.pool_share_asset).unwrap();
    assert_eq!(q, p);
    let r = amm.registry.get(b, a).unwrap();
    assert_eq!(r, p);
}

#[test]
fn create_pair_rejects_same_asset() {
    let (mut amm, mut ledger, a, _b) = setup(1000);
    assert_eq!(
        amm.create_pair(&mut ledger, ALICE, a, 10, a, 10, 0),
        Err(Error::InvalidAsset)
    );
}

#[test]
fn create_pair_rejects_duplicate_in_both_orderings() {
    let (mut amm, mut ledger, a, b) = setup(1000);
    amm.create_pair(&mut ledger, ALICE, a, 10, b, 10, 0).unwrap();
    assert_eq!(
        amm.create_pair(&mut ledger, BOB, a, 10, b, 10, 0),
        Err(Error::PairAlreadyExists)
    );
    assert_eq!(
        amm.create_pair(&mut ledger, BOB, b, 10, a, 10, 0),
        Err(Error::PairAlreadyExists)
    );
}

#[test]
fn create_pair_rejects_zero_amount() {
    let (mut amm, mut ledger, a, b) = setup(1000);
    assert_eq!(
        amm.create_pair(&mut ledger, ALICE, a, 0, b, 10, 0),
        Err(Error::InvalidAmount)
    );
    assert_eq!(
        amm.create_pair(&mut ledger, ALICE, a, 10, b, 0, 0),
        Err(Error::InvalidAmount)
    );
}

#[test]
fn create_pair_rejects_insufficient_balance() {
    let (mut amm, mut ledger, a, b) = setup(100);
    assert_eq!(
        amm.create_pair(&mut ledger, ALICE, a, 101, b, 10, 0),
        Err(Error::InsufficientBalance)
    );
}

#[test]
fn create_pair_rejects_overflowing_product() {
    let mut ledger = Ledger::new();
    let a = ledger.allocate_asset_id().unwrap();
    let b = ledger.allocate_asset_id().unwrap();
    let big: u128 = 1 << 64;
    ledger.mint_asset(a, ALICE, big).unwrap();
    ledger.mint_asset(b, ALICE, big).unwrap();
    let mut amm = Pallet::new();
    // big * big == 2^128 does not fit the balance width
    assert_eq!(
        amm.create_pair(&mut ledger, ALICE, a, big, b, big, 0),
        Err(Error::ArithmeticOverflow)
    );
}

#[test]
fn swap_follows_fee_formula_and_price_impact_grows() {
    let (mut amm, mut ledger, a, b) = setup(1_000_000);
    let shares = amm.create_pair(&mut ledger, ALICE, a, 1000, b, 1000, 0).unwrap();
    assert_eq!(shares, 1000);
    // floor(1000*100*997 / (1000*1000 + 100*997)) = 90
    let out1 = amm.swap(&mut ledger, BOB, a, 100, b, 0, 0).unwrap();
    assert_eq!(out1, 90);
    let p = amm.registry.get(a, b).unwrap();
    assert_eq!(p.reserve_0, 1100);
    assert_eq!(p.reserve_1, 910);
    assert_eq!(ledger.balance(b, BOB), 1_000_000 + 90);
    assert_eq!(ledger.balance(a, BOB), 1_000_000 - 100);
    // a second identical swap yields strictly less: price impact grows
    let out2 = amm.swap(&mut ledger, BOB, a, 100, b, 0, 0).unwrap();
    assert!(out2 < out1);
    assert_eq!(out2, 75);
}

#[test]
fn swap_product_never_decreases_over_a_sequence() {
    let (mut amm, mut ledger, a, b) = setup(10_000_000);
    amm.create_pair(&mut ledger, ALICE, a, 5000, b, 8000, 0).unwrap();
    let mut last_k = 5000u128 * 8000u128;
    let trades = [(a, 137u128), (b, 4000u128), (a, 1u128), (b, 999u128), (a, 2500u128)];
    for (asset_in, amount_in) in trades {
        let asset_out = if asset_in == a { b } else { a };
        amm.swap(&mut ledger, BOB, asset_in, amount_in, asset_out, 0, 0)
            .unwrap();
        let p = amm.registry.get(a, b).unwrap();
        let k = p.reserve_0 * p.reserve_1;
        assert!(k >= last_k);
        last_k = k;
    }
}

#[test]
fn swap_zero_amount_fails_and_mutates_nothing() {
    let (mut amm, mut ledger, a, b) = setup(1_000_000);
    amm.create_pair(&mut ledger, ALICE, a, 1000, b, 1000, 0).unwrap();
    let before = amm.registry.get(a, b).unwrap();
    let alice_a = ledger.balance(a, ALICE);
    let bob_a = ledger.balance(a, BOB);
    assert_eq!(
        amm.swap(&mut ledger, BOB, a, 0, b, 0, 0),
        Err(Error::InvalidAmount)
    );
    let after = amm.registry.get(a, b).unwrap();
    assert_eq!(before, after);
    assert_eq!(ledger.balance(a, ALICE), alice_a);
    assert_eq!(ledger.balance(a, BOB), bob_a);
}

#[test]
fn swap_rejects_slippage() {
    let (mut amm, mut ledger, a, b) = setup(1_000_000);
    amm.create_pair(&mut ledger, ALICE, a, 1000, b, 1000, 0).unwrap();
    // the trade would pay 90, the caller insists on 91
    assert_eq!(
        amm.swap(&mut ledger, BOB, a, 100, b, 91, 0),
        Err(Error::SlippageExceeded)
    );
    // and the failed call changed nothing
    let p = amm.registry.get(a, b).unwrap();
    assert_eq!(p.reserve_0, 1000);
    assert_eq!(p.reserve_1, 1000);
}

#[test]
fn swap_unknown_pair_fails() {
    let (mut amm, mut ledger, a, b) = setup(1000);
    assert_eq!(
        amm.swap(&mut ledger, BOB, a, 10, b, 0, 0),
        Err(Error::PairNotFound)
    );
}

#[test]
fn mint_adds_proportional_liquidity() {
    let (mut amm, mut ledger, a, b) = setup(1_000_000);
    amm.create_pair(&mut ledger, ALICE, a, 1000, b, 4000, 0).unwrap();
    let p = amm.registry.get(a, b).unwrap();
    let supply = ledger.total_issuance(p.pool_share_asset);
    // min(500*S/1000, 2000*S/4000) == S/2
    let minted = amm.mint(&mut ledger, BOB, a, 500, b, 2000, 0).unwrap();
    assert_eq!(minted, supply / 2);
    let p = amm.registry.get(a, b).unwrap();
    assert_eq!(p.reserve_0, 1500);
    assert_eq!(p.reserve_1, 6000);
    assert_eq!(p.k_last, 1500 * 6000);
    assert_eq!(ledger.balance(p.pool_share_asset, BOB), minted);
}

#[test]
fn mint_takes_minimum_of_disproportionate_deposit() {
    let (mut amm, mut ledger, a, b) = setup(1_000_000);
    amm.create_pair(&mut ledger, ALICE, a, 1000, b, 1000, 0).unwrap();
    // the b side would justify 300 shares, the a side only 100
    let minted = amm.mint(&mut ledger, BOB, a, 100, b, 300, 0).unwrap();
    assert_eq!(minted, 100);
    // both deposits are taken in full; the excess stays with the pool
    let p = amm.registry.get(a, b).unwrap();
    assert_eq!(p.reserve_0, 1100);
    assert_eq!(p.reserve_1, 1300);
}

#[test]
fn mint_dust_rejected() {
    let (mut amm, mut ledger, a, b) = setup(10_000_000);
    // supply = floor(sqrt(1_000_000 * 100)) = 10_000
    amm.create_pair(&mut ledger, ALICE, a, 1_000_000, b, 100, 0).unwrap();
    // 1 * 10_000 / 1_000_000 rounds to zero shares
    assert_eq!(
        amm.mint(&mut ledger, BOB, a, 1, b, 1, 0),
        Err(Error::InvalidAmount)
    );
}

#[test]
fn mint_then_burn_returns_at_most_the_deposit() {
    let (mut amm, mut ledger, a, b) = setup(10_000_000);
    amm.create_pair(&mut ledger, ALICE, a, 1000, b, 997, 0).unwrap();
    let bob_a = ledger.balance(a, BOB);
    let bob_b = ledger.balance(b, BOB);
    let p = amm.registry.get(a, b).unwrap();
    let minted = amm.mint(&mut ledger, BOB, a, 333, b, 333, 0).unwrap();
    let (out_0, out_1) = amm
        .burn(&mut ledger, BOB, p.pool_share_asset, minted, 0)
        .unwrap();
    // the payouts never exceed the deposit, in either asset
    assert!(out_0 <= 333 && out_1 <= 333);
    assert!(ledger.balance(a, BOB) <= bob_a);
    assert!(ledger.balance(b, BOB) <= bob_b);
}

#[test]
fn burn_all_shares_drains_reserves_and_keeps_the_record() {
    let (mut amm, mut ledger, a, b) = setup(1_000_000);
    let shares = amm.create_pair(&mut ledger, ALICE, a, 1234, b, 777, 0).unwrap();
    let p = amm.registry.get(a, b).unwrap();
    let share = p.pool_share_asset;
    let (out_0, out_1) = amm.burn(&mut ledger, ALICE, share, shares, 0).unwrap();
    assert_eq!(out_0, 1234);
    assert_eq!(out_1, 777);
    // reserves are exactly zero, the record and both mappings persist
    let p = amm.registry.get(a, b).unwrap();
    assert_eq!(p.reserve_0, 0);
    assert_eq!(p.reserve_1, 0);
    assert_eq!(p.k_last, 0);
    assert_eq!(amm.registry.get_by_share(share).unwrap(), p);
    assert_eq!(ledger.total_issuance(share), 0);
    // Alice got every deposit back
    assert_eq!(ledger.balance(a, ALICE), 1_000_000);
    assert_eq!(ledger.balance(b, ALICE), 1_000_000);
}

#[test]
fn burn_zero_or_unknown_share_fails() {
    let (mut amm, mut ledger, a, b) = setup(1000);
    amm.create_pair(&mut ledger, ALICE, a, 100, b, 100, 0).unwrap();
    let share = amm.registry.get(a, b).unwrap().pool_share_asset;
    assert_eq!(
        amm.burn(&mut ledger, ALICE, share, 0, 0),
        Err(Error::InvalidAmount)
    );
    assert_eq!(
        amm.burn(&mut ledger, ALICE, share + 100, 5, 0),
        Err(Error::PairNotFound)
    );
}

#[test]
fn burn_more_than_held_fails() {
    let (mut amm, mut ledger, a, b) = setup(1000);
    let shares = amm.create_pair(&mut ledger, ALICE, a, 100, b, 100, 0).unwrap();
    let share = amm.registry.get(a, b).unwrap().pool_share_asset;
    assert_eq!(
        amm.burn(&mut ledger, BOB, share, shares, 0),
        Err(Error::InsufficientBalance)
    );
}

#[test]
fn reseed_after_drain_uses_square_root_formula() {
    let (mut amm, mut ledger, a, b) = setup(1_000_000);
    let shares = amm.create_pair(&mut ledger, ALICE, a, 100, b, 400, 0).unwrap();
    let share = amm.registry.get(a, b).unwrap().pool_share_asset;
    amm.burn(&mut ledger, ALICE, share, shares, 0).unwrap();
    // creating again fails: the record persists
    assert_eq!(
        amm.create_pair(&mut ledger, ALICE, a, 30, b, 30, 0),
        Err(Error::PairAlreadyExists)
    );
    // minting re-seeds with floor(sqrt(30 * 120)) = 60
    let minted = amm.mint(&mut ledger, BOB, a, 30, b, 120, 1).unwrap();
    assert_eq!(minted, 60);
    let p = amm.registry.get(a, b).unwrap();
    assert_eq!(p.reserve_0, 30);
    assert_eq!(p.reserve_1, 120);
}

#[test]
fn clock_regression_is_rejected() {
    let (mut amm, mut ledger, a, b) = setup(1_000_000);
    amm.create_pair(&mut ledger, ALICE, a, 1000, b, 1000, 50).unwrap();
    assert_eq!(
        amm.swap(&mut ledger, BOB, a, 10, b, 0, 49),
        Err(Error::ClockRegression)
    );
    assert_eq!(
        amm.mint(&mut ledger, BOB, a, 10, b, 10, 49),
        Err(Error::ClockRegression)
    );
}

#[test]
fn events_are_emitted_in_order() {
    let (mut amm, mut ledger, a, b) = setup(1_000_000);
    amm.create_pair(&mut ledger, ALICE, a, 1000, b, 1000, 0).unwrap();
    amm.swap(&mut ledger, BOB, a, 100, b, 0, 0).unwrap();
    assert_eq!(amm.events.len(), 4);
    assert_eq!(amm.events[0], Event::PairCreated(a, b, ALICE));
    assert_eq!(amm.events[1], Event::Sync(a, b, 1000, 1000));
    assert_eq!(amm.events[2], Event::Swapped(BOB, a, 100, b, 90));
    assert_eq!(amm.events[3], Event::Sync(a, b, 1100, 910));
}

#[test]
fn sync_pair_accumulates_and_is_idempotent_per_timestamp() {
    let (mut amm, mut ledger, a, b) = setup(1_000_000);
    amm.create_pair(&mut ledger, ALICE, a, 200, b, 800, 100).unwrap();
    let (r0, r1) = amm.sync_pair(a, b, 110).unwrap();
    assert_eq!((r0, r1), (200, 800));
    let p = amm.registry.get(a, b).unwrap();
    // price of token_0 in token_1 is 4, over 10 ticks
    assert_eq!(p.price_0_cumulative_last, 40);
    assert_eq!(p.price_1_cumulative_last, 2);
    assert_eq!(p.block_timestamp_last, 110);
    // a second refresh at the same timestamp leaves the accumulators as is
    amm.sync_pair(a, b, 110).unwrap();
    let q = amm.registry.get(a, b).unwrap();
    assert_eq!(q, p);
    // and the clock may not run backwards
    assert_eq!(amm.sync_pair(a, b, 109), Err(Error::ClockRegression));
}
