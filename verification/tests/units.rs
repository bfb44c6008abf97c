//! Unit tests of the arithmetic primitives, the sync step, the ledger, and
//! the registry.

use amm_dex::ledger::Ledger;
use amm_dex::math::add_checked;
use amm_dex::math::mul_checked;
use amm_dex::math::sqrt_floor;
use amm_dex::registry::PairRegistry;
use amm_dex::types::Error;
use amm_dex::types::Pair;

#[test]
fn sqrt_floor_exact_values() {
    assert_eq!(sqrt_floor(0), 0);
    assert_eq!(sqrt_floor(1), 1);
    assert_eq!(sqrt_floor(3), 1);
    assert_eq!(sqrt_floor(4), 2);
    assert_eq!(sqrt_floor(999_999), 999);
    assert_eq!(sqrt_floor(1_000_000), 1000);
    assert_eq!(sqrt_floor(u128::MAX), (1u128 << 64) - 1);
}

#[test]
fn checked_arithmetic_reports_overflow() {
    assert_eq!(mul_checked(1 << 64, 1 << 64), None);
    assert_eq!(mul_checked(1 << 64, (1 << 64) - 1), Some(u128::MAX - ((1 << 64) - 1)));
    assert_eq!(mul_checked(0, u128::MAX), Some(0));
    assert_eq!(add_checked(u128::MAX, 1), None);
    assert_eq!(add_checked(u128::MAX - 5, 5), Some(u128::MAX));
}

fn seeded_pair() -> Pair {
    // token 10 against token 11, reserves 200 and 800, share asset 12
    Pair::new(10, 200, 11, 800, 12, 100)
}

#[test]
fn sync_accumulates_prices_and_advances_time() {
    let mut p = seeded_pair();
    p.sync(110).unwrap();
    // price of token_0 is 800/200 = 4 per unit over 10 ticks
    assert_eq!(p.price_0_cumulative_last, 40);
    // price of token_1 is floor(200 * 10 / 800) = 2
    assert_eq!(p.price_1_cumulative_last, 2);
    assert_eq!(p.block_timestamp_last, 110);
    assert_eq!(p.k_last, 200 * 800);
}

#[test]
fn sync_twice_at_one_timestamp_changes_nothing_more() {
    let mut p = seeded_pair();
    p.sync(110).unwrap();
    let first = p;
    p.sync(110).unwrap();
    assert_eq!(p, first);
}

#[test]
fn sync_rejects_clock_regression() {
    let mut p = seeded_pair();
    let before = p;
    assert_eq!(p.sync(99), Err(Error::ClockRegression));
    assert_eq!(p, before);
}

#[test]
fn sync_overflow_leaves_the_pair_unchanged() {
    let mut p = seeded_pair();
    p.price_0_cumulative_last = u128::MAX;
    let before = p;
    assert_eq!(p.sync(101), Err(Error::ArithmeticOverflow));
    assert_eq!(p, before);
}

#[test]
fn ledger_transfer_moves_exact_amounts() {
    let mut ledger = Ledger::new();
    let a = ledger.allocate_asset_id().unwrap();
    ledger.mint_asset(a, 1, 100).unwrap();
    ledger.transfer(a, 1, 2, 40).unwrap();
    assert_eq!(ledger.balance(a, 1), 60);
    assert_eq!(ledger.balance(a, 2), 40);
    assert_eq!(ledger.total_issuance(a), 100);
    assert_eq!(ledger.transfer(a, 1, 2, 61), Err(Error::InsufficientBalance));
    ledger.burn_asset(a, 2, 40).unwrap();
    assert_eq!(ledger.total_issuance(a), 60);
}

#[test]
fn ledger_rejects_unallocated_assets() {
    let mut ledger = Ledger::new();
    let a = ledger.allocate_asset_id().unwrap();
    assert_eq!(ledger.mint_asset(a + 1, 1, 5), Err(Error::InvalidAsset));
    assert_eq!(ledger.transfer(a + 1, 1, 2, 0), Err(Error::InvalidAsset));
    assert_eq!(ledger.balance(a + 1, 1), 0);
}

#[test]
fn ledger_ensure_can_withdraw() {
    let mut ledger = Ledger::new();
    let a = ledger.allocate_asset_id().unwrap();
    ledger.mint_asset(a, 1, 10).unwrap();
    assert!(ledger.ensure_can_withdraw(a, 1, 10).is_ok());
    assert_eq!(
        ledger.ensure_can_withdraw(a, 1, 11),
        Err(Error::InsufficientBalance)
    );
}

#[test]
fn registry_serves_both_lookup_directions() {
    let mut reg = PairRegistry::new();
    assert!(reg.get(1, 2).is_none());
    assert!(!reg.contains_pair(1, 2));
    let p = Pair::new(1, 10, 2, 20, 7, 0);
    reg.put(p);
    assert!(reg.contains_pair(1, 2));
    assert!(reg.contains_pair(2, 1));
    assert_eq!(reg.get(2, 1).unwrap(), p);
    assert_eq!(reg.get_by_share(7).unwrap(), p);
    assert!(reg.get_by_share(8).is_none());
    // an upsert replaces the record seen by both directions
    let mut q = p;
    q.reserve_0 = 11;
    reg.put(q);
    assert_eq!(reg.get(1, 2).unwrap().reserve_0, 11);
    assert_eq!(reg.get_by_share(7).unwrap().reserve_0, 11);
}
