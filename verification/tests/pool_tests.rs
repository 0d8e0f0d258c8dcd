use std::str::FromStr;

use scrypto::prelude::Decimal;
use scrypto::prelude::PreciseDecimal;

use precision_pool::errors::PoolError;
use precision_pool::pool::{FlashLoan, Pool, PoolToken};
use precision_pool::swap_math::SwapType;

fn dec(n: i64) -> Decimal {
    Decimal::from(n)
}

fn dec_s(s: &str) -> Decimal {
    Decimal::from_str(s).unwrap()
}

fn pdec(n: i64) -> PreciseDecimal {
    PreciseDecimal::from(n)
}

fn x_token() -> Vec<u8> {
    vec![1u8, 2, 3]
}

fn y_token() -> Vec<u8> {
    vec![2u8, 3, 4]
}

fn default_pool(input_fee_rate: Decimal) -> Pool {
    Pool::new(
        &x_token(),
        &y_token(),
        true,
        true,
        18,
        18,
        pdec(1),
        1,
        input_fee_rate,
        dec_s("0.1"),
        0,
    )
    .unwrap()
}

#[test]
fn test_instantiate_rejects_identical_tokens() {
    let r = Pool::new(
        &x_token(),
        &x_token(),
        true,
        true,
        18,
        18,
        pdec(1),
        1,
        dec(0),
        dec(0),
        0,
    );
    assert_eq!(r.err().unwrap(), PoolError::InvalidTokenPair);
}

#[test]
fn test_instantiate_rejects_unsorted_tokens() {
    let r = Pool::new(
        &y_token(),
        &x_token(),
        true,
        true,
        18,
        18,
        pdec(1),
        1,
        dec(0),
        dec(0),
        0,
    );
    assert_eq!(r.err().unwrap(), PoolError::InvalidTokenPair);
}

#[test]
fn test_instantiate_rejects_non_fungible_token() {
    let r = Pool::new(
        &x_token(),
        &y_token(),
        true,
        false,
        18,
        18,
        pdec(1),
        1,
        dec(0),
        dec(0),
        0,
    );
    assert_eq!(r.err().unwrap(), PoolError::InvalidTokenPair);
}

#[test]
fn test_instantiate_rejects_zero_tick_spacing() {
    let r = Pool::new(
        &x_token(),
        &y_token(),
        true,
        true,
        18,
        18,
        pdec(1),
        0,
        dec(0),
        dec(0),
        0,
    );
    assert_eq!(r.err().unwrap(), PoolError::InvalidBounds);
}

#[test]
fn test_instantiate_rejects_zero_price() {
    let r = Pool::new(
        &x_token(),
        &y_token(),
        true,
        true,
        18,
        18,
        pdec(0),
        1,
        dec(0),
        dec(0),
        0,
    );
    assert_eq!(r.err().unwrap(), PoolError::InvalidBounds);
}

#[test]
fn test_instantiate_rejects_excessive_fee_rate() {
    let r = Pool::new(
        &x_token(),
        &y_token(),
        true,
        true,
        18,
        18,
        pdec(1),
        1,
        dec_s("0.2"),
        dec(0),
        0,
    );
    assert_eq!(r.err().unwrap(), PoolError::FeeRateOutOfRange);
}

#[test]
fn test_add_liquidity_rejects_equal_bounds() {
    let mut pool = default_pool(dec(0));
    let r = pool.add_liquidity(100, 100, dec(10), dec(10), None, 0);
    assert_eq!(r.err().unwrap(), PoolError::InvalidBounds);
}

#[test]
fn test_add_liquidity_rejects_inverted_bounds() {
    let mut pool = default_pool(dec(0));
    let r = pool.add_liquidity(200, 100, dec(10), dec(10), None, 0);
    assert_eq!(r.err().unwrap(), PoolError::InvalidBounds);
}

#[test]
fn test_add_liquidity_rejects_out_of_range_bounds() {
    let mut pool = default_pool(dec(0));
    let r = pool.add_liquidity(-900000, 100, dec(10), dec(10), None, 0);
    assert_eq!(r.err().unwrap(), PoolError::InvalidBounds);
}

#[test]
fn test_add_liquidity_rejects_zero_amounts() {
    let mut pool = default_pool(dec(0));
    let r = pool.add_liquidity(-10000, 15000, dec(0), dec(0), None, 0);
    assert_eq!(r.err().unwrap(), PoolError::ZeroLiquidity);
}

#[test]
fn test_add_liquidity_mints_position_and_ticks() {
    let mut pool = default_pool(dec(0));
    let outcome = pool
        .add_liquidity(-10000, 15000, dec(10), dec(10), None, 0)
        .unwrap();
    assert_eq!(outcome.position_id, 1);
    assert!(outcome.x_consumed > dec(0) && outcome.x_consumed <= dec(10));
    assert!(outcome.y_consumed > dec(0) && outcome.y_consumed <= dec(10));
    assert_eq!(pool.ticks.len(), 2);
    // The price sits inside the range, so the pointer extends to the left
    // bound and the liquidity becomes active.
    assert_eq!(pool.active_tick(), Some(-10000));
    assert!(pool.active_liquidity() > PreciseDecimal::ZERO);
}

#[test]
fn test_swap_sell_in_single_range() {
    // One position around a unit price; selling one token x routes within
    // the range, crosses no tick, and pays out close to one token y.
    let mut pool = default_pool(dec(0));
    pool.add_liquidity(-10000, 15000, dec(10), dec(10), None, 0)
        .unwrap();
    let price_before = pool.price_sqrt();
    let outcome = pool.swap(SwapType::SellX, dec(1), 0).unwrap();
    assert!(outcome.output > dec(0));
    assert!(outcome.output <= dec(1));
    assert!(outcome.output > dec_s("0.9"));
    // A sell never increases the price.
    assert!(pool.price_sqrt() <= price_before);
    // No tick was crossed: the pointer still rests on the left bound.
    assert_eq!(pool.active_tick(), Some(-10000));
}

#[test]
fn test_swap_buy_never_decreases_price() {
    let mut pool = default_pool(dec(0));
    pool.add_liquidity(-10000, 15000, dec(10), dec(10), None, 0)
        .unwrap();
    let price_before = pool.price_sqrt();
    let outcome = pool.swap(SwapType::BuyX, dec(1), 0).unwrap();
    assert!(outcome.output > dec(0));
    assert!(pool.price_sqrt() >= price_before);
}

#[test]
fn test_swap_gross_input_fully_accounted() {
    let mut pool = default_pool(dec_s("0.1"));
    pool.add_liquidity(-10000, 15000, dec(10), dec(10), None, 0)
        .unwrap();
    let outcome = pool.swap(SwapType::SellX, dec(1), 0).unwrap();
    assert_eq!(
        outcome.input_consumed + outcome.input_fee_lp + outcome.input_fee_protocol
            + outcome.remainder,
        dec(1)
    );
    assert!(outcome.input_fee_lp > dec(0));
}

#[test]
fn test_swap_empty_input_rejected() {
    let mut pool = default_pool(dec_s("0.1"));
    pool.add_liquidity(-10000, 15000, dec(10), dec(10), None, 0)
        .unwrap();
    let r = pool.swap(SwapType::SellX, dec_s("0.000000000000000001"), 0);
    assert_eq!(r.err().unwrap(), PoolError::EmptySwapInput);
}

#[test]
fn test_claimable_fees_idempotent() {
    // Querying twice in a row without an intervening swap returns the same
    // amounts and leaves the pool untouched.
    let mut pool = default_pool(dec_s("0.1"));
    let outcome = pool
        .add_liquidity(-10000, 15000, dec(10), dec(10), None, 0)
        .unwrap();
    pool.swap(SwapType::SellX, dec(1), 0).unwrap();
    let first = pool.claimable_fees(outcome.position_id).unwrap();
    let second = pool.claimable_fees(outcome.position_id).unwrap();
    assert_eq!(first, second);
    assert!(first.0 > dec(0));
}

#[test]
fn test_claim_fees_pays_once() {
    let mut pool = default_pool(dec_s("0.1"));
    let outcome = pool
        .add_liquidity(-10000, 15000, dec(10), dec(10), None, 0)
        .unwrap();
    pool.swap(SwapType::SellX, dec(1), 0).unwrap();
    let (x_first, y_first) = pool.claim_fees(outcome.position_id).unwrap();
    assert!(x_first > dec(0));
    assert_eq!(y_first, dec(0));
    // The checkpoint moved: an immediate second claim pays nothing.
    let (x_second, y_second) = pool.claim_fees(outcome.position_id).unwrap();
    assert_eq!(x_second, dec(0));
    assert_eq!(y_second, dec(0));
}

#[test]
fn test_round_trip_returns_no_more_than_deposited() {
    let mut pool = default_pool(dec(0));
    let added = pool
        .add_liquidity(-10000, 15000, dec(10), dec(10), None, 0)
        .unwrap();
    let removed = pool.remove_liquidity(added.position_id, 0).unwrap();
    assert!(removed.x_principal + removed.x_fees <= added.x_consumed);
    assert!(removed.y_principal + removed.y_fees <= added.y_consumed);
    assert_eq!(removed.x_fees, dec(0));
    assert_eq!(removed.y_fees, dec(0));
}

#[test]
fn test_remove_liquidity_deletes_empty_ticks() {
    let mut pool = default_pool(dec(0));
    let added = pool
        .add_liquidity(-10000, 15000, dec(10), dec(10), None, 0)
        .unwrap();
    assert_eq!(pool.ticks.len(), 2);
    pool.remove_liquidity(added.position_id, 0).unwrap();
    // Both ticks lose all their gross liquidity and leave the store; the
    // pointer refits to the nearest surviving tick, of which none remains.
    assert_eq!(pool.ticks.len(), 0);
    assert_eq!(pool.active_tick(), None);
}

#[test]
fn test_remove_liquidity_keeps_shared_ticks() {
    let mut pool = default_pool(dec(0));
    let first = pool
        .add_liquidity(-10000, 15000, dec(10), dec(10), None, 0)
        .unwrap();
    let _second = pool
        .add_liquidity(-10000, 15000, dec(10), dec(10), None, 0)
        .unwrap();
    pool.remove_liquidity(first.position_id, 0).unwrap();
    // The other position still anchors both ticks.
    assert_eq!(pool.ticks.len(), 2);
    assert_eq!(pool.active_tick(), Some(-10000));
}

#[test]
fn test_removable_liquidity_preview_matches_removal() {
    let mut pool = default_pool(dec(0));
    let added = pool
        .add_liquidity(-10000, 15000, dec(10), dec(10), None, 0)
        .unwrap();
    let (x_preview, y_preview) = pool.removable_liquidity(added.position_id).unwrap();
    let removed = pool.remove_liquidity(added.position_id, 0).unwrap();
    assert_eq!(x_preview, removed.x_principal + removed.x_fees);
    assert_eq!(y_preview, removed.y_principal + removed.y_fees);
}

#[test]
fn test_shape_id_recorded_on_position() {
    let mut pool = default_pool(dec(0));
    let added = pool
        .add_liquidity(-10000, 15000, dec(10), dec(10), Some(7), 0)
        .unwrap();
    let i = added.position_id;
    assert_eq!(pool.positions[0].shape_id, Some(7));
    assert_eq!(pool.positions[0].id, i);
}

#[test]
fn test_remove_unknown_position() {
    let mut pool = default_pool(dec(0));
    let r = pool.remove_liquidity(42, 0);
    assert_eq!(r.err().unwrap(), PoolError::UnknownPosition);
}

#[test]
fn test_seconds_in_position_grows_with_time() {
    let mut pool = default_pool(dec(0));
    let added = pool
        .add_liquidity(-10000, 15000, dec(10), dec(10), None, 0)
        .unwrap();
    let seconds = pool.seconds_in_position(added.position_id, 1000).unwrap();
    assert_eq!(seconds, 1000);
}

#[test]
fn test_flash_loan_terms() {
    let pool = default_pool(dec(0));
    let (amount, terms) = pool.flash_loan(PoolToken::X, dec(10)).unwrap();
    assert_eq!(amount, dec(10));
    assert_eq!(terms.fee, dec(1));
    assert_eq!(terms.due_amount, dec(11));
}

#[test]
fn test_repay_loan_success_with_excess() {
    let mut pool = default_pool(dec(0));
    let (_, terms) = pool.flash_loan(PoolToken::X, dec(10)).unwrap();
    let excess = pool.repay_loan(dec(12), PoolToken::X, vec![terms]).unwrap();
    assert_eq!(excess, dec(1));
}

#[test]
fn test_repay_loan_wrong_token() {
    let mut pool = default_pool(dec(0));
    let (_, terms) = pool.flash_loan(PoolToken::X, dec(10)).unwrap();
    let r = pool.repay_loan(dec(11), PoolToken::Y, vec![terms]);
    assert_eq!(r.err().unwrap(), PoolError::WrongRepaymentToken);
}

#[test]
fn test_repay_loan_insufficient() {
    let mut pool = default_pool(dec(0));
    let (_, terms) = pool.flash_loan(PoolToken::X, dec(10)).unwrap();
    let r = pool.repay_loan(dec(10), PoolToken::X, vec![terms]);
    assert_eq!(r.err().unwrap(), PoolError::InsufficientRepayment);
}

#[test]
fn test_repay_loan_multiple_receipts() {
    let mut pool = default_pool(dec(0));
    let (_, first) = pool.flash_loan(PoolToken::X, dec(10)).unwrap();
    let (_, second) = pool.flash_loan(PoolToken::X, dec(10)).unwrap();
    let r = pool.repay_loan(dec(22), PoolToken::X, vec![first, second]);
    assert_eq!(r.err().unwrap(), PoolError::MultipleLoanReceipts);
}

#[test]
fn test_repay_loan_no_receipt() {
    let mut pool = default_pool(dec(0));
    let receipts: Vec<FlashLoan> = Vec::new();
    let r = pool.repay_loan(dec(11), PoolToken::X, receipts);
    assert_eq!(r.err().unwrap(), PoolError::MultipleLoanReceipts);
}

#[test]
fn test_registry_sync_clamps_share() {
    let mut pool = default_pool(dec(0));
    assert!(pool.registry_sync_due(0));
    pool.apply_registry_sync(dec_s("0.5"), 3600);
    // The protocol share is clamped to its configured maximum.
    assert_eq!(pool.fee_protocol_share(), dec_s("0.25"));
    assert_eq!(pool.next_sync_time(), 3600);
    assert!(!pool.registry_sync_due(1800));
}

#[test]
fn test_swap_protocol_fee_reaches_reserve() {
    // With a protocol share configured, the protocol's part of a swap's
    // fee lands in the protocol reserve of the input token and is handed
    // over at the next synchronization.
    let mut pool = default_pool(dec_s("0.1"));
    pool.apply_registry_sync(dec_s("0.25"), 9999);
    pool.add_liquidity(-10000, 15000, dec(10), dec(10), None, 0)
        .unwrap();
    let outcome = pool.swap(SwapType::SellX, dec(1), 0).unwrap();
    assert!(outcome.input_fee_protocol > dec(0));
    let (x_handed, y_handed) = pool.take_protocol_fees_for_sync();
    assert_eq!(x_handed, outcome.input_fee_protocol);
    assert_eq!(y_handed, dec(0));
}

#[test]
fn test_take_protocol_fees_for_sync_empties_reserves() {
    let mut pool = default_pool(dec(0));
    let (_, terms) = pool.flash_loan(PoolToken::X, dec(10)).unwrap();
    pool.repay_loan(dec(11), PoolToken::X, vec![terms]).unwrap();
    let (x, y) = pool.take_protocol_fees_for_sync();
    assert_eq!(x, dec(1));
    assert_eq!(y, dec(0));
    let (x_again, _) = pool.take_protocol_fees_for_sync();
    assert_eq!(x_again, dec(0));
}

#[test]
fn test_hook_drain_check() {
    assert!(precision_pool::pool::assert_hooks_bucket_output(dec(10), dec(9)).is_ok());
    assert_eq!(
        precision_pool::pool::assert_hooks_bucket_output(dec(10), dec_s("8.9"))
            .err()
            .unwrap(),
        PoolError::HookDrainViolation
    );
}

#[test]
fn test_set_input_fee_rate_bounds() {
    let mut pool = default_pool(dec(0));
    assert!(pool.set_input_fee_rate(dec_s("0.05")).is_ok());
    assert_eq!(pool.input_fee_rate(), dec_s("0.05"));
    assert_eq!(
        pool.set_input_fee_rate(dec_s("0.11")).err().unwrap(),
        PoolError::FeeRateOutOfRange
    );
    assert_eq!(pool.input_fee_rate(), dec_s("0.05"));
}

#[test]
fn test_active_liquidity_matches_delta_sum_after_crossings() {
    // The pool invariant: active liquidity equals the sum of the signed
    // deltas of all ticks at or below the active tick.
    let mut pool = default_pool(dec(0));
    pool.add_liquidity(-10, 10, dec(1), dec(1), None, 0).unwrap();
    pool.add_liquidity(-30000, -10, dec(1000), dec(1000), None, 0)
        .unwrap();
    pool.swap(SwapType::SellX, dec(5), 0).unwrap();
    let active = pool.active_tick().unwrap();
    let mut sum = PreciseDecimal::ZERO;
    for tick in pool.ticks.entries.iter() {
        if tick.index <= active {
            sum += tick.delta_liquidity;
        }
    }
    assert_eq!(pool.active_liquidity(), sum);
}

#[test]
fn test_swap_with_no_tick_in_direction_returns_input() {
    // A fresh pool holds no ticks: the swap consumes nothing and hands the
    // whole input back as remainder.
    let mut pool = default_pool(dec_s("0.1"));
    let outcome = pool.swap(SwapType::SellX, dec(1), 0).unwrap();
    assert_eq!(outcome.output, dec(0));
    assert_eq!(outcome.input_consumed, dec(0));
    assert_eq!(outcome.input_fee_lp, dec(0));
    assert_eq!(outcome.input_fee_protocol, dec(0));
    assert_eq!(outcome.remainder, dec(1));
}

#[test]
fn test_add_liquidity_below_price_extends_pointer_and_claims_nothing() {
    // A range entirely below the price: funded by token y alone, the
    // pointer extends to the right bound, and an immediate claim pays
    // nothing.
    let mut pool = default_pool(dec(0));
    let added = pool
        .add_liquidity(-20000, -10000, dec(10), dec(10), None, 0)
        .unwrap();
    assert_eq!(added.x_consumed, dec(0));
    assert_eq!(added.y_consumed, dec(10));
    assert_eq!(pool.active_tick(), Some(-10000));
    let (x_claim, y_claim) = pool.claimable_fees(added.position_id).unwrap();
    assert_eq!(x_claim, dec(0));
    assert_eq!(y_claim, dec(0));
}

#[test]
fn test_active_liquidity_matches_delta_sum_after_buy_crossing() {
    // The lattice invariant after a buying swap that crosses a boundary.
    let mut pool = default_pool(dec(0));
    pool.add_liquidity(-10, 10, dec(1), dec(1), None, 0).unwrap();
    pool.add_liquidity(10, 30000, dec(1000), dec(1000), None, 0)
        .unwrap();
    pool.swap(SwapType::BuyX, dec(5), 0).unwrap();
    let active = pool.active_tick().unwrap();
    assert!(active >= 10);
    let mut sum = PreciseDecimal::ZERO;
    for tick in pool.ticks.entries.iter() {
        if tick.index <= active {
            sum += tick.delta_liquidity;
        }
    }
    assert_eq!(pool.active_liquidity(), sum);
}

#[test]
fn test_swap_crosses_tick_into_next_range() {
    // Two stacked ranges; a large sell leaves the upper range, crosses its
    // left bound and continues into the range below.
    let mut pool = default_pool(dec(0));
    pool.add_liquidity(-10, 10, dec(1), dec(1), None, 0).unwrap();
    pool.add_liquidity(-30000, -10, dec(1000), dec(1000), None, 0)
        .unwrap();
    let outcome = pool.swap(SwapType::SellX, dec(5), 0).unwrap();
    assert!(outcome.output > dec(0));
    // The price fell past the boundary at tick -10.
    assert!(pool.price_sqrt() < precision_pool::tick_math::tick_to_price_sqrt(-10));
    assert!(pool.active_tick().unwrap() < -10);
}
