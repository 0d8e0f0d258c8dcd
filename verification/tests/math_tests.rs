use std::str::FromStr;

use scrypto::prelude::CheckedDiv;
use scrypto::prelude::Decimal;
use scrypto::prelude::PreciseDecimal;

use precision_pool::constants::{max_liquidity, MAX_TICK, MIN_TICK};
use precision_pool::errors::PoolError;
use precision_pool::liquidity_math::{allowed_amounts, remove_amounts};
use precision_pool::swap_math::{input_amount_net, new_price, value_in_range, SwapType};
use precision_pool::tick_math::{
    align_tick, aligned_prices_ordered, max_liquidity_per_tick, number_of_ticks,
    tick_to_price_sqrt,
};

fn dec(n: i64) -> Decimal {
    Decimal::from(n)
}

fn dec_s(s: &str) -> Decimal {
    Decimal::from_str(s).unwrap()
}

fn pdec(n: i64) -> PreciseDecimal {
    PreciseDecimal::from(n)
}

#[test]
fn test_new_price() {
    assert_eq!(
        new_price(SwapType::SellX, pdec(10), pdec(1), dec(0), 18).unwrap(),
        pdec(1)
    );
}

#[test]
fn test_number_of_ticks() {
    assert_eq!(number_of_ticks(MAX_TICK as u32), 3);
    assert_eq!(number_of_ticks((MAX_TICK - 1) as u32), 3);
    assert_eq!(number_of_ticks((MAX_TICK / 2 + 1) as u32), 3);
    assert_eq!(number_of_ticks((MAX_TICK / 2) as u32), 5);
    assert_eq!(number_of_ticks(1), (MAX_TICK as u32) * 2 + 1);
}

#[test]
fn test_max_liquidity_per_tick() {
    let total = max_liquidity();
    assert_eq!(
        max_liquidity_per_tick(MAX_TICK as u32),
        total.checked_div(PreciseDecimal::from(3u32)).unwrap()
    );
    assert_eq!(
        max_liquidity_per_tick((MAX_TICK - 1) as u32),
        total.checked_div(PreciseDecimal::from(3u32)).unwrap()
    );
    assert_eq!(
        max_liquidity_per_tick((MAX_TICK / 2) as u32),
        total.checked_div(PreciseDecimal::from(5u32)).unwrap()
    );
    assert_eq!(
        max_liquidity_per_tick(1),
        total
            .checked_div(PreciseDecimal::from(2 * (MAX_TICK as u32) + 1))
            .unwrap()
    );
}

#[test]
fn test_align_tick_truncates_toward_zero() {
    assert_eq!(align_tick(7, 5), 5);
    assert_eq!(align_tick(10, 5), 10);
    // Negative ticks align toward zero, not toward negative infinity: the
    // grid is symmetric under truncation.
    assert_eq!(align_tick(-7, 5), -5);
    assert_eq!(align_tick(-10, 5), -10);
    assert_eq!(align_tick(0, 60), 0);
    assert_eq!(align_tick(MAX_TICK, 1), MAX_TICK);
    assert_eq!(align_tick(MIN_TICK, 1), MIN_TICK);
}

#[test]
fn test_tick_to_price_sqrt_anchor_values() {
    assert_eq!(tick_to_price_sqrt(0), PreciseDecimal::ONE);
    assert_eq!(
        tick_to_price_sqrt(1),
        PreciseDecimal::from_str("1.000049998750062496094023416993798697").unwrap()
    );
    assert!(tick_to_price_sqrt(MIN_TICK) > PreciseDecimal::ZERO);
    assert!(tick_to_price_sqrt(MAX_TICK) > PreciseDecimal::ONE);
}

#[test]
fn test_tick_to_price_sqrt_monotone_samples() {
    let mut previous = tick_to_price_sqrt(MIN_TICK);
    for tick in [-887271, -10000, -1, 0, 1, 10000, 887271, MAX_TICK] {
        let current = tick_to_price_sqrt(tick);
        assert!(previous < current, "price not increasing at tick {}", tick);
        previous = current;
    }
}

#[test]
fn test_aligned_prices_ordered_samples() {
    let (p1, p2) = aligned_prices_ordered(-887272, 887272, 60);
    assert!(p1 <= p2);
    let (p3, p4) = aligned_prices_ordered(-61, -59, 60);
    assert!(p3 <= p4);
    let (p5, p6) = aligned_prices_ordered(100, 100, 7);
    assert_eq!(p5, p6);
}

#[test]
fn test_allowed_amounts_price_inside_range() {
    let price = pdec(1);
    let left = tick_to_price_sqrt(-10000);
    let right = tick_to_price_sqrt(15000);
    let (liquidity, x, y) =
        allowed_amounts(dec(10), 18, dec(10), 18, price, left, right).unwrap();
    assert!(liquidity > PreciseDecimal::ZERO);
    assert!(x > Decimal::ZERO && x <= dec(10));
    assert!(y > Decimal::ZERO && y <= dec(10));
}

#[test]
fn test_allowed_amounts_price_below_range() {
    // At or below the left bound all liquidity is funded by token x.
    let price = tick_to_price_sqrt(-20000);
    let left = tick_to_price_sqrt(-10000);
    let right = tick_to_price_sqrt(15000);
    let (liquidity, x, y) =
        allowed_amounts(dec(10), 18, dec(10), 18, price, left, right).unwrap();
    assert!(liquidity > PreciseDecimal::ZERO);
    assert_eq!(x, dec(10));
    assert_eq!(y, Decimal::ZERO);
}

#[test]
fn test_allowed_amounts_price_above_range() {
    let price = tick_to_price_sqrt(20000);
    let left = tick_to_price_sqrt(-10000);
    let right = tick_to_price_sqrt(15000);
    let (liquidity, x, y) =
        allowed_amounts(dec(10), 18, dec(10), 18, price, left, right).unwrap();
    assert!(liquidity > PreciseDecimal::ZERO);
    assert_eq!(x, Decimal::ZERO);
    assert_eq!(y, dec(10));
}

#[test]
fn test_allowed_amounts_zero_liquidity() {
    let price = pdec(1);
    let left = tick_to_price_sqrt(-10000);
    let right = tick_to_price_sqrt(15000);
    let r = allowed_amounts(dec(0), 18, dec(0), 18, price, left, right);
    assert_eq!(r.unwrap_err(), PoolError::ZeroLiquidity);
}

#[test]
fn test_add_then_remove_never_creates_value() {
    // Solvency: what the funded liquidity can withdraw at the same price
    // never exceeds what was consumed.
    let price = pdec(1);
    let left = tick_to_price_sqrt(-10000);
    let right = tick_to_price_sqrt(15000);
    let (liquidity, x_in, y_in) =
        allowed_amounts(dec(10), 18, dec(10), 18, price, left, right).unwrap();
    let (x_out, y_out) = remove_amounts(liquidity, price, left, right, 18, 18).unwrap();
    assert!(x_out <= x_in, "x: {} > {}", x_out, x_in);
    assert!(y_out <= y_in, "y: {} > {}", y_out, y_in);
}

#[test]
fn test_remove_amounts_zero_liquidity_pays_nothing() {
    let price = pdec(1);
    let left = tick_to_price_sqrt(-100);
    let right = tick_to_price_sqrt(100);
    let (x, y) = remove_amounts(PreciseDecimal::ZERO, price, left, right, 18, 18).unwrap();
    assert_eq!(x, Decimal::ZERO);
    assert_eq!(y, Decimal::ZERO);
}

#[test]
fn test_input_amount_net_exact_split() {
    let (net, lp, protocol) =
        input_amount_net(dec(100), dec_s("0.1"), dec_s("0.25"), 18).unwrap();
    assert_eq!(net, dec(90));
    assert_eq!(lp, dec_s("7.5"));
    assert_eq!(protocol, dec_s("2.5"));
    // Fee conservation: the parts recompose the gross fee exactly.
    assert_eq!(lp + protocol, dec(10));
    assert_eq!(net + lp + protocol, dec(100));
}

#[test]
fn test_input_amount_net_empty_input() {
    // One atto at a ten-percent fee rate: the fee ceils to the whole atto
    // and nothing is left to swap.
    let r = input_amount_net(dec_s("0.000000000000000001"), dec_s("0.1"), dec(0), 18);
    assert_eq!(r.unwrap_err(), PoolError::EmptySwapInput);
}

#[test]
fn test_value_in_range_inside_and_outside() {
    // Active tick inside the range: both outside parts are subtracted as
    // stored.
    let inside = value_in_range(pdec(100), pdec(10), pdec(20), Some(0), -100, 100).unwrap();
    assert_eq!(inside, pdec(70));
    // Active tick below the range: the left outside value flips.
    let below = value_in_range(pdec(100), pdec(10), pdec(20), Some(-200), -100, 100).unwrap();
    assert_eq!(below, pdec(100) - (pdec(100) - pdec(10)) - pdec(20));
    // Active tick above the range: the right outside value flips.
    let above = value_in_range(pdec(100), pdec(10), pdec(20), Some(200), -100, 100).unwrap();
    assert_eq!(above, pdec(100) - pdec(10) - (pdec(100) - pdec(20)));
    // No active tick counts as below every bound.
    let none = value_in_range(pdec(100), pdec(10), pdec(20), None, -100, 100).unwrap();
    assert_eq!(none, below);
}

#[test]
fn test_new_price_directions() {
    let liquidity = pdec(1000);
    let price = pdec(1);
    let buy = new_price(SwapType::BuyX, liquidity, price, dec(1), 18).unwrap();
    assert!(buy >= price);
    let sell = new_price(SwapType::SellX, liquidity, price, dec(1), 18).unwrap();
    assert!(sell <= price);
    assert!(sell > PreciseDecimal::ZERO);
}
