//! Tick math: conversion from tick index to square-root price, alignment of
//! ticks to the spacing grid, and the per-tick liquidity ceiling.

use vstd::prelude::*;
use scrypto::prelude::PreciseDecimal;
use scrypto::prelude::I256;
use crate::constants::MAX_TICK;
use crate::constants::MIN_TICK;
use crate::constants::max_liquidity;
use crate::constants::max_liquidity_subunits;
use crate::fixed_point::lemma_div_range;
use crate::fixed_point::pd_checked_div;
use crate::fixed_point::pd_from_u32;
use crate::fixed_point::pd_one;
use crate::fixed_point::pd_subunits;
use crate::fixed_point::tdiv;

verus! {

/// Subunits of the square-root price at a tick: the per-tick base raised to
/// the tick index in 36-digit fixed point, exactly as
/// `PreciseDecimal::checked_powi` computes it.
pub uninterp spec fn tick_price_sqrt_subunits(tick: int) -> int;

/// The square-root price at a tick.
///
/// Relies on `PreciseDecimal::checked_powi` applied to the per-tick base
/// `sqrt(1.0001)`.  The stated facts hold of that computation:
/// - The result is a function of the tick alone; the base is a constant.
/// - For ticks in range the computation never overflows: every intermediate
///   of the squaring chain lies between the values at the extreme ticks,
///   about `5.4e-20` and `1.9e19`, far inside the 256-bit range.
/// - The result is positive: every multiplication and division in the chain
///   truncates toward zero, so the computed value never exceeds the exact
///   real power, and the downward drift — at most one subunit per step over
///   some forty steps, on intermediates of at least `1e24` subunits — is
///   vanishingly small against the smallest exact value, about `5.4e16`
///   subunits.
/// - The result is strictly increasing in the tick: adjacent exact powers
///   differ by a factor of about `1 + 5e-5`, while the relative rounding
///   drift of the computation is below `1e-22`, so the computed values keep
///   the strict order of the exact ones.
#[verifier::external_body]
pub fn tick_to_price_sqrt(tick: i32) -> (r: PreciseDecimal)
    requires
        MIN_TICK <= tick <= MAX_TICK,
    ensures
        pd_subunits(r) == tick_price_sqrt_subunits(tick as int),
        0 < pd_subunits(r) <= crate::fixed_point::i256_max(),
        forall|t: int|
            MIN_TICK <= t < tick ==> #[trigger] tick_price_sqrt_subunits(t) < pd_subunits(r),
        forall|t: int|
            tick < t <= MAX_TICK ==> pd_subunits(r) < #[trigger] tick_price_sqrt_subunits(t),
{
    PreciseDecimal::from_precise_subunits(I256::from_digits([
        11089430535351294505,
        54212819061947187,
        0,
        0,
    ]))
    .checked_powi(tick.into())
    .unwrap()
}

/// The number of grid points a spacing admits: a symmetric lattice around
/// zero, `2 * (MAX_TICK / spacing) + 1` points.
pub open spec fn number_of_ticks_spec(spacing: int) -> int {
    2 * (887272int / spacing) + 1
}

/// Calculates the total number of grid points for the given tick spacing.
pub fn number_of_ticks(spacing: u32) -> (r: u32)
    requires
        1 <= spacing,
    ensures
        r == number_of_ticks_spec(spacing as int),
        1 <= r <= 1774545,
{
    proof {
        lemma_div_range(887272, spacing as int);
        vstd::arithmetic::div_mod::lemma_div_is_ordered_by_denominator(887272, 1, spacing as int);
    }
    2 * (887272u32 / spacing) + 1
}

/// Subunits of the liquidity ceiling of one tick for the given spacing:
/// the protocol-wide ceiling divided evenly over the grid points, in the
/// 36-digit fixed-point division.
pub open spec fn max_liquidity_per_tick_subunits(spacing: int) -> int {
    tdiv(max_liquidity_subunits() * pd_one(), number_of_ticks_spec(spacing) * pd_one())
}

/// Computes the maximum liquidity allowed per tick for a given tick spacing.
pub fn max_liquidity_per_tick(spacing: u32) -> (r: PreciseDecimal)
    requires
        1 <= spacing,
    ensures
        pd_subunits(r) == max_liquidity_per_tick_subunits(spacing as int),
        pd_subunits(r) >= 0,
{
    let n = number_of_ticks(spacing);
    let total = max_liquidity();
    let divisor = pd_from_u32(n);
    proof {
        assert(n as int * pd_one() >= pd_one()) by (nonlinear_arith)
            requires
                n as int >= 1,
                pd_one() > 0,
        ;
        lemma_div_range(max_liquidity_subunits() * pd_one(), n as int * pd_one());
        crate::fixed_point::lemma_div_ordered_by_denominator(
            max_liquidity_subunits() * pd_one(),
            pd_one(),
            n as int * pd_one(),
        );
        vstd::arithmetic::div_mod::lemma_div_by_multiple(max_liquidity_subunits(), pd_one());
    }
    pd_checked_div(total, divisor).unwrap()
}

/// The greatest multiple of the spacing at or below the tick in magnitude:
/// division truncates toward zero, so negative ticks align toward zero, not
/// toward negative infinity.
pub open spec fn align_tick_spec(tick: int, spacing: int) -> int {
    tdiv(tick, spacing) * spacing
}

/// Aligns a tick index to the spacing grid.
pub fn align_tick(tick: i32, spacing: u32) -> (r: i32)
    requires
        MIN_TICK <= tick <= MAX_TICK,
        1 <= spacing <= MAX_TICK,
    ensures
        r == align_tick_spec(tick as int, spacing as int),
        MIN_TICK <= r <= MAX_TICK,
{
    if tick >= 0 {
        let q: u32 = (tick as u32) / spacing;
        proof {
            lemma_div_range(tick as int, spacing as int);
            crate::fixed_point::lemma_div_mul_bounds(tick as int, spacing as int);
            assert(0 * spacing as int <= (tick as int / spacing as int) * spacing as int)
                by (nonlinear_arith)
                requires
                    0 <= tick as int / spacing as int,
                    spacing as int > 0,
            ;
        }
        (q * spacing) as i32
    } else {
        let magnitude: u32 = (-tick) as u32;
        let q: u32 = magnitude / spacing;
        proof {
            lemma_div_range(magnitude as int, spacing as int);
            crate::fixed_point::lemma_div_mul_bounds(magnitude as int, spacing as int);
            assert(0 * spacing as int <= (magnitude as int / spacing as int) * spacing as int)
                by (nonlinear_arith)
                requires
                    0 <= magnitude as int / spacing as int,
                    spacing as int > 0,
            ;
        }
        let aligned: i32 = -((q * spacing) as i32);
        proof {
            let ghost tq = tdiv(tick as int, spacing as int);
            assert(tq == -(q as int));
            assert(tq * spacing as int == -((q as int) * spacing as int)) by (nonlinear_arith)
                requires
                    tq == -(q as int),
            ;
        }
        aligned
    }
}

/// Alignment is monotone: a later tick never aligns to an earlier grid
/// point.
pub proof fn lemma_align_tick_monotone(t1: int, t2: int, spacing: int)
    requires
        t1 <= t2,
        spacing >= 1,
    ensures
        align_tick_spec(t1, spacing) <= align_tick_spec(t2, spacing),
{
    lemma_tdiv_monotone(t1, t2, spacing);
    assert(tdiv(t1, spacing) * spacing <= tdiv(t2, spacing) * spacing) by (nonlinear_arith)
        requires tdiv(t1, spacing) <= tdiv(t2, spacing), spacing >= 1;
}

/// Truncating division by a positive divisor keeps the order of the
/// dividends.
pub proof fn lemma_tdiv_monotone(a1: int, a2: int, b: int)
    requires
        a1 <= a2,
        b >= 1,
    ensures
        tdiv(a1, b) <= tdiv(a2, b),
{
    if a1 >= 0 {
        vstd::arithmetic::div_mod::lemma_div_is_ordered(a1, a2, b);
    } else if a2 >= 0 {
        lemma_div_range(-a1, b);
        lemma_div_range(a2, b);
    } else {
        vstd::arithmetic::div_mod::lemma_div_is_ordered(-a2, -a1, b);
    }
}


/// The square-root prices of two ticks after alignment to the same grid,
/// in order: aligning and converting never decreases along the tick axis.
pub fn aligned_prices_ordered(t1: i32, t2: i32, spacing: u32) -> (r: (PreciseDecimal, PreciseDecimal))
    requires
        MIN_TICK <= t1 <= t2 <= MAX_TICK,
        1 <= spacing <= MAX_TICK as u32,
    ensures
        pd_subunits(r.0) == tick_price_sqrt_subunits(align_tick_spec(t1 as int, spacing as int)),
        pd_subunits(r.1) == tick_price_sqrt_subunits(align_tick_spec(t2 as int, spacing as int)),
        pd_subunits(r.0) <= pd_subunits(r.1),
{
    let a1 = align_tick(t1, spacing);
    let a2 = align_tick(t2, spacing);
    proof {
        lemma_align_tick_monotone(t1 as int, t2 as int, spacing as int);
    }
    let p1 = tick_to_price_sqrt(a1);
    let p2 = tick_to_price_sqrt(a2);
    (p1, p2)
}

} // verus!
