//! The swap engine's arithmetic and per-tick state machine.
//!
//! A swap consumes an input amount step by step while the price moves across
//! the tick lattice.  Each step either stays inside the current tick range
//! (a partial step, which ends the swap) or reaches the next tick boundary
//! exactly (a full step, which crosses the tick and continues).  Every
//! formula rounds in the pool's favour: input requirements are ceiled,
//! outputs are floored, and computed prices never overshoot the true
//! post-trade price in the trader's favour.

use vstd::prelude::*;
use scrypto::prelude::Decimal;
use scrypto::prelude::PreciseDecimal;
use crate::constants::divisibility_unit;
use crate::errors::PoolError;
use crate::fixed_point::ceil_div;
use crate::fixed_point::d_one;
use crate::fixed_point::dec_attos;
use crate::fixed_point::dec_checked_add;
use crate::fixed_point::dec_checked_mul;
use crate::fixed_point::dec_checked_sub;
use crate::fixed_point::dec_le;
use crate::fixed_point::dec_lt;
use crate::fixed_point::dec_min;
use crate::fixed_point::dec_sub;
use crate::fixed_point::dec_zero;
use crate::fixed_point::floor_div;
use crate::fixed_point::i192_max;
use crate::fixed_point::i256_max;
use crate::fixed_point::in_i192;
use crate::fixed_point::in_i256;
use crate::fixed_point::in_i384;
use crate::fixed_point::lemma_div_range;
use crate::fixed_point::pd_checked_add;
use crate::fixed_point::pd_checked_ceil_to;
use crate::fixed_point::pd_checked_div;
use crate::fixed_point::pd_checked_floor_to;
use crate::fixed_point::pd_checked_mul;
use crate::fixed_point::pd_checked_sub;
use crate::fixed_point::pd_eq;
use crate::fixed_point::pd_from_dec;
use crate::fixed_point::pd_le;
use crate::fixed_point::pd_lt;
use crate::fixed_point::pd_max;
use crate::fixed_point::pd_min;
use crate::fixed_point::pd_one;
use crate::fixed_point::pd_sub;
use crate::fixed_point::pd_subunit;
use crate::fixed_point::pd_subunits;
use crate::fixed_point::pd_zero;
use crate::fixed_point::pow10;
use crate::fixed_point::tdiv;
use crate::tick_store::Tick;
use crate::tick_store::TickOutside;

verus! {

/// The direction of a swap, derived from which of the pool's two tokens was
/// supplied: selling token x moves the price down, buying it moves the price
/// up.
#[derive(Clone, Copy, Debug, PartialEq, Eq, Structural)]
pub enum SwapType {
    BuyX,
    SellX,
}

/// What the swap loop does after a step: visit the next tick or stop.
#[derive(Clone, Copy, Debug, PartialEq, Eq, Structural)]
pub enum StepControl {
    Continue,
    Break,
}

/// The magnitude of a difference.
pub open spec fn abs_diff(a: int, b: int) -> int {
    if a >= b {
        a - b
    } else {
        b - a
    }
}

/// Subunits of a swap input after the one-unit precision reduction, never
/// negative.
pub open spec fn reduced_input_subunits(input_attos: int, divisibility: int) -> int {
    let v = input_attos * d_one() - pow10((18 - divisibility) as nat) * d_one();
    if v >= 0 {
        v
    } else {
        0
    }
}

/// Subunits of the gross fee taken from an input: the fixed-point product of
/// input and fee rate, which is exact because both carry 18 fractional
/// digits.
pub open spec fn fee_total_attos(input_attos: int, rate_attos: int, divisibility: int) -> int {
    ceil_div(input_attos * rate_attos, pow10((36 - divisibility) as nat))
        * pow10((18 - divisibility) as nat)
}

/// Attos of the protocol's part of a fee, floored in favour of the
/// liquidity providers.
pub open spec fn protocol_fee_attos(fee_attos: int, share_attos: int, divisibility: int) -> int {
    floor_div(tdiv(fee_attos * share_attos, d_one()), pow10((18 - divisibility) as nat))
        * pow10((18 - divisibility) as nat)
}

/// Splits a gross swap input into the net amount, the liquidity-provider
/// fee and the protocol fee.
///
/// The total fee is `ceil(gross * input_fee_rate)`; the protocol part is
/// `floor(fee_total * fee_protocol_share)`; the liquidity providers receive
/// the difference, so the three parts always recompose exactly.  Fails when
/// the net input is not positive.
pub fn input_amount_net(
    input_amount: Decimal,
    input_fee_rate: Decimal,
    fee_protocol_share: Decimal,
    divisibility: u8,
) -> (r: Result<(Decimal, Decimal, Decimal), PoolError>)
    requires
        0 <= dec_attos(input_amount) <= i192_max(),
        0 <= dec_attos(input_fee_rate) <= crate::constants::input_fee_rate_max_attos(),
        0 <= dec_attos(fee_protocol_share) <= crate::constants::fee_protocol_share_max_attos(),
        divisibility <= 18,
    ensures
        ({
            let ia = dec_attos(input_amount);
            let rate = dec_attos(input_fee_rate);
            let share = dec_attos(fee_protocol_share);
            let d = divisibility as int;
            let fee = fee_total_attos(ia, rate, d);
            let protocol = protocol_fee_attos(fee, share, d);
            &&& (r is Ok <==> ia - fee > 0)
            &&& match r {
                Ok((net, lp, prot)) => {
                    &&& dec_attos(net) == ia - fee
                    &&& dec_attos(prot) == protocol
                    &&& dec_attos(lp) == fee - protocol
                    &&& dec_attos(lp) + dec_attos(prot) == fee
                    &&& dec_attos(net) > 0
                    &&& 0 <= dec_attos(prot)
                    &&& 0 <= dec_attos(lp)
                },
                Err(e) => e == PoolError::EmptySwapInput,
            }
        }),
{
    let d = divisibility;
    proof {
        crate::fixed_point::lemma_pow10_pos((18 - d) as nat);
        crate::fixed_point::lemma_pow10_pos((36 - d) as nat);
        lemma_fee_total_bounds(dec_attos(input_amount), dec_attos(input_fee_rate), d as int);
        lemma_protocol_fee_bounds(
            fee_total_attos(dec_attos(input_amount), dec_attos(input_fee_rate), d as int),
            dec_attos(fee_protocol_share),
            d as int,
        );
        lemma_widened_product_exact(dec_attos(input_amount), dec_attos(input_fee_rate));
    }
    let input_gross = pd_from_dec(input_amount);
    let rate = pd_from_dec(input_fee_rate);
    let product = pd_checked_mul(input_gross, rate).unwrap();
    let input_fee_total = pd_checked_ceil_to(product, d).unwrap();
    let shared = dec_checked_mul(input_fee_total, fee_protocol_share).unwrap();
    let protocol_fee_input = crate::fixed_point::dec_checked_floor_to(shared, d).unwrap();
    let input_fee_lp = dec_sub(input_fee_total, protocol_fee_input);
    let input_amount_net = dec_sub(input_amount, input_fee_total);
    if dec_le(&input_amount_net, &dec_zero()) {
        return Err(PoolError::EmptySwapInput);
    }
    Ok((input_amount_net, input_fee_lp, protocol_fee_input))
}

/// The product of two atto counts, widened to subunits and divided back,
/// is exact.
pub proof fn lemma_widened_product_exact(a: int, b: int)
    ensures
        tdiv((a * d_one()) * (b * d_one()), pd_one()) == a * b,
        (a * d_one()) * (b * d_one()) == (a * b) * pd_one(),
{
    assert((a * d_one()) * (b * d_one()) == (a * b) * pd_one()) by (nonlinear_arith)
        requires pd_one() == 1000000000000000000000000000000000000int, d_one() == 1000000000000000000;
    if a * b >= 0 {
        assert((a * b) * pd_one() >= 0) by (nonlinear_arith)
            requires a * b >= 0, pd_one() > 0;
        vstd::arithmetic::div_mod::lemma_div_by_multiple(a * b, pd_one());
    } else {
        assert((a * b) * pd_one() < 0) by (nonlinear_arith)
            requires a * b < 0, pd_one() > 0;
        assert(-((a * b) * pd_one()) == (-(a * b)) * pd_one()) by (nonlinear_arith);
        vstd::arithmetic::div_mod::lemma_div_by_multiple(-(a * b), pd_one());
    }
}

/// Range facts about the gross fee of an input.
pub proof fn lemma_fee_total_bounds(ia: int, rate: int, d: int)
    requires
        0 <= ia <= i192_max(),
        0 <= rate <= crate::constants::input_fee_rate_max_attos(),
        0 <= d <= 18,
    ensures
        0 <= fee_total_attos(ia, rate, d),
        fee_total_attos(ia, rate, d) <= ia + pow10((18 - d) as nat),
        in_i384((ia * d_one()) * (rate * d_one())),
        in_i256(ia * rate),
        in_i256(tdiv((ia * d_one()) * (rate * d_one()), pd_one())),
        in_i192(fee_total_attos(ia, rate, d)),
{
    let u18 = pow10((18 - d) as nat);
    let big = pow10((36 - d) as nat);
    crate::fixed_point::lemma_pow10_pos((18 - d) as nat);
    assert(big == u18 * d_one()) by {
        crate::fixed_point::lemma_pow10_adds((18 - d) as nat, 18);
        assert(pow10(18) == d_one()) by {
            reveal_with_fuel(pow10, 19);
        }
    }
    assert(big >= 1) by (nonlinear_arith)
        requires big == u18 * d_one(), u18 >= 1, d_one() >= 1;
    lemma_widened_product_exact(ia, rate);
    assert(0 <= ia * rate && ia * rate <= ia * d_one()) by (nonlinear_arith)
        requires 0 <= ia, 0 <= rate, rate <= d_one();
    assert(in_i384((ia * d_one()) * (rate * d_one())) && in_i256(ia * rate)) by (nonlinear_arith)
        requires
            0 <= ia <= i192_max(),
            0 <= rate <= d_one(),
            (ia * d_one()) * (rate * d_one()) == (ia * rate) * pd_one(),
            ia * rate <= ia * d_one(),
            0 <= ia * rate,
    ;
    let c = ceil_div(ia * rate, big);
    crate::fixed_point::lemma_ceil_mul_bounds(ia * rate, big);
    assert(c * big <= ia * rate + big - 1);
    assert(c >= 0) by {
        vstd::arithmetic::div_mod::lemma_div_is_ordered(-(ia * rate), 0, big);
        vstd::arithmetic::div_mod::lemma_div_of0(big);
    }
    assert(c * u18 >= 0) by (nonlinear_arith)
        requires c >= 0, u18 >= 1;
    assert(u18 <= d_one()) by {
        crate::fixed_point::lemma_pow10_increases((18 - d) as nat, 18);
        assert(pow10(18) == d_one()) by {
            reveal_with_fuel(pow10, 19);
        }
    }
    assert((c * u18) * d_one() <= (ia + u18) * d_one() - 1) by (nonlinear_arith)
        requires
            c * big <= ia * rate + big - 1,
            big == u18 * d_one(),
            ia * rate <= ia * d_one(),
    ;
    assert(c * u18 <= ia + u18) by (nonlinear_arith)
        requires (c * u18) * d_one() <= (ia + u18) * d_one() - 1, d_one() >= 1;
    assert(ia * rate <= i192_max() * 100000000000000000) by {
        crate::fixed_point::lemma_mul_ordered(rate, 100000000000000000, ia);
        assert(ia * rate == rate * ia && 100000000000000000 * ia == ia * 100000000000000000)
            by (nonlinear_arith);
    }
    assert(c * big == (c * u18) * d_one()) by (nonlinear_arith)
        requires big == u18 * d_one();
    assert(c * u18 <= i192_max()) by (nonlinear_arith)
        requires
            (c * u18) * d_one() <= ia * rate + big - 1,
            ia * rate <= i192_max() * 100000000000000000,
            big == u18 * d_one(),
            u18 <= d_one(),
            d_one() == 1000000000000000000,
            i192_max() == 3138550867693340381917894711603833208051177722232017256447int,
            c * u18 >= 0,
    ;
}

/// Range facts about the protocol part of a fee.
proof fn lemma_protocol_fee_bounds(fee: int, share: int, d: int)
    requires
        0 <= fee <= i192_max() + d_one(),
        0 <= share <= crate::constants::fee_protocol_share_max_attos(),
        0 <= d <= 18,
    ensures
        0 <= protocol_fee_attos(fee, share, d) <= fee,
        in_i256(fee * share),
        in_i192(tdiv(fee * share, d_one())),
        in_i192(protocol_fee_attos(fee, share, d)),
{
    let u18 = pow10((18 - d) as nat);
    crate::fixed_point::lemma_pow10_pos((18 - d) as nat);
    assert(0 <= fee * share && fee * share <= fee * d_one()) by (nonlinear_arith)
        requires 0 <= fee, 0 <= share, share <= d_one();
    assert(in_i256(fee * share)) by (nonlinear_arith)
        requires 0 <= fee * share, fee * share <= fee * d_one(), fee <= i192_max() + d_one(),
            d_one() > 0, fee >= 0;
    let t = tdiv(fee * share, d_one());
    lemma_div_range(fee * share, d_one());
    assert(t * d_one() <= fee * share) by {
        crate::fixed_point::lemma_div_mul_bounds(fee * share, d_one());
    }
    assert(t <= fee) by (nonlinear_arith)
        requires t * d_one() <= fee * share, fee * share <= fee * d_one(), t >= 0, d_one() >= 1;
    assert(fee * share <= (i192_max() + d_one()) * 250000000000000000) by {
        crate::fixed_point::lemma_mul_ordered(share, 250000000000000000, fee);
        crate::fixed_point::lemma_mul_ordered(fee, i192_max() + d_one(), 250000000000000000);
        assert(fee * share == share * fee && 250000000000000000 * fee == fee * 250000000000000000)
            by (nonlinear_arith);
    }
    assert(t <= i192_max()) by (nonlinear_arith)
        requires
            t * d_one() <= fee * share,
            fee * share <= (i192_max() + d_one()) * 250000000000000000,
            d_one() == 1000000000000000000,
            i192_max() == 3138550867693340381917894711603833208051177722232017256447int,
            t >= 0,
    ;
    let f = floor_div(t, u18);
    lemma_div_range(t, u18);
    crate::fixed_point::lemma_div_mul_bounds(t, u18);
    assert(0 <= f * u18 <= t) by {
        assert(f * u18 >= 0) by (nonlinear_arith)
            requires f >= 0, u18 >= 1;
    }
}

/// The price that results from applying an input at a liquidity, never
/// overshooting in the trader's favour: one input unit is set aside first,
/// and the result is clamped to the current price on the safe side.
pub open spec fn new_price_subunits(
    swap_type: SwapType,
    l: int,
    ps: int,
    input_attos: int,
    d: int,
) -> int {
    let reduced = reduced_input_subunits(input_attos, d);
    match swap_type {
        SwapType::BuyX => {
            let cand = tdiv(reduced * pd_one(), l) + ps;
            if cand >= ps {
                cand
            } else {
                ps
            }
        },
        SwapType::SellX => {
            let num = tdiv(l * ps, pd_one()) + 1;
            let den = l + tdiv(reduced * ps, pd_one());
            let cand = tdiv(num * pd_one(), den) + 1;
            if cand <= ps {
                cand
            } else {
                ps
            }
        },
    }
}

/// Whether the price computation stays inside its ranges.
pub open spec fn new_price_fits(
    swap_type: SwapType,
    l: int,
    ps: int,
    input_attos: int,
    d: int,
) -> bool {
    let reduced = reduced_input_subunits(input_attos, d);
    match swap_type {
        SwapType::BuyX => {
            in_i256(tdiv(reduced * pd_one(), l))
                && in_i256(tdiv(reduced * pd_one(), l) + ps)
        },
        SwapType::SellX => {
            let num = tdiv(l * ps, pd_one()) + 1;
            let den = l + tdiv(reduced * ps, pd_one());
            in_i384(l * ps) && in_i256(tdiv(l * ps, pd_one())) && in_i256(num)
                && in_i384(reduced * ps) && in_i256(tdiv(reduced * ps, pd_one()))
                && in_i256(den) && in_i256(tdiv(num * pd_one(), den))
                && in_i256(tdiv(num * pd_one(), den) + 1)
        },
    }
}

/// Calculates the price after applying the whole input at the given
/// liquidity, adjusted against precision error so the pool never loses.
pub fn new_price(
    swap_type: SwapType,
    liquidity: PreciseDecimal,
    price_sqrt: PreciseDecimal,
    input_amount: Decimal,
    input_divisibility: u8,
) -> (r: Result<PreciseDecimal, PoolError>)
    requires
        pd_subunits(liquidity) >= 1,
        pd_subunits(price_sqrt) > 0,
        0 <= dec_attos(input_amount) <= i192_max(),
        input_divisibility <= 18,
    ensures
        ({
            let l = pd_subunits(liquidity);
            let ps = pd_subunits(price_sqrt);
            let ia = dec_attos(input_amount);
            let d = input_divisibility as int;
            &&& (r is Ok <==> new_price_fits(swap_type, l, ps, ia, d))
            &&& match r {
                Ok(p) => {
                    &&& pd_subunits(p) == new_price_subunits(swap_type, l, ps, ia, d)
                    &&& (swap_type is BuyX ==> pd_subunits(p) >= ps)
                    &&& (swap_type is SellX ==> 0 < pd_subunits(p) <= ps)
                },
                Err(e) => e == PoolError::AmountOverflow,
            }
        }),
{
    proof {
        crate::fixed_point::lemma_pow10_pos((18 - input_divisibility) as nat);
        crate::fixed_point::lemma_pow10_increases((18 - input_divisibility) as nat, 18);
        reveal_with_fuel(pow10, 19);
    }
    let unit = divisibility_unit(input_divisibility);
    let input_precise = pd_from_dec(input_amount);
    let unit_precise = pd_from_dec(unit);
    let reduced = pd_max(pd_sub(input_precise, unit_precise), pd_zero());
    proof {
        assert(pd_subunits(reduced) == reduced_input_subunits(
            dec_attos(input_amount),
            input_divisibility as int,
        ));
        assert(pd_subunits(reduced) >= 0);
    }
    match swap_type {
        SwapType::BuyX => {
            proof {
                assert(pd_subunits(reduced) * pd_one() >= 0) by (nonlinear_arith)
                    requires pd_subunits(reduced) >= 0, pd_one() > 0;
                lemma_div_range(pd_subunits(reduced) * pd_one(), pd_subunits(liquidity));
            }
            let q = match pd_checked_div(reduced, liquidity) {
                Some(v) => v,
                None => {
                    return Err(PoolError::AmountOverflow);
                },
            };
            let cand = match pd_checked_add(q, price_sqrt) {
                Some(v) => v,
                None => {
                    return Err(PoolError::AmountOverflow);
                },
            };
            Ok(pd_max(cand, price_sqrt))
        },
        SwapType::SellX => {
            let lp = match pd_checked_mul(liquidity, price_sqrt) {
                Some(v) => v,
                None => {
                    return Err(PoolError::AmountOverflow);
                },
            };
            proof {
                lemma_div_range(pd_subunits(liquidity) * pd_subunits(price_sqrt), pd_one());
            }
            let num = match pd_checked_add(lp, pd_subunit()) {
                Some(v) => v,
                None => {
                    return Err(PoolError::AmountOverflow);
                },
            };
            let rp = match pd_checked_mul(reduced, price_sqrt) {
                Some(v) => v,
                None => {
                    return Err(PoolError::AmountOverflow);
                },
            };
            proof {
                assert(pd_subunits(reduced) * pd_subunits(price_sqrt) >= 0) by (nonlinear_arith)
                    requires pd_subunits(reduced) >= 0, pd_subunits(price_sqrt) > 0;
                lemma_div_range(pd_subunits(reduced) * pd_subunits(price_sqrt), pd_one());
            }
            let den = match pd_checked_add(liquidity, rp) {
                Some(v) => v,
                None => {
                    return Err(PoolError::AmountOverflow);
                },
            };
            proof {
                assert(pd_subunits(den) >= 1);
            }
            let q = match pd_checked_div(num, den) {
                Some(v) => v,
                None => {
                    return Err(PoolError::AmountOverflow);
                },
            };
            let cand = match pd_checked_add(q, pd_subunit()) {
                Some(v) => v,
                None => {
                    return Err(PoolError::AmountOverflow);
                },
            };
            proof {
                assert(pd_subunits(num) * pd_one() >= 0) by (nonlinear_arith)
                    requires pd_subunits(num) >= 1, pd_one() > 0;
                lemma_div_range(pd_subunits(num) * pd_one(), pd_subunits(den));
            }
            Ok(pd_min(cand, price_sqrt))
        },
    }
}

/// The liquidity after applying a tick's signed delta in the direction of
/// travel: added moving right, subtracted moving left.
pub open spec fn new_liquidity_subunits(swap_type: SwapType, l: int, delta: int) -> int {
    match swap_type {
        SwapType::BuyX => l + delta,
        SwapType::SellX => l - delta,
    }
}

/// Adjusts the liquidity by a tick's signed delta for the travel direction.
pub fn new_liquidity(
    swap_type: SwapType,
    liquidity: PreciseDecimal,
    delta_liquidity: PreciseDecimal,
) -> (r: Option<PreciseDecimal>)
    ensures
        match r {
            Some(v) => in_i256(new_liquidity_subunits(swap_type, pd_subunits(liquidity), pd_subunits(delta_liquidity)))
                && pd_subunits(v) == new_liquidity_subunits(swap_type, pd_subunits(liquidity), pd_subunits(delta_liquidity)),
            None => !in_i256(new_liquidity_subunits(swap_type, pd_subunits(liquidity), pd_subunits(delta_liquidity))),
        },
{
    match swap_type {
        SwapType::BuyX => pd_checked_add(liquidity, delta_liquidity),
        SwapType::SellX => pd_checked_sub(liquidity, delta_liquidity),
    }
}

/// Attos of input needed to move the price between two values at a
/// liquidity, ceiled in the pool's favour with a one-subunit pad.
pub open spec fn input_step_attos(
    swap_type: SwapType,
    l: int,
    ps: int,
    pn: int,
    d: int,
) -> int {
    let v = match swap_type {
        SwapType::BuyX => tdiv(l * abs_diff(ps, pn), pd_one()) + 1,
        SwapType::SellX => abs_diff(tdiv(l * pd_one(), ps), tdiv(l * pd_one(), pn)) + 1,
    };
    ceil_div(v, pow10((36 - d) as nat)) * pow10((18 - d) as nat)
}

/// Whether the input-step computation stays inside its ranges.
pub open spec fn input_step_fits(
    swap_type: SwapType,
    l: int,
    ps: int,
    pn: int,
    d: int,
) -> bool {
    match swap_type {
        SwapType::BuyX => in_i384(l * abs_diff(ps, pn))
            && in_i256(tdiv(l * abs_diff(ps, pn), pd_one()))
            && in_i256(tdiv(l * abs_diff(ps, pn), pd_one()) + 1)
            && in_i192(input_step_attos(swap_type, l, ps, pn, d)),
        SwapType::SellX => in_i256(tdiv(l * pd_one(), ps))
            && in_i256(tdiv(l * pd_one(), pn))
            && in_i256(abs_diff(tdiv(l * pd_one(), ps), tdiv(l * pd_one(), pn)) + 1)
            && in_i192(input_step_attos(swap_type, l, ps, pn, d)),
    }
}

/// Calculates the input amount required to move the price from `price_sqrt`
/// to `price_next_sqrt`, rounded up in the pool's favour.
pub fn input_step(
    swap_type: SwapType,
    liquidity: PreciseDecimal,
    price_sqrt: PreciseDecimal,
    price_next_sqrt: PreciseDecimal,
    input_divisibility: u8,
) -> (r: Option<Decimal>)
    requires
        0 <= pd_subunits(liquidity) <= i256_max(),
        0 < pd_subunits(price_sqrt) <= i256_max(),
        0 < pd_subunits(price_next_sqrt) <= i256_max(),
        input_divisibility <= 18,
    ensures
        ({
            let l = pd_subunits(liquidity);
            let ps = pd_subunits(price_sqrt);
            let pn = pd_subunits(price_next_sqrt);
            let d = input_divisibility as int;
            match r {
                Some(v) => {
                    &&& input_step_fits(swap_type, l, ps, pn, d)
                    &&& dec_attos(v) == input_step_attos(swap_type, l, ps, pn, d)
                    &&& dec_attos(v) >= pow10((18 - d) as nat)
                },
                None => !input_step_fits(swap_type, l, ps, pn, d),
            }
        }),
{
    proof {
        crate::fixed_point::lemma_pow10_pos((18 - input_divisibility) as nat);
        crate::fixed_point::lemma_pow10_pos((36 - input_divisibility) as nat);
    }
    let padded = match swap_type {
        SwapType::BuyX => {
            let diff = pd_abs_diff(price_sqrt, price_next_sqrt);
            let product = match pd_checked_mul(liquidity, diff) {
                Some(v) => v,
                None => {
                    return None;
                },
            };
            proof {
                assert(pd_subunits(liquidity) * pd_subunits(diff) >= 0) by (nonlinear_arith)
                    requires pd_subunits(liquidity) >= 0, pd_subunits(diff) >= 0;
                lemma_div_range(pd_subunits(liquidity) * pd_subunits(diff), pd_one());
            }
            match pd_checked_add(product, pd_subunit()) {
                Some(v) => v,
                None => {
                    return None;
                },
            }
        },
        SwapType::SellX => {
            proof {
                assert(pd_subunits(liquidity) * pd_one() >= 0) by (nonlinear_arith)
                    requires pd_subunits(liquidity) >= 0, pd_one() > 0;
                lemma_div_range(pd_subunits(liquidity) * pd_one(), pd_subunits(price_sqrt));
                lemma_div_range(pd_subunits(liquidity) * pd_one(), pd_subunits(price_next_sqrt));
            }
            let a = match pd_checked_div(liquidity, price_sqrt) {
                Some(v) => v,
                None => {
                    return None;
                },
            };
            let b = match pd_checked_div(liquidity, price_next_sqrt) {
                Some(v) => v,
                None => {
                    return None;
                },
            };
            let diff = pd_abs_diff(a, b);
            match pd_checked_add(diff, pd_subunit()) {
                Some(v) => v,
                None => {
                    return None;
                },
            }
        },
    };
    proof {
        crate::fixed_point::lemma_ceil_mul_bounds(
            pd_subunits(padded),
            pow10((36 - input_divisibility) as nat),
        );
        let c = ceil_div(pd_subunits(padded), pow10((36 - input_divisibility) as nat));
        assert(c >= 1) by (nonlinear_arith)
            requires
                c * pow10((36 - input_divisibility) as nat) >= pd_subunits(padded),
                pd_subunits(padded) >= 1,
                pow10((36 - input_divisibility) as nat) >= 1,
        ;
        crate::fixed_point::lemma_mul_ordered(1, c, pow10((18 - input_divisibility) as nat));
    }
    pd_checked_ceil_to(padded, input_divisibility)
}

/// Attos of output released when the price moves between two values at a
/// liquidity, floored in the pool's favour.
pub open spec fn output_step_attos(
    swap_type: SwapType,
    l: int,
    ps: int,
    pn: int,
    d: int,
) -> int {
    let v = match swap_type {
        SwapType::BuyX => {
            let w = abs_diff(tdiv(l * pd_one(), ps), tdiv(l * pd_one(), pn)) - 1;
            if w >= 0 {
                w
            } else {
                0
            }
        },
        SwapType::SellX => tdiv(l * abs_diff(ps, pn), pd_one()),
    };
    floor_div(v, pow10((36 - d) as nat)) * pow10((18 - d) as nat)
}

/// Whether the output-step computation stays inside its ranges.
pub open spec fn output_step_fits(
    swap_type: SwapType,
    l: int,
    ps: int,
    pn: int,
    d: int,
) -> bool {
    match swap_type {
        SwapType::BuyX => in_i256(tdiv(l * pd_one(), ps)) && in_i256(tdiv(l * pd_one(), pn))
            && in_i192(output_step_attos(swap_type, l, ps, pn, d)),
        SwapType::SellX => in_i384(l * abs_diff(ps, pn))
            && in_i256(tdiv(l * abs_diff(ps, pn), pd_one()))
            && in_i192(output_step_attos(swap_type, l, ps, pn, d)),
    }
}

/// Calculates the output amount for a swap step, rounded down so it never
/// exceeds the exact numeric result.
pub fn output_step(
    swap_type: SwapType,
    liquidity: PreciseDecimal,
    price_sqrt: PreciseDecimal,
    price_next_sqrt: PreciseDecimal,
    output_divisibility: u8,
) -> (r: Option<Decimal>)
    requires
        0 <= pd_subunits(liquidity) <= i256_max(),
        0 < pd_subunits(price_sqrt) <= i256_max(),
        0 < pd_subunits(price_next_sqrt) <= i256_max(),
        output_divisibility <= 18,
    ensures
        ({
            let l = pd_subunits(liquidity);
            let ps = pd_subunits(price_sqrt);
            let pn = pd_subunits(price_next_sqrt);
            let d = output_divisibility as int;
            match r {
                Some(v) => {
                    &&& output_step_fits(swap_type, l, ps, pn, d)
                    &&& dec_attos(v) == output_step_attos(swap_type, l, ps, pn, d)
                    &&& dec_attos(v) >= 0
                },
                None => !output_step_fits(swap_type, l, ps, pn, d),
            }
        }),
{
    proof {
        crate::fixed_point::lemma_pow10_pos((18 - output_divisibility) as nat);
        crate::fixed_point::lemma_pow10_pos((36 - output_divisibility) as nat);
    }
    let value = match swap_type {
        SwapType::BuyX => {
            proof {
                assert(pd_subunits(liquidity) * pd_one() >= 0) by (nonlinear_arith)
                    requires pd_subunits(liquidity) >= 0, pd_one() > 0;
                lemma_div_range(pd_subunits(liquidity) * pd_one(), pd_subunits(price_sqrt));
                lemma_div_range(pd_subunits(liquidity) * pd_one(), pd_subunits(price_next_sqrt));
            }
            let a = match pd_checked_div(liquidity, price_sqrt) {
                Some(v) => v,
                None => {
                    return None;
                },
            };
            let b = match pd_checked_div(liquidity, price_next_sqrt) {
                Some(v) => v,
                None => {
                    return None;
                },
            };
            let diff = pd_abs_diff(a, b);
            pd_max(pd_sub(diff, pd_subunit()), pd_zero())
        },
        SwapType::SellX => {
            let diff = pd_abs_diff(price_sqrt, price_next_sqrt);
            let product = match pd_checked_mul(liquidity, diff) {
                Some(v) => v,
                None => {
                    return None;
                },
            };
            proof {
                assert(pd_subunits(liquidity) * pd_subunits(diff) >= 0) by (nonlinear_arith)
                    requires pd_subunits(liquidity) >= 0, pd_subunits(diff) >= 0;
                lemma_div_range(pd_subunits(liquidity) * pd_subunits(diff), pd_one());
            }
            product
        },
    };
    proof {
        crate::fixed_point::lemma_div_mul_bounds(
            pd_subunits(value),
            pow10((36 - output_divisibility) as nat),
        );
        lemma_div_range(pd_subunits(value), pow10((36 - output_divisibility) as nat));
        crate::fixed_point::lemma_mul_ordered(
            0,
            floor_div(pd_subunits(value), pow10((36 - output_divisibility) as nat)),
            pow10((18 - output_divisibility) as nat),
        );
    }
    pd_checked_floor_to(value, output_divisibility)
}

/// The magnitude of the difference of two precise values, both within
/// range.
fn pd_abs_diff(a: PreciseDecimal, b: PreciseDecimal) -> (r: PreciseDecimal)
    requires
        0 <= pd_subunits(a) <= i256_max(),
        0 <= pd_subunits(b) <= i256_max(),
    ensures
        pd_subunits(r) == abs_diff(pd_subunits(a), pd_subunits(b)),
        pd_subunits(r) >= 0,
{
    if pd_le(&b, &a) {
        pd_sub(a, b)
    } else {
        pd_sub(b, a)
    }
}

/// Computes the effective growth of an additive accumulator strictly inside
/// a tick range, from the global value and the two boundary ticks' outside
/// values.
pub open spec fn value_in_range_spec(
    g: int,
    outside_left: int,
    outside_right: int,
    active_tick: int,
    left_bound: int,
    right_bound: int,
) -> int {
    let below_left = if active_tick >= left_bound {
        outside_left
    } else {
        g - outside_left
    };
    let above_right = if active_tick >= right_bound {
        g - outside_right
    } else {
        outside_right
    };
    g - below_left - above_right
}

/// Whether the range-growth computation stays inside 256 bits: each
/// intermediate of the taken branch is in range.
pub open spec fn value_in_range_fits(
    g: int,
    outside_left: int,
    outside_right: int,
    active_tick: int,
    left_bound: int,
    right_bound: int,
) -> bool {
    let below_left = if active_tick >= left_bound {
        outside_left
    } else {
        g - outside_left
    };
    let above_right = if active_tick >= right_bound {
        g - outside_right
    } else {
        outside_right
    };
    &&& (active_tick >= left_bound || in_i256(g - outside_left))
    &&& (active_tick >= right_bound ==> in_i256(g - outside_right))
    &&& in_i256(g - below_left)
    &&& in_i256(g - below_left - above_right)
}

/// The tick index an absent active tick stands for: below every real tick.
pub open spec fn active_tick_or_min(active_tick: Option<i32>) -> int {
    match active_tick {
        Some(t) => t as int,
        None => i32::MIN as int,
    }
}

/// Calculates the effective value of an additive accumulator inside a tick
/// range, subtracting the parts that accrued outside the bounds.
pub fn value_in_range(
    value_global: PreciseDecimal,
    value_outside_left: PreciseDecimal,
    value_outside_right: PreciseDecimal,
    active_tick: Option<i32>,
    left_bound: i32,
    right_bound: i32,
) -> (r: Option<PreciseDecimal>)
    ensures
        ({
            let spec_result = value_in_range_spec(
                pd_subunits(value_global),
                pd_subunits(value_outside_left),
                pd_subunits(value_outside_right),
                active_tick_or_min(active_tick),
                left_bound as int,
                right_bound as int,
            );
            let fits = value_in_range_fits(
                pd_subunits(value_global),
                pd_subunits(value_outside_left),
                pd_subunits(value_outside_right),
                active_tick_or_min(active_tick),
                left_bound as int,
                right_bound as int,
            );
            &&& (r is Some <==> fits)
            &&& match r {
                Some(v) => pd_subunits(v) == spec_result && in_i256(pd_subunits(v)),
                None => true,
            }
        }),
{
    let active: i32 = match active_tick {
        Some(t) => t,
        None => i32::MIN,
    };
    let below_left = if active >= left_bound {
        value_outside_left
    } else {
        match pd_checked_sub(value_global, value_outside_left) {
            Some(v) => v,
            None => {
                return None;
            },
        }
    };
    let above_right = if active >= right_bound {
        match pd_checked_sub(value_global, value_outside_right) {
            Some(v) => v,
            None => {
                return None;
            },
        }
    } else {
        value_outside_right
    };
    let partial = match pd_checked_sub(value_global, below_left) {
        Some(v) => v,
        None => {
            return None;
        },
    };
    match pd_checked_sub(partial, above_right) {
        Some(v) => Some(v),
        None => None,
    }
}

/// The seconds analogue of `value_in_range`, on native integers: both
/// accumulators count elapsed seconds, which stay far inside the range.
pub fn value_in_range_seconds(
    value_global: i64,
    value_outside_left: i64,
    value_outside_right: i64,
    active_tick: Option<i32>,
    left_bound: i32,
    right_bound: i32,
) -> (r: i64)
    requires
        0 <= value_global <= 0x1000000000000,
        0 <= value_outside_left <= 0x1000000000000,
        0 <= value_outside_right <= 0x1000000000000,
    ensures
        r == value_in_range_spec(
            value_global as int,
            value_outside_left as int,
            value_outside_right as int,
            active_tick_or_min(active_tick),
            left_bound as int,
            right_bound as int,
        ),
{
    let active: i32 = match active_tick {
        Some(t) => t,
        None => i32::MIN,
    };
    let below_left: i64 = if active >= left_bound {
        value_outside_left
    } else {
        value_global - value_outside_left
    };
    let above_right: i64 = if active >= right_bound {
        value_global - value_outside_right
    } else {
        value_outside_right
    };
    value_global - below_left - above_right
}

/// The global fee accumulator of the x token axis for a swap state:
/// buying x collects fees in y, so x is then the output axis.
pub open spec fn global_x_axis_subunits(s: SwapState) -> int {
    match s.swap_type {
        SwapType::BuyX => pd_subunits(s.global_output_fee_lp),
        SwapType::SellX => pd_subunits(s.global_input_fee_lp),
    }
}

/// The global fee accumulator of the y token axis for a swap state.
pub open spec fn global_y_axis_subunits(s: SwapState) -> int {
    match s.swap_type {
        SwapType::BuyX => pd_subunits(s.global_input_fee_lp),
        SwapType::SellX => pd_subunits(s.global_output_fee_lp),
    }
}

/// Attos of liquidity-provider fee realized by a full step that consumed
/// `step_attos` of net input: the inverse of the net split — gross it up by
/// the input share, take the difference, keep the liquidity providers'
/// share of it, floored to the divisibility.
pub open spec fn full_step_fee_attos(
    step_attos: int,
    input_share_attos: int,
    fee_lp_share_attos: int,
    d: int,
) -> int {
    let grossed = tdiv(step_attos * d_one() * pd_one(), input_share_attos * d_one());
    let difference = grossed - step_attos * d_one();
    let product = tdiv(difference * (fee_lp_share_attos * d_one()), pd_one());
    floor_div(product, pow10((36 - d) as nat)) * pow10((18 - d) as nat)
}

/// Attos of the protocol fee recomputed from the realized liquidity-provider
/// fee when a swap ends with an unused remainder: the grossed-up difference,
/// ceiled to the divisibility.
pub open spec fn partial_protocol_fee_attos(
    fee_lp_attos: int,
    fee_lp_share_attos: int,
    d: int,
) -> int {
    let grossed = tdiv(fee_lp_attos * d_one() * pd_one(), fee_lp_share_attos * d_one());
    let difference = grossed - fee_lp_attos * d_one();
    ceil_div(difference, pow10((36 - d) as nat)) * pow10((18 - d) as nat)
}

/// Whether a tick crossing stays inside its ranges: the adjusted liquidity
/// is in range and non-negative, both outside flips fit, and the clock has
/// not run backwards past the tick's record.
pub open spec fn cross_tick_fits(s: SwapState, t: Tick) -> bool {
    let next = new_liquidity_subunits(s.swap_type, pd_subunits(s.liquidity), pd_subunits(t.delta_liquidity));
    &&& in_i256(next)
    &&& next >= 0
    &&& in_i256(global_x_axis_subunits(s) - pd_subunits(t.x_fee_outside))
    &&& in_i256(global_y_axis_subunits(s) - pd_subunits(t.y_fee_outside))
    &&& t.seconds_outside <= s.global_seconds
}

/// Whether a partial step stays inside its ranges.
pub open spec fn partial_step_fits(s: SwapState, pn: int) -> bool {
    let l = pd_subunits(s.liquidity);
    let ps = pd_subunits(s.price_sqrt);
    let od = s.output_divisibility as int;
    &&& output_step_fits(s.swap_type, l, ps, pn, od)
    &&& in_i192(dec_attos(s.output) + output_step_attos(s.swap_type, l, ps, pn, od))
    &&& in_i192(dec_attos(s.input) + dec_attos(s.remainder))
    &&& in_i256(fee_per_liquidity_subunits(dec_attos(s.remainder_fee_lp), l))
    &&& in_i256(pd_subunits(s.global_input_fee_lp)
        + fee_per_liquidity_subunits(dec_attos(s.remainder_fee_lp), l))
    &&& pd_subunits(s.global_input_fee_lp)
        + fee_per_liquidity_subunits(dec_attos(s.remainder_fee_lp), l) >= 0
    &&& in_i192(dec_attos(s.fee_lp_input) + dec_attos(s.remainder_fee_lp))
}

/// Whether a full step to a tick boundary stays inside its ranges.
pub open spec fn full_step_fits(s: SwapState, tick_price: int) -> bool {
    let l = pd_subunits(s.liquidity);
    let ps = pd_subunits(s.price_sqrt);
    let d = s.input_divisibility as int;
    let od = s.output_divisibility as int;
    let step = input_step_attos(s.swap_type, l, ps, tick_price, d);
    let grossed = tdiv(step * d_one() * pd_one(), dec_attos(s.input_share) * d_one());
    let difference = grossed - step * d_one();
    let product = tdiv(difference * (dec_attos(s.fee_lp_share) * d_one()), pd_one());
    let delta = full_step_fee_attos(step, dec_attos(s.input_share), dec_attos(s.fee_lp_share), d);
    &&& output_step_fits(s.swap_type, l, ps, tick_price, od)
    &&& in_i192(dec_attos(s.output) + output_step_attos(s.swap_type, l, ps, tick_price, od))
    &&& input_step_fits(s.swap_type, l, ps, tick_price, d)
    &&& in_i192(dec_attos(s.input) + step)
    &&& in_i256(grossed)
    &&& in_i256(difference)
    &&& in_i384(difference * (dec_attos(s.fee_lp_share) * d_one()))
    &&& in_i256(product)
    &&& in_i192(delta)
    &&& delta >= 0
    &&& in_i256(fee_per_liquidity_subunits(delta, l))
    &&& in_i256(pd_subunits(s.global_input_fee_lp) + fee_per_liquidity_subunits(delta, l))
    &&& in_i192(dec_attos(s.fee_lp_input) + delta)
    &&& in_i192(dec_attos(s.remainder_fee_lp) - delta)
}

/// Whether the protocol-fee recomputation of a swap that kept a remainder
/// stays inside its ranges and yields a non-negative amount.
pub open spec fn protocol_settlement_fits(s: SwapState) -> bool {
    let lp = dec_attos(s.fee_lp_input) * d_one();
    let grossed = tdiv(
        dec_attos(s.fee_lp_input) * d_one() * pd_one(),
        dec_attos(s.fee_lp_share) * d_one(),
    );
    let partial = partial_protocol_fee_attos(
        dec_attos(s.fee_lp_input),
        dec_attos(s.fee_lp_share),
        s.input_divisibility as int,
    );
    &&& in_i256(grossed)
    &&& in_i256(grossed - lp)
    &&& in_i192(partial)
    &&& partial >= 0
}

/// Subunits added to the per-liquidity global fee accumulator when a fee
/// amount is spread over the active liquidity.
pub open spec fn fee_per_liquidity_subunits(fee_attos: int, liquidity_subunits: int) -> int {
    tdiv(fee_attos * d_one() * pd_one(), liquidity_subunits)
}

/// The transient state of one swap call, mutated tick by tick.
pub struct SwapState {
    pub swap_type: SwapType,
    pub input: Decimal,
    pub input_divisibility: u8,
    pub output: Decimal,
    pub output_divisibility: u8,
    pub remainder: Decimal,
    pub remainder_fee_lp: Decimal,
    pub liquidity: PreciseDecimal,
    pub active_tick: Option<i32>,
    pub price_sqrt: PreciseDecimal,
    pub price_sqrt_sell_cache: Option<PreciseDecimal>,
    pub input_fee_rate: Decimal,
    pub fee_protocol_share: Decimal,
    pub fee_lp_share: Decimal,
    pub input_share: Decimal,
    pub fee_lp_input: Decimal,
    pub fee_protocol_input: Decimal,
    pub fee_protocol_max: Decimal,
    pub global_input_fee_lp: PreciseDecimal,
    pub global_output_fee_lp: PreciseDecimal,
    pub global_seconds: u64,
    pub crossed_ticks: Vec<TickOutside>,
}

impl SwapState {
    /// Internal consistency of a swap state: every amount within its range,
    /// the price positive, the shares in their configured windows, and a
    /// cached sell lookahead never above the current price.
    pub open spec fn wf(self) -> bool {
        &&& self.input_divisibility <= 18
        &&& self.output_divisibility <= 18
        &&& 0 < pd_subunits(self.price_sqrt) <= i256_max()
        &&& 0 <= pd_subunits(self.liquidity) <= i256_max()
        &&& 0 <= dec_attos(self.input) <= i192_max()
        &&& 0 <= dec_attos(self.output) <= i192_max()
        &&& in_i192(dec_attos(self.remainder))
        &&& in_i192(dec_attos(self.remainder_fee_lp))
        &&& 0 <= dec_attos(self.fee_lp_input) <= i192_max()
        &&& 0 <= dec_attos(self.fee_protocol_input) <= i192_max()
        &&& 0 <= dec_attos(self.fee_protocol_max) <= i192_max()
        &&& 900000000000000000 <= dec_attos(self.input_share) <= d_one()
        &&& 750000000000000000 <= dec_attos(self.fee_lp_share) <= d_one()
        &&& 0 <= pd_subunits(self.global_input_fee_lp) <= i256_max()
        &&& 0 <= pd_subunits(self.global_output_fee_lp) <= i256_max()
        &&& match self.price_sqrt_sell_cache {
            Some(c) => 0 < pd_subunits(c) <= pd_subunits(self.price_sqrt),
            None => true,
        }
    }

    /// The configuration fields a step never touches.
    pub open spec fn same_config(self, other: SwapState) -> bool {
        &&& self.swap_type == other.swap_type
        &&& self.input_divisibility == other.input_divisibility
        &&& self.output_divisibility == other.output_divisibility
        &&& self.input_fee_rate == other.input_fee_rate
        &&& self.fee_protocol_share == other.fee_protocol_share
        &&& self.fee_lp_share == other.fee_lp_share
        &&& self.input_share == other.input_share
        &&& self.fee_protocol_max == other.fee_protocol_max
        &&& self.global_seconds == other.global_seconds
    }

    /// The fee value still to be settled: what the liquidity providers have
    /// realized plus what is still attached to the unconsumed remainder.
    /// Every step preserves this sum exactly.
    pub open spec fn lp_fee_sum(self) -> int {
        dec_attos(self.fee_lp_input) + dec_attos(self.remainder_fee_lp)
    }

    /// Calculates the price the remaining input would move the pool to at
    /// the given liquidity.
    pub fn new_price(&self, liquidity: PreciseDecimal) -> (r: Result<PreciseDecimal, PoolError>)
        requires
            self.wf(),
            pd_subunits(liquidity) >= 1,
            0 <= dec_attos(self.remainder),
        ensures
            ({
                let l = pd_subunits(liquidity);
                let ps = pd_subunits(self.price_sqrt);
                let ia = dec_attos(self.remainder);
                let d = self.input_divisibility as int;
                &&& (r is Ok <==> new_price_fits(self.swap_type, l, ps, ia, d))
                &&& match r {
                    Ok(p) => {
                        &&& pd_subunits(p) == new_price_subunits(self.swap_type, l, ps, ia, d)
                        &&& (self.swap_type is BuyX ==> pd_subunits(p) >= ps)
                        &&& (self.swap_type is SellX ==> 0 < pd_subunits(p) <= ps)
                    },
                    Err(e) => e == PoolError::AmountOverflow,
                }
            }),
    {
        new_price(
            self.swap_type,
            liquidity,
            self.price_sqrt,
            self.remainder,
            self.input_divisibility,
        )
    }

    /// Whether the current sub-pool has no active liquidity.
    pub fn liquidity_is_zero(&self) -> (r: bool)
        ensures
            r == (pd_subunits(self.liquidity) == 0),
    {
        pd_eq(&self.liquidity, &pd_zero())
    }

    /// Whether the input has been fully consumed.
    pub fn remainder_is_empty(&self) -> (r: bool)
        ensures
            r == (dec_attos(self.remainder) <= 0),
    {
        dec_le(&self.remainder, &dec_zero())
    }

    /// Whether a candidate price stops short of the tick boundary, so the
    /// step is partial and the swap ends inside the current range.
    pub fn not_reaching_tick(
        &self,
        tick_price_sqrt: PreciseDecimal,
        price_new_sqrt: PreciseDecimal,
    ) -> (r: bool)
        ensures
            r == match self.swap_type {
                SwapType::BuyX => pd_subunits(price_new_sqrt) < pd_subunits(tick_price_sqrt),
                SwapType::SellX => pd_subunits(tick_price_sqrt) < pd_subunits(price_new_sqrt),
            },
    {
        match self.swap_type {
            SwapType::BuyX => pd_lt(&price_new_sqrt, &tick_price_sqrt),
            SwapType::SellX => pd_lt(&tick_price_sqrt, &price_new_sqrt),
        }
    }

    /// Crosses a tick: applies its signed liquidity delta for the travel
    /// direction, advances the active-tick pointer, and flips the tick's
    /// outside accumulators to `global - old`, recording the crossing.
    pub fn cross_tick(&mut self, crossed_tick: &mut Tick, next_active_tick_index: i32) -> (r: Result<(), PoolError>)
        requires
            old(self).wf(),
            old(self).crossed_ticks@.len() < usize::MAX,
        ensures
            match r {
                Ok(()) => {
                    &&& final(self).wf()
                    &&& old(self).same_config(*final(self))
                    &&& final(self).lp_fee_sum() == old(self).lp_fee_sum()
                    &&& pd_subunits(final(self).liquidity) == new_liquidity_subunits(
                        old(self).swap_type,
                        pd_subunits(old(self).liquidity),
                        pd_subunits(old(crossed_tick).delta_liquidity),
                    )
                    &&& pd_subunits(final(self).liquidity) >= 0
                    &&& final(self).active_tick == Some(next_active_tick_index)
                    &&& final(self).price_sqrt == old(self).price_sqrt
                    &&& final(self).price_sqrt_sell_cache == old(self).price_sqrt_sell_cache
                    &&& final(self).remainder == old(self).remainder
                    &&& final(self).remainder_fee_lp == old(self).remainder_fee_lp
                    &&& final(self).fee_lp_input == old(self).fee_lp_input
                    &&& final(self).fee_protocol_input == old(self).fee_protocol_input
                    &&& final(self).input == old(self).input
                    &&& final(self).output == old(self).output
                    &&& final(self).global_input_fee_lp == old(self).global_input_fee_lp
                    &&& final(self).global_output_fee_lp == old(self).global_output_fee_lp
                    &&& final(crossed_tick).index == old(crossed_tick).index
                    &&& final(crossed_tick).price_sqrt == old(crossed_tick).price_sqrt
                    &&& final(crossed_tick).delta_liquidity == old(crossed_tick).delta_liquidity
                    &&& final(crossed_tick).total_liquidity == old(crossed_tick).total_liquidity
                    &&& final(crossed_tick).seconds_outside <= old(self).global_seconds
                    // The flips at the heart of the range-growth
                    // accounting: each outside value becomes global - old.
                    &&& pd_subunits(final(crossed_tick).x_fee_outside)
                        == global_x_axis_subunits(*old(self))
                            - pd_subunits(old(crossed_tick).x_fee_outside)
                    &&& pd_subunits(final(crossed_tick).y_fee_outside)
                        == global_y_axis_subunits(*old(self))
                            - pd_subunits(old(crossed_tick).y_fee_outside)
                    &&& final(crossed_tick).seconds_outside
                        == old(self).global_seconds - old(crossed_tick).seconds_outside
                    &&& final(self).crossed_ticks@.len() == old(self).crossed_ticks@.len() + 1
                    &&& final(self).crossed_ticks@ =~= old(self).crossed_ticks@.push(
                        final(self).crossed_ticks@.last(),
                    )
                    &&& final(self).crossed_ticks@.last().index == old(crossed_tick).index
                    &&& final(self).crossed_ticks@.last().x_fee == final(crossed_tick).x_fee_outside
                    &&& final(self).crossed_ticks@.last().y_fee == final(crossed_tick).y_fee_outside
                    &&& final(self).crossed_ticks@.last().seconds
                        == final(crossed_tick).seconds_outside
                    &&& in_i256(pd_subunits(final(crossed_tick).x_fee_outside))
                    &&& in_i256(pd_subunits(final(crossed_tick).y_fee_outside))
                },
                Err(e) => e == PoolError::AmountOverflow,
            },
            r is Ok <==> cross_tick_fits(*old(self), *old(crossed_tick)),
    {
        let next_liquidity = match new_liquidity(self.swap_type, self.liquidity, crossed_tick.delta_liquidity) {
            Some(v) => v,
            None => {
                return Err(PoolError::AmountOverflow);
            },
        };
        if pd_lt(&next_liquidity, &pd_zero()) {
            // A negative active liquidity means corrupted tick bookkeeping.
            return Err(PoolError::AmountOverflow);
        }
        self.liquidity = next_liquidity;
        self.active_tick = Some(next_active_tick_index);
        let (global_x_fee_lp, global_y_fee_lp) = match self.swap_type {
            SwapType::BuyX => (self.global_output_fee_lp, self.global_input_fee_lp),
            SwapType::SellX => (self.global_input_fee_lp, self.global_output_fee_lp),
        };
        let new_x_outside = match pd_checked_sub(global_x_fee_lp, crossed_tick.x_fee_outside) {
            Some(v) => v,
            None => {
                return Err(PoolError::AmountOverflow);
            },
        };
        let new_y_outside = match pd_checked_sub(global_y_fee_lp, crossed_tick.y_fee_outside) {
            Some(v) => v,
            None => {
                return Err(PoolError::AmountOverflow);
            },
        };
        if crossed_tick.seconds_outside > self.global_seconds {
            return Err(PoolError::AmountOverflow);
        }
        crossed_tick.x_fee_outside = new_x_outside;
        crossed_tick.y_fee_outside = new_y_outside;
        crossed_tick.seconds_outside = self.global_seconds - crossed_tick.seconds_outside;
        self.crossed_ticks.push(TickOutside {
            index: crossed_tick.index,
            x_fee: crossed_tick.x_fee_outside,
            y_fee: crossed_tick.y_fee_outside,
            seconds: crossed_tick.seconds_outside,
        });
        Ok(())
    }

    /// Executes a partial step: the price movement stays inside the current
    /// range, all remaining input and its fee are consumed, and the swap
    /// ends.
    pub fn partial_step_swap(&mut self, price_new_sqrt: PreciseDecimal) -> (r: Result<(), PoolError>)
        requires
            old(self).wf(),
            pd_subunits(old(self).liquidity) >= 1,
            0 < pd_subunits(price_new_sqrt) <= i256_max(),
            0 <= dec_attos(old(self).remainder),
            0 <= dec_attos(old(self).remainder_fee_lp),
        ensures
            match r {
                Ok(()) => {
                    &&& final(self).wf()
                    &&& old(self).same_config(*final(self))
                    &&& final(self).lp_fee_sum() == old(self).lp_fee_sum()
                    &&& final(self).price_sqrt == price_new_sqrt
                    &&& final(self).price_sqrt_sell_cache is None
                    &&& dec_attos(final(self).remainder) == 0
                    &&& dec_attos(final(self).remainder_fee_lp) == 0
                    &&& dec_attos(final(self).input) == dec_attos(old(self).input) + dec_attos(old(self).remainder)
                    &&& dec_attos(final(self).output) == dec_attos(old(self).output) + output_step_attos(
                        old(self).swap_type,
                        pd_subunits(old(self).liquidity),
                        pd_subunits(old(self).price_sqrt),
                        pd_subunits(price_new_sqrt),
                        old(self).output_divisibility as int,
                    )
                    &&& dec_attos(final(self).fee_lp_input) == dec_attos(old(self).fee_lp_input)
                        + dec_attos(old(self).remainder_fee_lp)
                    &&& pd_subunits(final(self).global_input_fee_lp)
                        == pd_subunits(old(self).global_input_fee_lp)
                            + fee_per_liquidity_subunits(
                            dec_attos(old(self).remainder_fee_lp),
                            pd_subunits(old(self).liquidity),
                        )
                    &&& pd_subunits(final(self).global_input_fee_lp)
                        >= pd_subunits(old(self).global_input_fee_lp)
                    &&& final(self).global_output_fee_lp == old(self).global_output_fee_lp
                    &&& final(self).liquidity == old(self).liquidity
                    &&& final(self).active_tick == old(self).active_tick
                    &&& final(self).crossed_ticks == old(self).crossed_ticks
                },
                Err(e) => e == PoolError::AmountOverflow,
            },
            r is Ok <==> partial_step_fits(*old(self), pd_subunits(price_new_sqrt)),
    {
        let output = match output_step(
            self.swap_type,
            self.liquidity,
            self.price_sqrt,
            price_new_sqrt,
            self.output_divisibility,
        ) {
            Some(v) => v,
            None => {
                return Err(PoolError::AmountOverflow);
            },
        };
        let new_output = match dec_checked_add(self.output, output) {
            Some(v) => v,
            None => {
                return Err(PoolError::AmountOverflow);
            },
        };
        let new_input = match dec_checked_add(self.input, self.remainder) {
            Some(v) => v,
            None => {
                return Err(PoolError::AmountOverflow);
            },
        };
        let fee_precise = pd_from_dec(self.remainder_fee_lp);
        proof {
            let fa = dec_attos(old(self).remainder_fee_lp);
            assert(fa * d_one() >= 0) by (nonlinear_arith)
                requires fa >= 0, d_one() > 0;
            assert(fa * d_one() * pd_one() >= 0) by (nonlinear_arith)
                requires fa * d_one() >= 0, pd_one() > 0;
            lemma_div_range(fa * d_one() * pd_one(), pd_subunits(old(self).liquidity));
        }
        let fee_per_liquidity = match pd_checked_div(fee_precise, self.liquidity) {
            Some(v) => v,
            None => {
                return Err(PoolError::AmountOverflow);
            },
        };
        let new_global = match pd_checked_add(self.global_input_fee_lp, fee_per_liquidity) {
            Some(v) => v,
            None => {
                return Err(PoolError::AmountOverflow);
            },
        };
        if pd_lt(&new_global, &pd_zero()) {
            return Err(PoolError::AmountOverflow);
        }
        let new_fee_lp = match dec_checked_add(self.fee_lp_input, self.remainder_fee_lp) {
            Some(v) => v,
            None => {
                return Err(PoolError::AmountOverflow);
            },
        };
        self.output = new_output;
        self.input = new_input;
        self.remainder = dec_zero();
        self.global_input_fee_lp = new_global;
        self.fee_lp_input = new_fee_lp;
        self.remainder_fee_lp = dec_zero();
        self.price_sqrt = price_new_sqrt;
        self.price_sqrt_sell_cache = None;
        Ok(())
    }

    /// Executes a full step: the price reaches the tick boundary exactly;
    /// the input needed for the move and its realized fee are consumed and
    /// the remainder shrinks.
    pub fn full_step_swap(&mut self, tick: &Tick) -> (r: Result<(), PoolError>)
        requires
            old(self).wf(),
            pd_subunits(old(self).liquidity) >= 1,
            0 < pd_subunits(tick.price_sqrt) <= i256_max(),
            0 <= dec_attos(old(self).remainder),
            old(self).price_sqrt_sell_cache is None,
        ensures
            match r {
                Ok(()) => {
                    &&& final(self).wf()
                    &&& old(self).same_config(*final(self))
                    &&& final(self).lp_fee_sum() == old(self).lp_fee_sum()
                    &&& final(self).price_sqrt == tick.price_sqrt
                    &&& dec_attos(final(self).remainder) == dec_attos(old(self).remainder)
                        - input_step_attos(
                            old(self).swap_type,
                            pd_subunits(old(self).liquidity),
                            pd_subunits(old(self).price_sqrt),
                            pd_subunits(tick.price_sqrt),
                            old(self).input_divisibility as int,
                        )
                    &&& dec_attos(final(self).remainder) < dec_attos(old(self).remainder)
                    &&& dec_attos(final(self).input) == dec_attos(old(self).input)
                        + input_step_attos(
                            old(self).swap_type,
                            pd_subunits(old(self).liquidity),
                            pd_subunits(old(self).price_sqrt),
                            pd_subunits(tick.price_sqrt),
                            old(self).input_divisibility as int,
                        )
                    &&& dec_attos(final(self).output) == dec_attos(old(self).output)
                        + output_step_attos(
                            old(self).swap_type,
                            pd_subunits(old(self).liquidity),
                            pd_subunits(old(self).price_sqrt),
                            pd_subunits(tick.price_sqrt),
                            old(self).output_divisibility as int,
                        )
                    // The realized liquidity-provider fee of this step and
                    // its spread over the active liquidity.
                    &&& ({
                        let step = input_step_attos(
                            old(self).swap_type,
                            pd_subunits(old(self).liquidity),
                            pd_subunits(old(self).price_sqrt),
                            pd_subunits(tick.price_sqrt),
                            old(self).input_divisibility as int,
                        );
                        let delta = full_step_fee_attos(
                            step,
                            dec_attos(old(self).input_share),
                            dec_attos(old(self).fee_lp_share),
                            old(self).input_divisibility as int,
                        );
                        &&& dec_attos(final(self).fee_lp_input)
                            == dec_attos(old(self).fee_lp_input) + delta
                        &&& dec_attos(final(self).remainder_fee_lp)
                            == dec_attos(old(self).remainder_fee_lp) - delta
                        &&& pd_subunits(final(self).global_input_fee_lp)
                            == pd_subunits(old(self).global_input_fee_lp)
                                + fee_per_liquidity_subunits(
                                delta,
                                pd_subunits(old(self).liquidity),
                            )
                    })
                    &&& pd_subunits(final(self).global_input_fee_lp)
                        >= pd_subunits(old(self).global_input_fee_lp)
                    &&& final(self).global_output_fee_lp == old(self).global_output_fee_lp
                    &&& final(self).liquidity == old(self).liquidity
                    &&& final(self).active_tick == old(self).active_tick
                    &&& final(self).crossed_ticks == old(self).crossed_ticks
                    &&& final(self).price_sqrt_sell_cache == old(self).price_sqrt_sell_cache
                },
                Err(e) => e == PoolError::AmountOverflow,
            },
            r is Ok <==> full_step_fits(*old(self), pd_subunits(tick.price_sqrt)),
    {
        proof {
            crate::fixed_point::lemma_pow10_pos((18 - old(self).input_divisibility) as nat);
        }
        let output = match output_step(
            self.swap_type,
            self.liquidity,
            self.price_sqrt,
            tick.price_sqrt,
            self.output_divisibility,
        ) {
            Some(v) => v,
            None => {
                return Err(PoolError::AmountOverflow);
            },
        };
        let new_output = match dec_checked_add(self.output, output) {
            Some(v) => v,
            None => {
                return Err(PoolError::AmountOverflow);
            },
        };
        let step_input = match input_step(
            self.swap_type,
            self.liquidity,
            self.price_sqrt,
            tick.price_sqrt,
            self.input_divisibility,
        ) {
            Some(v) => v,
            None => {
                return Err(PoolError::AmountOverflow);
            },
        };
        let new_input = match dec_checked_add(self.input, step_input) {
            Some(v) => v,
            None => {
                return Err(PoolError::AmountOverflow);
            },
        };
        if dec_lt(&new_input, &dec_zero()) {
            return Err(PoolError::AmountOverflow);
        }
        let new_remainder = dec_sub(self.remainder, step_input);

        // Realize the liquidity-provider fee carried by the consumed input:
        // the inverse of the net split, floored.
        let step_precise = pd_from_dec(step_input);
        let share_precise = pd_from_dec(self.input_share);
        proof {
            let sa = dec_attos(step_input);
            let sh = dec_attos(old(self).input_share);
            assert(sa * d_one() >= 0 && sa * d_one() * pd_one() >= 0) by (nonlinear_arith)
                requires sa >= 0, d_one() > 0, pd_one() > 0;
            assert(sh * d_one() >= 900000000000000000) by (nonlinear_arith)
                requires sh >= 900000000000000000, d_one() >= 1;
            lemma_div_range(sa * d_one() * pd_one(), sh * d_one());
        }
        let gross_step = match pd_checked_div(step_precise, share_precise) {
            Some(v) => v,
            None => {
                return Err(PoolError::AmountOverflow);
            },
        };
        let total_fee_step = match pd_checked_sub(gross_step, step_precise) {
            Some(v) => v,
            None => {
                return Err(PoolError::AmountOverflow);
            },
        };
        let share_lp = pd_from_dec(self.fee_lp_share);
        let fee_product = match pd_checked_mul(total_fee_step, share_lp) {
            Some(v) => v,
            None => {
                return Err(PoolError::AmountOverflow);
            },
        };
        let fee_lp_delta = match pd_checked_floor_to(fee_product, self.input_divisibility) {
            Some(v) => v,
            None => {
                return Err(PoolError::AmountOverflow);
            },
        };
        if dec_lt(&fee_lp_delta, &dec_zero()) {
            return Err(PoolError::AmountOverflow);
        }
        let delta_precise = pd_from_dec(fee_lp_delta);
        proof {
            let da = dec_attos(fee_lp_delta);
            assert(da * d_one() >= 0 && da * d_one() * pd_one() >= 0) by (nonlinear_arith)
                requires da >= 0, d_one() > 0, pd_one() > 0;
            lemma_div_range(da * d_one() * pd_one(), pd_subunits(old(self).liquidity));
        }
        let fee_per_liquidity = match pd_checked_div(delta_precise, self.liquidity) {
            Some(v) => v,
            None => {
                return Err(PoolError::AmountOverflow);
            },
        };
        let new_global = match pd_checked_add(self.global_input_fee_lp, fee_per_liquidity) {
            Some(v) => v,
            None => {
                return Err(PoolError::AmountOverflow);
            },
        };
        let new_fee_lp = match dec_checked_add(self.fee_lp_input, fee_lp_delta) {
            Some(v) => v,
            None => {
                return Err(PoolError::AmountOverflow);
            },
        };
        let new_remainder_fee = match dec_checked_sub(self.remainder_fee_lp, fee_lp_delta) {
            Some(v) => v,
            None => {
                return Err(PoolError::AmountOverflow);
            },
        };
        self.output = new_output;
        self.input = new_input;
        self.remainder = new_remainder;
        self.global_input_fee_lp = new_global;
        self.fee_lp_input = new_fee_lp;
        self.remainder_fee_lp = new_remainder_fee;
        self.price_sqrt = tick.price_sqrt;
        Ok(())
    }

    /// Settles the protocol fee: the full reserved amount when the input
    /// was exhausted, else an amount recomputed from the realized
    /// liquidity-provider fee, ceiled and capped at the reserved maximum.
    pub fn take_protocol_fees(&mut self) -> (r: Result<(), PoolError>)
        requires
            old(self).wf(),
        ensures
            match r {
                Ok(()) => {
                    &&& final(self).wf()
                    &&& old(self).same_config(*final(self))
                    &&& final(self).price_sqrt == old(self).price_sqrt
                    &&& final(self).liquidity == old(self).liquidity
                    &&& final(self).active_tick == old(self).active_tick
                    &&& final(self).remainder == old(self).remainder
                    &&& final(self).remainder_fee_lp == old(self).remainder_fee_lp
                    &&& final(self).fee_lp_input == old(self).fee_lp_input
                    &&& final(self).input == old(self).input
                    &&& final(self).output == old(self).output
                    &&& final(self).global_input_fee_lp == old(self).global_input_fee_lp
                    &&& final(self).global_output_fee_lp == old(self).global_output_fee_lp
                    &&& final(self).crossed_ticks == old(self).crossed_ticks
                    &&& final(self).price_sqrt_sell_cache == old(self).price_sqrt_sell_cache
                    &&& dec_attos(final(self).fee_protocol_input) <= dec_attos(old(self).fee_protocol_max)
                    &&& (dec_attos(old(self).remainder) <= 0
                        ==> final(self).fee_protocol_input == old(self).fee_protocol_max)
                    // A remainder was left: the protocol part is recomputed
                    // from the realized liquidity-provider fee, capped at
                    // the reserved maximum.
                    &&& (dec_attos(old(self).remainder) > 0 ==> ({
                        let partial = partial_protocol_fee_attos(
                            dec_attos(old(self).fee_lp_input),
                            dec_attos(old(self).fee_lp_share),
                            old(self).input_divisibility as int,
                        );
                        dec_attos(final(self).fee_protocol_input)
                            == if dec_attos(old(self).fee_protocol_max) <= partial {
                            dec_attos(old(self).fee_protocol_max)
                        } else {
                            partial
                        }
                    }))
                },
                Err(e) => e == PoolError::AmountOverflow,
            },
            r is Ok <==> dec_attos(old(self).remainder) <= 0 || protocol_settlement_fits(
                *old(self),
            ),
    {
        if self.remainder_is_empty() {
            self.fee_protocol_input = self.fee_protocol_max;
            return Ok(());
        }
        let fee_precise = pd_from_dec(self.fee_lp_input);
        let share_precise = pd_from_dec(self.fee_lp_share);
        proof {
            let fa = dec_attos(old(self).fee_lp_input);
            let sh = dec_attos(old(self).fee_lp_share);
            assert(fa * d_one() >= 0 && fa * d_one() * pd_one() >= 0) by (nonlinear_arith)
                requires fa >= 0, d_one() > 0, pd_one() > 0;
            assert(sh * d_one() >= 1) by (nonlinear_arith)
                requires sh >= 750000000000000000, d_one() >= 1;
            lemma_div_range(fa * d_one() * pd_one(), sh * d_one());
        }
        let grossed = match pd_checked_div(fee_precise, share_precise) {
            Some(v) => v,
            None => {
                return Err(PoolError::AmountOverflow);
            },
        };
        let difference = match pd_checked_sub(grossed, fee_precise) {
            Some(v) => v,
            None => {
                return Err(PoolError::AmountOverflow);
            },
        };
        let partial_protocol_fee = match pd_checked_ceil_to(difference, self.input_divisibility) {
            Some(v) => v,
            None => {
                return Err(PoolError::AmountOverflow);
            },
        };
        if dec_lt(&partial_protocol_fee, &dec_zero()) {
            return Err(PoolError::AmountOverflow);
        }
        self.fee_protocol_input = dec_min(self.fee_protocol_max, partial_protocol_fee);
        Ok(())
    }

    /// Chooses between a partial and a full step for the candidate price.
    /// A partial step ends the swap; a full step leaves the loop to cross
    /// the tick and continue.
    pub fn step_swap(
        &mut self,
        tick: &Tick,
        price_new_sqrt: PreciseDecimal,
    ) -> (r: Result<Option<StepControl>, PoolError>)
        requires
            old(self).wf(),
            pd_subunits(old(self).liquidity) >= 1,
            0 < pd_subunits(tick.price_sqrt) <= i256_max(),
            0 < pd_subunits(price_new_sqrt) <= i256_max(),
            0 <= dec_attos(old(self).remainder),
            0 <= dec_attos(old(self).remainder_fee_lp),
            old(self).price_sqrt_sell_cache is None,
        ensures
            match r {
                Ok(control) => {
                    &&& final(self).wf()
                    &&& old(self).same_config(*final(self))
                    &&& final(self).lp_fee_sum() == old(self).lp_fee_sum()
                    &&& final(self).liquidity == old(self).liquidity
                    &&& final(self).active_tick == old(self).active_tick
                    &&& final(self).crossed_ticks == old(self).crossed_ticks
                    &&& dec_attos(final(self).input) + dec_attos(final(self).remainder)
                        == dec_attos(old(self).input) + dec_attos(old(self).remainder)
                    &&& pd_subunits(final(self).global_input_fee_lp)
                        >= pd_subunits(old(self).global_input_fee_lp)
                    &&& final(self).global_output_fee_lp == old(self).global_output_fee_lp
                    &&& match control {
                        Some(StepControl::Break) => {
                            &&& final(self).price_sqrt == price_new_sqrt
                            &&& final(self).price_sqrt_sell_cache is None
                            &&& dec_attos(final(self).remainder) == 0
                            &&& dec_attos(final(self).remainder_fee_lp) == 0
                            &&& dec_attos(final(self).input)
                                == dec_attos(old(self).input) + dec_attos(old(self).remainder)
                            &&& dec_attos(final(self).output) == dec_attos(old(self).output)
                                + output_step_attos(
                                old(self).swap_type,
                                pd_subunits(old(self).liquidity),
                                pd_subunits(old(self).price_sqrt),
                                pd_subunits(price_new_sqrt),
                                old(self).output_divisibility as int,
                            )
                            &&& dec_attos(final(self).fee_lp_input)
                                == dec_attos(old(self).fee_lp_input)
                                    + dec_attos(old(self).remainder_fee_lp)
                            &&& (old(self).swap_type is BuyX
                                ==> pd_subunits(price_new_sqrt) < pd_subunits(tick.price_sqrt))
                            &&& (old(self).swap_type is SellX
                                ==> pd_subunits(price_new_sqrt) > pd_subunits(tick.price_sqrt))
                        },
                        Some(StepControl::Continue) => false,
                        None => {
                            &&& final(self).price_sqrt == tick.price_sqrt
                            &&& final(self).price_sqrt_sell_cache == old(self).price_sqrt_sell_cache
                            &&& dec_attos(final(self).remainder) < dec_attos(old(self).remainder)
                            &&& (old(self).swap_type is BuyX
                                ==> pd_subunits(price_new_sqrt) >= pd_subunits(tick.price_sqrt))
                            &&& (old(self).swap_type is SellX
                                ==> pd_subunits(price_new_sqrt) <= pd_subunits(tick.price_sqrt))
                        },
                    }
                },
                Err(e) => e == PoolError::AmountOverflow,
            },
            r is Ok <==> (if (match old(self).swap_type {
                SwapType::BuyX => pd_subunits(price_new_sqrt) < pd_subunits(tick.price_sqrt),
                SwapType::SellX => pd_subunits(tick.price_sqrt) < pd_subunits(price_new_sqrt),
            }) {
                partial_step_fits(*old(self), pd_subunits(price_new_sqrt))
            } else {
                full_step_fits(*old(self), pd_subunits(tick.price_sqrt))
            }),
    {
        if self.not_reaching_tick(tick.price_sqrt, price_new_sqrt) {
            match self.partial_step_swap(price_new_sqrt) {
                Ok(()) => Ok(Some(StepControl::Break)),
                Err(e) => Err(e),
            }
        } else {
            match self.full_step_swap(tick) {
                Ok(()) => Ok(None),
                Err(e) => Err(e),
            }
        }
    }
}


/// Executes one tick of a buying swap: traverses a liquidity gap, takes a
/// partial step and stops, or takes a full step, crosses the tick and
/// continues.  Buying never decreases the price, and the step never moves
/// it past the visited tick.
pub fn buy_step(state: &mut SwapState, tick: &mut Tick, tick_index: i32) -> (r: Result<StepControl, PoolError>)
    requires
        old(state).wf(),
        old(state).swap_type is BuyX,
        old(state).price_sqrt_sell_cache is None,
        0 < dec_attos(old(state).remainder),
        old(state).crossed_ticks@.len() < usize::MAX,
        old(tick).index == tick_index,
        0 < pd_subunits(old(tick).price_sqrt) <= i256_max(),
        in_i256(pd_subunits(old(tick).x_fee_outside)),
        in_i256(pd_subunits(old(tick).y_fee_outside)),
        old(tick).seconds_outside <= old(state).global_seconds,
        pd_subunits(old(state).price_sqrt) <= pd_subunits(old(tick).price_sqrt),
    ensures
        match r {
            Ok(control) => {
                &&& final(state).wf()
                &&& old(state).same_config(*final(state))
                &&& final(state).lp_fee_sum() == old(state).lp_fee_sum()
                &&& final(state).price_sqrt_sell_cache is None
                &&& (control is Continue ==> 0 < dec_attos(final(state).remainder))
                &&& dec_attos(final(state).input) + dec_attos(final(state).remainder)
                    == dec_attos(old(state).input) + dec_attos(old(state).remainder)
                &&& final(state).crossed_ticks@.len() <= old(state).crossed_ticks@.len() + 1
                &&& pd_subunits(final(state).global_input_fee_lp)
                    >= pd_subunits(old(state).global_input_fee_lp)
                &&& final(state).global_output_fee_lp == old(state).global_output_fee_lp
                &&& pd_subunits(old(state).price_sqrt) <= pd_subunits(final(state).price_sqrt)
                &&& pd_subunits(final(state).price_sqrt) <= pd_subunits(old(tick).price_sqrt)
                &&& final(tick).index == old(tick).index
                &&& final(tick).price_sqrt == old(tick).price_sqrt
                &&& final(tick).delta_liquidity == old(tick).delta_liquidity
                &&& final(tick).total_liquidity == old(tick).total_liquidity
                &&& in_i256(pd_subunits(final(tick).x_fee_outside))
                &&& in_i256(pd_subunits(final(tick).y_fee_outside))
                &&& final(tick).seconds_outside <= old(state).global_seconds
                &&& ((final(state).active_tick == old(state).active_tick
                    && final(state).liquidity == old(state).liquidity)
                    || (final(state).active_tick == Some(tick_index)
                        && pd_subunits(final(state).price_sqrt) == pd_subunits(old(tick).price_sqrt)
                        && pd_subunits(final(state).liquidity)
                            == pd_subunits(old(state).liquidity)
                                + pd_subunits(old(tick).delta_liquidity)))
                &&& (control is Continue ==> final(state).active_tick == Some(tick_index)
                    && pd_subunits(final(state).price_sqrt) == pd_subunits(old(tick).price_sqrt))
            },
            Err(e) => e == PoolError::AmountOverflow,
        },
        // Success is owed on the gap path and on a partial step; a full
        // step additionally needs the crossing of the updated state to
        // fit.
        ({
            let s = *old(state);
            let l = pd_subunits(s.liquidity);
            let np = new_price_subunits(
                SwapType::BuyX,
                l,
                pd_subunits(s.price_sqrt),
                dec_attos(s.remainder),
                s.input_divisibility as int,
            );
            &&& (l == 0 ==> (r is Ok <==> cross_tick_fits(s, *old(tick))))
            // Gap traversal: the price snaps to the tick, the tick is
            // crossed, and no input is consumed.
            &&& (l == 0 && cross_tick_fits(s, *old(tick)) ==> ({
                &&& r == Result::<StepControl, PoolError>::Ok(StepControl::Continue)
                &&& final(state).input == s.input
                &&& final(state).output == s.output
                &&& final(state).remainder == s.remainder
                &&& final(state).remainder_fee_lp == s.remainder_fee_lp
                &&& final(state).fee_lp_input == s.fee_lp_input
                &&& pd_subunits(final(state).liquidity)
                    == pd_subunits(old(tick).delta_liquidity)
                &&& final(state).active_tick == Some(tick_index)
                &&& pd_subunits(final(state).price_sqrt) == pd_subunits(old(tick).price_sqrt)
                &&& pd_subunits(final(tick).x_fee_outside) == global_x_axis_subunits(s)
                    - pd_subunits(old(tick).x_fee_outside)
                &&& pd_subunits(final(tick).y_fee_outside) == global_y_axis_subunits(s)
                    - pd_subunits(old(tick).y_fee_outside)
                &&& final(tick).seconds_outside
                    == s.global_seconds - old(tick).seconds_outside
            }))
            &&& (l >= 1 && dec_attos(s.remainder_fee_lp) >= 0 && new_price_fits(
                SwapType::BuyX,
                l,
                pd_subunits(s.price_sqrt),
                dec_attos(s.remainder),
                s.input_divisibility as int,
            ) && np < pd_subunits(old(tick).price_sqrt) && partial_step_fits(s, np) ==> ({
                &&& r == Result::<StepControl, PoolError>::Ok(StepControl::Break)
                &&& pd_subunits(final(state).price_sqrt) == np
                &&& dec_attos(final(state).remainder) == 0
                &&& dec_attos(final(state).remainder_fee_lp) == 0
                &&& dec_attos(final(state).input) == dec_attos(s.input) + dec_attos(s.remainder)
                &&& dec_attos(final(state).output) == dec_attos(s.output) + output_step_attos(
                    SwapType::BuyX,
                    l,
                    pd_subunits(s.price_sqrt),
                    np,
                    s.output_divisibility as int,
                )
                &&& dec_attos(final(state).fee_lp_input)
                    == dec_attos(s.fee_lp_input) + dec_attos(s.remainder_fee_lp)
                &&& final(state).liquidity == s.liquidity
                &&& final(state).active_tick == s.active_tick
                &&& *final(tick) == *old(tick)
                &&& final(state).crossed_ticks@ == s.crossed_ticks@
            }))
        }),
{
    if state.liquidity_is_zero() {
        // Liquidity gap: snap the price to the tick and cross it without
        // consuming input.
        state.price_sqrt = tick.price_sqrt;
        match state.cross_tick(tick, tick_index) {
            Ok(()) => {},
            Err(e) => {
                return Err(e);
            },
        }
        return Ok(StepControl::Continue);
    }
    if pd_lt(&state.liquidity, &pd_zero()) {
        // A negative active liquidity means corrupted tick bookkeeping.
        return Err(PoolError::AmountOverflow);
    }
    if dec_le(&state.remainder, &dec_zero()) {
        // Nothing left to consume; treat the step as already complete.
        return Ok(StepControl::Break);
    }

    if dec_lt(&state.remainder_fee_lp, &dec_zero()) {
        // Negative residual fee means corrupted fee bookkeeping.
        return Err(PoolError::AmountOverflow);
    }
    let price_new_sqrt = match state.new_price(state.liquidity) {
        Ok(p) => p,
        Err(e) => {
            return Err(e);
        },
    };
    let control = match state.step_swap(tick, price_new_sqrt) {
        Ok(c) => c,
        Err(e) => {
            return Err(e);
        },
    };
    if let Some(control) = control {
        return Ok(control);
    }

    match state.cross_tick(tick, tick_index) {
        Ok(()) => {},
        Err(e) => {
            return Err(e);
        },
    }
    if state.remainder_is_empty() {
        return Ok(StepControl::Break);
    }
    Ok(StepControl::Continue)
}

/// Executes one tick of a selling swap: snaps across a liquidity gap,
/// takes a partial or full step, and crosses toward the next lower tick
/// while a remainder is left and more liquidity exists below, caching the
/// lookahead price computed for the next range.  Selling never increases
/// the price.
pub fn sell_step(state: &mut SwapState, tick: &mut Tick, next_tick_index: Option<i32>) -> (r: Result<StepControl, PoolError>)
    requires
        old(state).wf(),
        old(state).swap_type is SellX,
        0 <= dec_attos(old(state).remainder),
        old(state).crossed_ticks@.len() < usize::MAX,
        0 < pd_subunits(old(tick).price_sqrt) <= i256_max(),
        in_i256(pd_subunits(old(tick).x_fee_outside)),
        in_i256(pd_subunits(old(tick).y_fee_outside)),
        old(tick).seconds_outside <= old(state).global_seconds,
        pd_subunits(old(tick).price_sqrt) <= pd_subunits(old(state).price_sqrt),
    ensures
        match r {
            Ok(control) => {
                &&& final(state).wf()
                &&& old(state).same_config(*final(state))
                &&& final(state).lp_fee_sum() == old(state).lp_fee_sum()
                &&& (control is Continue ==> 0 < dec_attos(final(state).remainder))
                &&& dec_attos(final(state).input) + dec_attos(final(state).remainder)
                    == dec_attos(old(state).input) + dec_attos(old(state).remainder)
                &&& final(state).crossed_ticks@.len() <= old(state).crossed_ticks@.len() + 1
                &&& pd_subunits(final(state).global_input_fee_lp)
                    >= pd_subunits(old(state).global_input_fee_lp)
                &&& final(state).global_output_fee_lp == old(state).global_output_fee_lp
                &&& pd_subunits(final(state).price_sqrt) <= pd_subunits(old(state).price_sqrt)
                &&& pd_subunits(old(tick).price_sqrt) <= pd_subunits(final(state).price_sqrt)
                &&& final(tick).index == old(tick).index
                &&& final(tick).price_sqrt == old(tick).price_sqrt
                &&& final(tick).delta_liquidity == old(tick).delta_liquidity
                &&& final(tick).total_liquidity == old(tick).total_liquidity
                &&& in_i256(pd_subunits(final(tick).x_fee_outside))
                &&& in_i256(pd_subunits(final(tick).y_fee_outside))
                &&& final(tick).seconds_outside <= old(state).global_seconds
                &&& ((final(state).active_tick == old(state).active_tick
                    && final(state).liquidity == old(state).liquidity)
                    || (next_tick_index is Some
                        && final(state).active_tick == Some(next_tick_index.unwrap())
                        && pd_subunits(final(state).liquidity)
                            == pd_subunits(old(state).liquidity)
                                - pd_subunits(old(tick).delta_liquidity)))
                &&& (control is Continue
                    ==> pd_subunits(final(state).price_sqrt) == pd_subunits(old(tick).price_sqrt)
                    && next_tick_index is Some
                    && final(state).active_tick == Some(next_tick_index.unwrap()))
            },
            Err(e) => e == PoolError::AmountOverflow,
        },
        // Success is owed where the step stops without touching a tick,
        // and on a partial step computed afresh; a full step additionally
        // needs the crossing of the updated state to fit.
        ({
            let s = *old(state);
            let l = pd_subunits(s.liquidity);
            let np = new_price_subunits(
                SwapType::SellX,
                l,
                pd_subunits(s.price_sqrt),
                dec_attos(s.remainder),
                s.input_divisibility as int,
            );
            &&& ((l == 0 || pd_subunits(s.price_sqrt) == pd_subunits(old(tick).price_sqrt))
                && (dec_attos(s.remainder) <= 0 || next_tick_index is None) ==> r is Ok)
            // Gap traversal: the price snaps down to the tick, the tick is
            // crossed toward the next one below, and no input is consumed.
            &&& (l == 0 && dec_attos(s.remainder) > 0 && next_tick_index is Some
                && cross_tick_fits(s, *old(tick)) ==> ({
                &&& r == Result::<StepControl, PoolError>::Ok(StepControl::Continue)
                &&& final(state).input == s.input
                &&& final(state).output == s.output
                &&& final(state).remainder == s.remainder
                &&& final(state).remainder_fee_lp == s.remainder_fee_lp
                &&& final(state).fee_lp_input == s.fee_lp_input
                &&& pd_subunits(final(state).liquidity)
                    == -pd_subunits(old(tick).delta_liquidity)
                &&& final(state).active_tick == Some(next_tick_index.unwrap())
                &&& pd_subunits(final(state).price_sqrt) == pd_subunits(old(tick).price_sqrt)
                &&& pd_subunits(final(tick).x_fee_outside) == global_x_axis_subunits(s)
                    - pd_subunits(old(tick).x_fee_outside)
                &&& pd_subunits(final(tick).y_fee_outside) == global_y_axis_subunits(s)
                    - pd_subunits(old(tick).y_fee_outside)
                &&& final(tick).seconds_outside
                    == s.global_seconds - old(tick).seconds_outside
            }))
            &&& (l >= 1 && pd_subunits(s.price_sqrt) != pd_subunits(old(tick).price_sqrt)
                && dec_attos(s.remainder) > 0 && dec_attos(s.remainder_fee_lp) >= 0
                && s.price_sqrt_sell_cache is None && new_price_fits(
                SwapType::SellX,
                l,
                pd_subunits(s.price_sqrt),
                dec_attos(s.remainder),
                s.input_divisibility as int,
            ) && pd_subunits(old(tick).price_sqrt) < np && partial_step_fits(s, np) ==> ({
                &&& r == Result::<StepControl, PoolError>::Ok(StepControl::Break)
                &&& pd_subunits(final(state).price_sqrt) == np
                &&& dec_attos(final(state).remainder) == 0
                &&& dec_attos(final(state).remainder_fee_lp) == 0
                &&& dec_attos(final(state).input) == dec_attos(s.input) + dec_attos(s.remainder)
                &&& dec_attos(final(state).output) == dec_attos(s.output) + output_step_attos(
                    SwapType::SellX,
                    l,
                    pd_subunits(s.price_sqrt),
                    np,
                    s.output_divisibility as int,
                )
                &&& dec_attos(final(state).fee_lp_input)
                    == dec_attos(s.fee_lp_input) + dec_attos(s.remainder_fee_lp)
                &&& final(state).liquidity == s.liquidity
                &&& final(state).active_tick == s.active_tick
                &&& *final(tick) == *old(tick)
                &&& final(state).crossed_ticks@ == s.crossed_ticks@
            }))
        }),
{
    if state.liquidity_is_zero() {
        // Liquidity gap: snap the price down to the tick.
        state.price_sqrt = tick.price_sqrt;
        state.price_sqrt_sell_cache = None;
    }
    if pd_lt(&state.liquidity, &pd_zero()) {
        // A negative active liquidity means corrupted tick bookkeeping.
        return Err(PoolError::AmountOverflow);
    }

    if !pd_eq(&state.price_sqrt, &tick.price_sqrt) {
        if dec_le(&state.remainder, &dec_zero()) {
            return Ok(StepControl::Break);
        }
        if dec_lt(&state.remainder_fee_lp, &dec_zero()) {
            // Negative residual fee means corrupted fee bookkeeping.
            return Err(PoolError::AmountOverflow);
        }
        let price_new_sqrt = match state.price_sqrt_sell_cache {
            Some(cached) => {
                state.price_sqrt_sell_cache = None;
                cached
            },
            None => {
                match state.new_price(state.liquidity) {
                    Ok(p) => p,
                    Err(e) => {
                        return Err(e);
                    },
                }
            },
        };
        let control = match state.step_swap(tick, price_new_sqrt) {
            Ok(c) => c,
            Err(e) => {
                return Err(e);
            },
        };
        if let Some(control) = control {
            return Ok(control);
        }
    }

    // Cross the tick only if a remainder is left and liquidity exists
    // further left.
    if state.remainder_is_empty() {
        return Ok(StepControl::Break);
    }
    let next_index = match next_tick_index {
        Some(i) => i,
        None => {
            return Ok(StepControl::Break);
        },
    };
    let next_liquidity = match new_liquidity(state.swap_type, state.liquidity, tick.delta_liquidity) {
        Some(v) => v,
        None => {
            return Err(PoolError::AmountOverflow);
        },
    };
    if pd_lt(&next_liquidity, &pd_zero()) {
        return Err(PoolError::AmountOverflow);
    }
    if state.liquidity_is_zero() || pd_eq(&next_liquidity, &pd_zero()) {
        match state.cross_tick(tick, next_index) {
            Ok(()) => {},
            Err(e) => {
                return Err(e);
            },
        }
        return Ok(StepControl::Continue);
    }

    let price_new_sqrt = match state.new_price(next_liquidity) {
        Ok(p) => p,
        Err(e) => {
            return Err(e);
        },
    };
    if pd_eq(&price_new_sqrt, &state.price_sqrt) {
        return Ok(StepControl::Break);
    }
    match state.cross_tick(tick, next_index) {
        Ok(()) => {},
        Err(e) => {
            return Err(e);
        },
    }
    state.price_sqrt_sell_cache = Some(price_new_sqrt);
    Ok(StepControl::Continue)
}


} // verus!
