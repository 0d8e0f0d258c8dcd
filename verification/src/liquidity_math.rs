//! Liquidity math: how much liquidity a pair of token amounts can fund
//! between two price bounds, and which amounts a given liquidity releases.
//!
//! The rounding is asymmetric on purpose.  When liquidity is added, a small
//! safety margin — two minimal units of each token — is set aside first, the
//! funded liquidity is rounded down, and the amounts actually consumed are
//! rounded up; the margin absorbs the upward rounding, so the pool never
//! under-collects.  When liquidity is removed, every amount is rounded down,
//! so the pool never over-pays.

use vstd::prelude::*;
use scrypto::prelude::Decimal;
use scrypto::prelude::PreciseDecimal;
use crate::constants::divisibility_unit;
use crate::errors::PoolError;
use crate::fixed_point::ceil_div;
use crate::fixed_point::floor_div;
use crate::fixed_point::pd_checked_add;
use crate::fixed_point::pd_checked_floor_to;
use crate::fixed_point::pd_max;
use crate::fixed_point::d_one;
use crate::fixed_point::dec_add;
use crate::fixed_point::dec_atto;
use crate::fixed_point::dec_attos;
use crate::fixed_point::dec_le;
use crate::fixed_point::dec_sub;
use crate::fixed_point::dec_zero;
use crate::fixed_point::i192_max;
use crate::fixed_point::i256_max;
use crate::fixed_point::in_i192;
use crate::fixed_point::in_i256;
use crate::fixed_point::in_i384;
use crate::fixed_point::lemma_ceil_mul_bounds;
use crate::fixed_point::lemma_div_mul_bounds;
use crate::fixed_point::lemma_div_ordered;
use crate::fixed_point::lemma_div_ordered_by_denominator;
use crate::fixed_point::lemma_div_range;
use crate::fixed_point::lemma_mul_ordered;
use crate::fixed_point::lemma_pow10_adds;
use crate::fixed_point::lemma_pow10_increases;
use crate::fixed_point::lemma_pow10_pos;
use crate::fixed_point::pd_add;
use crate::fixed_point::pd_checked_ceil_to;
use crate::fixed_point::pd_checked_div;
use crate::fixed_point::pd_checked_mul;
use crate::fixed_point::pd_from_dec;
use crate::fixed_point::pd_le;
use crate::fixed_point::pd_min;
use crate::fixed_point::pd_one;
use crate::fixed_point::pd_one_value;
use crate::fixed_point::pd_sub;
use crate::fixed_point::pd_subunit;
use crate::fixed_point::pd_subunits;
use crate::fixed_point::pd_zero;
use crate::fixed_point::pow10;
use crate::fixed_point::tdiv;

verus! {

/// Attos of the safety margin for a token: two minimal units.
pub open spec fn margin_attos(divisibility: int) -> int {
    2 * pow10((18 - divisibility) as nat)
}

/// Attos of an amount after the safety margin is set aside, never negative.
pub open spec fn safe_amount_attos(amount: int, divisibility: int) -> int {
    if amount - margin_attos(divisibility) >= 0 {
        amount - margin_attos(divisibility)
    } else {
        0
    }
}

/// Subunits of the reciprocal of a price, in the 36-digit fixed-point
/// division.
pub open spec fn inverse_subunits(price: int) -> int {
    tdiv(pd_one() * pd_one(), price)
}

/// Subunits of the token-x scale between two prices: the difference of the
/// reciprocals, padded by one subunit so the scale never understates the
/// amount a unit of liquidity requires.
pub open spec fn x_scale_subunits(lower: int, upper: int) -> int {
    inverse_subunits(lower) + 1 - inverse_subunits(upper)
}

/// Subunits of the token-y scale between two prices: their difference.
pub open spec fn y_scale_subunits(lower: int, upper: int) -> int {
    upper - lower
}

/// Subunits of the liquidity an amount funds at a scale: the amount divided
/// by the scale in the 36-digit fixed-point division.
pub open spec fn liquidity_from_amount(amount_attos: int, scale: int) -> int {
    tdiv(amount_attos * d_one() * pd_one(), scale)
}

/// Attos the pool consumes for a liquidity at a scale: the product, plus one
/// atto against the downward truncation, ceiled to the token's divisibility.
pub open spec fn consumed_attos(liquidity: int, scale: int, divisibility: int) -> int {
    ceil_div(tdiv(liquidity * scale, pd_one()) + d_one(), pow10((36 - divisibility) as nat))
        * pow10((18 - divisibility) as nat)
}

/// The amount reported as consumed: the full provided amount where it
/// overshoots the computed one by no more than the margin, else the computed
/// one.
pub open spec fn adjusted_attos(amount: int, allowed: int, margin: int) -> int {
    if amount - allowed <= margin {
        amount
    } else {
        allowed
    }
}

/// Subunits of the liquidity the provided amounts fund between the bounds at
/// the given price.
pub open spec fn allowed_liquidity_subunits(
    xa: int, xd: int, ya: int, yd: int, ps: int, pl: int, pr: int,
) -> int {
    if ps <= pl {
        liquidity_from_amount(safe_amount_attos(xa, xd), x_scale_subunits(pl, pr))
    } else if ps >= pr {
        liquidity_from_amount(safe_amount_attos(ya, yd), y_scale_subunits(pl, pr))
    } else {
        let xl = liquidity_from_amount(safe_amount_attos(xa, xd), x_scale_subunits(ps, pr));
        let yl = liquidity_from_amount(safe_amount_attos(ya, yd), y_scale_subunits(pl, ps));
        if xl <= yl {
            xl
        } else {
            yl
        }
    }
}

/// Attos of token x consumed for that liquidity.
pub open spec fn allowed_x_attos(
    xa: int, xd: int, ya: int, yd: int, ps: int, pl: int, pr: int,
) -> int {
    if ps <= pl {
        xa
    } else if ps >= pr {
        0
    } else {
        adjusted_attos(
            xa,
            consumed_attos(
                allowed_liquidity_subunits(xa, xd, ya, yd, ps, pl, pr),
                x_scale_subunits(ps, pr),
                xd,
            ),
            margin_attos(xd),
        )
    }
}

/// Attos of token y consumed for that liquidity.
pub open spec fn allowed_y_attos(
    xa: int, xd: int, ya: int, yd: int, ps: int, pl: int, pr: int,
) -> int {
    if ps <= pl {
        0
    } else if ps >= pr {
        ya
    } else {
        adjusted_attos(
            ya,
            consumed_attos(
                allowed_liquidity_subunits(xa, xd, ya, yd, ps, pl, pr),
                y_scale_subunits(pl, ps),
                yd,
            ),
            margin_attos(yd),
        )
    }
}

/// Whether the liquidity divisions stay inside 256 bits; the only
/// intermediates of the computation that can leave their range.
pub open spec fn allowed_amounts_fits(
    xa: int, xd: int, ya: int, yd: int, ps: int, pl: int, pr: int,
) -> bool {
    if ps <= pl {
        in_i256(liquidity_from_amount(safe_amount_attos(xa, xd), x_scale_subunits(pl, pr)))
    } else if ps >= pr {
        in_i256(liquidity_from_amount(safe_amount_attos(ya, yd), y_scale_subunits(pl, pr)))
    } else {
        in_i256(liquidity_from_amount(safe_amount_attos(xa, xd), x_scale_subunits(ps, pr)))
            && in_i256(liquidity_from_amount(safe_amount_attos(ya, yd), y_scale_subunits(pl, ps)))
    }
}

/// Subtracts a precision margin from an amount, never below zero.
pub fn subtract_precision_margin(amount: Decimal, margin: Decimal) -> (r: Decimal)
    requires
        0 <= dec_attos(amount) <= i192_max(),
        0 <= dec_attos(margin) <= 2000000000000000000,
    ensures
        dec_attos(r) == if dec_attos(amount) - dec_attos(margin) >= 0 {
            dec_attos(amount) - dec_attos(margin)
        } else {
            0
        },
{
    if dec_le(&amount, &margin) {
        dec_zero()
    } else {
        dec_sub(amount, margin)
    }
}

/// Clamps the computed consumed amount back to the provided amount where the
/// difference is within the margin.
pub fn adjust_within_margin(amount: Decimal, allowed_amount: Decimal, margin: Decimal) -> (r: Decimal)
    requires
        dec_attos(allowed_amount) <= dec_attos(amount),
        in_i192(dec_attos(amount) - dec_attos(allowed_amount)),
    ensures
        dec_attos(r) == adjusted_attos(dec_attos(amount), dec_attos(allowed_amount), dec_attos(margin)),
{
    let difference = dec_sub(amount, allowed_amount);
    if dec_le(&difference, &margin) {
        amount
    } else {
        allowed_amount
    }
}

/// The token-x scale between two prices, padded by one subunit.
pub fn x_scale_safe(lower_price_sqrt: PreciseDecimal, upper_price_sqrt: PreciseDecimal) -> (r: PreciseDecimal)
    requires
        0 < pd_subunits(lower_price_sqrt) <= pd_subunits(upper_price_sqrt),
        pd_subunits(upper_price_sqrt) <= i256_max(),
    ensures
        pd_subunits(r) == x_scale_subunits(pd_subunits(lower_price_sqrt), pd_subunits(upper_price_sqrt)),
        1 <= pd_subunits(r) <= pd_one() * pd_one() + 1,
{
    let one = pd_one_value();
    proof {
        lemma_div_range(pd_one() * pd_one(), pd_subunits(lower_price_sqrt));
        lemma_div_range(pd_one() * pd_one(), pd_subunits(upper_price_sqrt));
        lemma_div_ordered_by_denominator(
            pd_one() * pd_one(),
            pd_subunits(lower_price_sqrt),
            pd_subunits(upper_price_sqrt),
        );
    }
    let inv_lower = pd_checked_div(one, lower_price_sqrt).unwrap();
    let one_again = pd_one_value();
    let inv_upper = pd_checked_div(one_again, upper_price_sqrt).unwrap();
    let padded = pd_add(inv_lower, pd_subunit());
    pd_sub(padded, inv_upper)
}

/// The token-y scale between two prices: their difference.
pub fn y_scale_safe(lower_price_sqrt: PreciseDecimal, upper_price_sqrt: PreciseDecimal) -> (r: PreciseDecimal)
    requires
        0 < pd_subunits(lower_price_sqrt) < pd_subunits(upper_price_sqrt),
        pd_subunits(upper_price_sqrt) <= i256_max(),
    ensures
        pd_subunits(r) == y_scale_subunits(pd_subunits(lower_price_sqrt), pd_subunits(upper_price_sqrt)),
        pd_subunits(r) >= 1,
{
    pd_sub(upper_price_sqrt, lower_price_sqrt)
}

/// A consumed amount stays within the provided amount: the liquidity was
/// rounded down from the amount net of a two-unit margin, so rounding the
/// consumed amount up to one unit cannot exceed what was provided.
pub proof fn lemma_consumed_within_amount(a: int, d: int, l: int, s: int)
    requires
        0 <= d <= 18,
        s >= 1,
        l >= 0,
        0 <= a <= i192_max(),
        safe_amount_attos(a, d) >= 1,
        l <= liquidity_from_amount(safe_amount_attos(a, d), s),
    ensures
        0 <= consumed_attos(l, s, d) <= a - pow10((18 - d) as nat),
        in_i384(l * s),
        in_i256(tdiv(l * s, pd_one())),
        in_i256(tdiv(l * s, pd_one()) + d_one()),
        0 <= tdiv(l * s, pd_one()) + d_one(),
        in_i192(consumed_attos(l, s, d)),
{
    let safe = safe_amount_attos(a, d);
    let safe_sub = safe * d_one();
    let numerator = safe_sub * pd_one();
    let liq = liquidity_from_amount(safe, s);
    let u18 = pow10((18 - d) as nat);
    let big = pow10((36 - d) as nat);

    lemma_pow10_pos((18 - d) as nat);
    assert(safe <= a);
    assert(safe_sub >= 0 && numerator >= 0 && safe_sub <= i192_max() * d_one()) by (nonlinear_arith)
        requires 1 <= safe <= i192_max(), d_one() > 0, pd_one() > 0, safe_sub == safe * d_one(),
            numerator == safe_sub * pd_one();
    lemma_div_range(numerator, s);
    assert(liq == numerator / s);
    lemma_div_mul_bounds(numerator, s);
    assert(liq * s <= numerator);
    lemma_mul_ordered(l, liq, s);
    assert(l * s <= liq * s);
    assert(l * s >= 0) by (nonlinear_arith)
        requires l >= 0, s >= 1;
    assert(numerator <= i192_max() * d_one() * pd_one()) by (nonlinear_arith)
        requires safe_sub <= i192_max() * d_one(), pd_one() > 0, numerator == safe_sub * pd_one();
    assert(in_i384(l * s));

    let t = tdiv(l * s, pd_one());
    lemma_div_range(l * s, pd_one());
    lemma_div_ordered(l * s, numerator, pd_one());
    assert(numerator / pd_one() == safe_sub) by {
        vstd::arithmetic::div_mod::lemma_div_by_multiple(safe_sub, pd_one());
    }
    assert(0 <= t <= safe_sub);
    assert(in_i256(t) && in_i256(t + d_one()));

    let v = t + d_one();
    assert(big == u18 * d_one()) by {
        lemma_pow10_adds((18 - d) as nat, 18);
        assert(pow10((18 - d) as nat + 18) == big);
        assert(u18 * pow10(18) == pow10(18) * u18) by (nonlinear_arith);
        assert(pow10(18) == d_one()) by {
            reveal_with_fuel(pow10, 19);
        }
    }
    lemma_pow10_pos((18 - d) as nat);
    assert(big >= 1) by (nonlinear_arith)
        requires big == u18 * d_one(), u18 >= 1, d_one() >= 1;
    let c = ceil_div(v, big);
    lemma_ceil_mul_bounds(v, big);
    assert(c * big <= v + big - 1);
    assert(v + big - 1 <= (safe + 1) * d_one() + u18 * d_one() - 1) by (nonlinear_arith)
        requires v <= safe_sub + d_one(), safe_sub == safe * d_one(), big == u18 * d_one();
    assert(c * big == (c * u18) * d_one()) by (nonlinear_arith)
        requires big == u18 * d_one();
    assert((c * u18) * d_one() <= (safe + 1 + u18) * d_one() - 1) by (nonlinear_arith)
        requires c * big <= (safe + 1) * d_one() + u18 * d_one() - 1, c * big == (c * u18) * d_one();
    assert(c * u18 <= safe + u18) by (nonlinear_arith)
        requires (c * u18) * d_one() <= (safe + 1 + u18) * d_one() - 1, d_one() >= 1;
    assert(safe == a - 2 * u18);
    assert(consumed_attos(l, s, d) == c * u18);
    assert(c * u18 <= a - u18);

    assert(c >= 0) by {
        lemma_div_range(-(v) + (big - 1) + v, big);
        assert(-v <= 0);
        lemma_div_ordered(-v, 0, big);
        vstd::arithmetic::div_mod::lemma_div_of0(big);
    }
    assert(c * u18 >= 0) by (nonlinear_arith)
        requires c >= 0, u18 >= 1;
}

/// Calculates the liquidity the provided token amounts can fund between the
/// price bounds at the current price, and the amounts actually consumed.
///
/// Below the left bound all liquidity is funded by token x; above the right
/// bound, by token y; between the bounds it is the smaller of the two
/// token-implied liquidities, and the consumed amounts are recomputed from
/// that liquidity, rounded up, then clamped back to the provided amounts
/// where the difference is within the safety margin.
#[verifier::rlimit(100)]
pub fn allowed_amounts(
    x_amount: Decimal,
    x_divisibility: u8,
    y_amount: Decimal,
    y_divisibility: u8,
    price_sqrt: PreciseDecimal,
    price_left_bound_sqrt: PreciseDecimal,
    price_right_bound_sqrt: PreciseDecimal,
) -> (r: Result<(PreciseDecimal, Decimal, Decimal), PoolError>)
    requires
        0 <= dec_attos(x_amount) <= i192_max(),
        0 <= dec_attos(y_amount) <= i192_max(),
        x_divisibility <= 18,
        y_divisibility <= 18,
        pd_subunits(price_sqrt) > 0,
        0 < pd_subunits(price_left_bound_sqrt) < pd_subunits(price_right_bound_sqrt),
        pd_subunits(price_right_bound_sqrt) <= i256_max(),
    ensures
        ({
            let xa = dec_attos(x_amount);
            let xd = x_divisibility as int;
            let ya = dec_attos(y_amount);
            let yd = y_divisibility as int;
            let ps = pd_subunits(price_sqrt);
            let pl = pd_subunits(price_left_bound_sqrt);
            let pr = pd_subunits(price_right_bound_sqrt);
            let fits = allowed_amounts_fits(xa, xd, ya, yd, ps, pl, pr);
            let liq = allowed_liquidity_subunits(xa, xd, ya, yd, ps, pl, pr);
            &&& (r is Ok <==> fits && liq > 0)
            &&& match r {
                Ok((l, x, y)) => {
                    &&& pd_subunits(l) == liq
                    &&& dec_attos(x) == allowed_x_attos(xa, xd, ya, yd, ps, pl, pr)
                    &&& dec_attos(y) == allowed_y_attos(xa, xd, ya, yd, ps, pl, pr)
                    &&& 0 <= dec_attos(x) <= xa
                    &&& 0 <= dec_attos(y) <= ya
                },
                Err(e) => e == if !fits {
                    PoolError::AmountOverflow
                } else {
                    PoolError::ZeroLiquidity
                },
            }
        }),
{
    proof {
        lemma_pow10_pos((18 - x_divisibility) as nat);
        lemma_pow10_increases((18 - x_divisibility) as nat, 18);
        lemma_pow10_pos((18 - y_divisibility) as nat);
        lemma_pow10_increases((18 - y_divisibility) as nat, 18);
        reveal_with_fuel(pow10, 19);
    }
    let x_margin = {
        let unit = divisibility_unit(x_divisibility);
        dec_add(unit, unit)
    };
    let y_margin = {
        let unit = divisibility_unit(y_divisibility);
        dec_add(unit, unit)
    };
    let x_amount_safe = subtract_precision_margin(x_amount, x_margin);
    let y_amount_safe = subtract_precision_margin(y_amount, y_margin);
    let x_safe_precise = pd_from_dec(x_amount_safe);
    let y_safe_precise = pd_from_dec(y_amount_safe);

    if pd_le(&price_sqrt, &price_left_bound_sqrt) {
        let x_scale = x_scale_safe(price_left_bound_sqrt, price_right_bound_sqrt);
        proof {
            assert(pd_subunits(x_safe_precise) * pd_one() >= 0) by (nonlinear_arith)
                requires pd_subunits(x_safe_precise) >= 0, pd_one() > 0;
            lemma_div_range(pd_subunits(x_safe_precise) * pd_one(), pd_subunits(x_scale));
        }
        let x_liquidity = match pd_checked_div(x_safe_precise, x_scale) {
            Some(l) => l,
            None => {
                return Err(PoolError::AmountOverflow);
            },
        };
        if pd_le(&x_liquidity, &pd_zero()) {
            return Err(PoolError::ZeroLiquidity);
        }
        return Ok((x_liquidity, x_amount, dec_zero()));
    }

    if pd_le(&price_right_bound_sqrt, &price_sqrt) {
        let y_scale = y_scale_safe(price_left_bound_sqrt, price_right_bound_sqrt);
        proof {
            assert(pd_subunits(y_safe_precise) * pd_one() >= 0) by (nonlinear_arith)
                requires pd_subunits(y_safe_precise) >= 0, pd_one() > 0;
            lemma_div_range(pd_subunits(y_safe_precise) * pd_one(), pd_subunits(y_scale));
        }
        let y_liquidity = match pd_checked_div(y_safe_precise, y_scale) {
            Some(l) => l,
            None => {
                return Err(PoolError::AmountOverflow);
            },
        };
        if pd_le(&y_liquidity, &pd_zero()) {
            return Err(PoolError::ZeroLiquidity);
        }
        return Ok((y_liquidity, dec_zero(), y_amount));
    }

    let x_scale = x_scale_safe(price_sqrt, price_right_bound_sqrt);
    let y_scale = y_scale_safe(price_left_bound_sqrt, price_sqrt);
    proof {
        assert(pd_subunits(x_safe_precise) * pd_one() >= 0
            && pd_subunits(y_safe_precise) * pd_one() >= 0) by (nonlinear_arith)
            requires pd_subunits(x_safe_precise) >= 0, pd_subunits(y_safe_precise) >= 0,
                pd_one() > 0;
        lemma_div_range(pd_subunits(x_safe_precise) * pd_one(), pd_subunits(x_scale));
        lemma_div_range(pd_subunits(y_safe_precise) * pd_one(), pd_subunits(y_scale));
    }
    let x_liquidity = match pd_checked_div(x_safe_precise, x_scale) {
        Some(l) => l,
        None => {
            return Err(PoolError::AmountOverflow);
        },
    };
    let y_liquidity = match pd_checked_div(y_safe_precise, y_scale) {
        Some(l) => l,
        None => {
            return Err(PoolError::AmountOverflow);
        },
    };
    let liquidity = pd_min(x_liquidity, y_liquidity);
    if pd_le(&liquidity, &pd_zero()) {
        return Err(PoolError::ZeroLiquidity);
    }

    proof {
        assert(dec_attos(x_amount) - margin_attos(x_divisibility as int) >= 1) by {
            assert(pd_subunits(x_liquidity) >= 1);
            if safe_amount_attos(dec_attos(x_amount), x_divisibility as int) == 0 {
                lemma_div_range(0, pd_subunits(x_scale));
            }
        }
        assert(dec_attos(y_amount) - margin_attos(y_divisibility as int) >= 1) by {
            assert(pd_subunits(y_liquidity) >= 1);
            if safe_amount_attos(dec_attos(y_amount), y_divisibility as int) == 0 {
                lemma_div_range(0, pd_subunits(y_scale));
            }
        }
        lemma_consumed_within_amount(
            dec_attos(x_amount),
            x_divisibility as int,
            pd_subunits(liquidity),
            pd_subunits(x_scale),
        );
        lemma_consumed_within_amount(
            dec_attos(y_amount),
            y_divisibility as int,
            pd_subunits(liquidity),
            pd_subunits(y_scale),
        );
    }

    let one_atto = dec_atto();
    let x_product = pd_checked_mul(liquidity, x_scale).unwrap();
    let x_padded = pd_add(x_product, pd_from_dec(one_atto));
    let x_amount_allowed = pd_checked_ceil_to(x_padded, x_divisibility).unwrap();
    let y_product = pd_checked_mul(liquidity, y_scale).unwrap();
    let y_padded = pd_add(y_product, pd_from_dec(one_atto));
    let y_amount_allowed = pd_checked_ceil_to(y_padded, y_divisibility).unwrap();

    let x_adjusted = adjust_within_margin(x_amount, x_amount_allowed, x_margin);
    let y_adjusted = adjust_within_margin(y_amount, y_amount_allowed, y_margin);
    Ok((liquidity, x_adjusted, y_adjusted))
}

/// Subunits of token x owed for a liquidity between an effective lower price
/// and the right bound, before flooring: the difference of the fixed-point
/// quotients, less the one-subunit safety pad.
pub open spec fn removable_x_raw_subunits(l: int, lower: int, upper: int) -> int {
    tdiv(l * pd_one(), lower) - (tdiv(l * pd_one(), upper) + 1)
}

/// The effective lower price of a withdrawal: the current price clamped to
/// the position's left bound.
pub open spec fn effective_lower(ps: int, pl: int) -> int {
    if ps <= pl {
        pl
    } else {
        ps
    }
}

/// The effective upper price of a withdrawal: the current price clamped to
/// the position's right bound.
pub open spec fn effective_upper(ps: int, pr: int) -> int {
    if ps >= pr {
        pr
    } else {
        ps
    }
}

/// Attos of token x a liquidity releases, floored to the divisibility.
pub open spec fn removable_x_attos(l: int, ps: int, pl: int, pr: int, xd: int) -> int {
    if ps >= pr {
        0
    } else {
        let raw = removable_x_raw_subunits(l, effective_lower(ps, pl), pr);
        let clamped = if raw >= 0 { raw } else { 0 };
        floor_div(clamped, pow10((36 - xd) as nat)) * pow10((18 - xd) as nat)
    }
}

/// Attos of token y a liquidity releases, floored to the divisibility.
pub open spec fn removable_y_attos(l: int, ps: int, pl: int, pr: int, yd: int) -> int {
    if ps <= pl {
        0
    } else {
        let raw = tdiv(l * y_scale_subunits(pl, effective_upper(ps, pr)), pd_one());
        floor_div(raw, pow10((36 - yd) as nat)) * pow10((18 - yd) as nat)
    }
}

/// Whether the withdrawal computation stays inside its ranges.
pub open spec fn removable_fits(l: int, ps: int, pl: int, pr: int, xd: int, yd: int) -> bool {
    let x_ok = {
        let lower = effective_lower(ps, pl);
        in_i256(tdiv(l * pd_one(), lower))
            && in_i256(tdiv(l * pd_one(), pr) + 1)
            && in_i192(removable_x_attos(l, ps, pl, pr, xd))
    };
    let y_ok = {
        let upper = effective_upper(ps, pr);
        in_i384(l * y_scale_subunits(pl, upper))
            && in_i256(tdiv(l * y_scale_subunits(pl, upper), pd_one()))
            && in_i192(removable_y_attos(l, ps, pl, pr, yd))
    };
    if ps <= pl {
        x_ok
    } else if ps >= pr {
        y_ok
    } else {
        x_ok && y_ok
    }
}

/// Calculates the amounts of token x and y withdrawable for a liquidity at
/// the current price, clamped to the position's bounds, rounded down so a
/// withdrawal never pays out more than exactly owed.
pub fn remove_amounts(
    liquidity: PreciseDecimal,
    price_sqrt: PreciseDecimal,
    price_left_bound_sqrt: PreciseDecimal,
    price_right_bound_sqrt: PreciseDecimal,
    x_divisibility: u8,
    y_divisibility: u8,
) -> (r: Result<(Decimal, Decimal), PoolError>)
    requires
        pd_subunits(liquidity) >= 0,
        x_divisibility <= 18,
        y_divisibility <= 18,
        pd_subunits(price_sqrt) > 0,
        0 < pd_subunits(price_left_bound_sqrt) < pd_subunits(price_right_bound_sqrt),
        pd_subunits(price_right_bound_sqrt) <= i256_max(),
    ensures
        ({
            let l = pd_subunits(liquidity);
            let ps = pd_subunits(price_sqrt);
            let pl = pd_subunits(price_left_bound_sqrt);
            let pr = pd_subunits(price_right_bound_sqrt);
            let xd = x_divisibility as int;
            let yd = y_divisibility as int;
            &&& (r is Ok <==> removable_fits(l, ps, pl, pr, xd, yd))
            &&& match r {
                Ok((x, y)) => {
                    &&& dec_attos(x) == removable_x_attos(l, ps, pl, pr, xd)
                    &&& dec_attos(y) == removable_y_attos(l, ps, pl, pr, yd)
                    &&& dec_attos(x) >= 0
                    &&& dec_attos(y) >= 0
                },
                Err(e) => e == PoolError::AmountOverflow,
            }
        }),
{
    proof {
        lemma_pow10_pos((36 - x_divisibility) as nat);
        lemma_pow10_pos((36 - y_divisibility) as nat);
        lemma_pow10_pos((18 - x_divisibility) as nat);
        lemma_pow10_pos((18 - y_divisibility) as nat);
    }
    if pd_le(&price_right_bound_sqrt, &price_sqrt) {
        // All liquidity is owed as token y over the full range.
        let y = match removable_y(liquidity, price_left_bound_sqrt, price_right_bound_sqrt, y_divisibility) {
            Some(y) => y,
            None => {
                return Err(PoolError::AmountOverflow);
            },
        };
        return Ok((dec_zero(), y));
    }
    if pd_le(&price_sqrt, &price_left_bound_sqrt) {
        // All liquidity is owed as token x over the full range.
        let x = match removable_x(liquidity, price_left_bound_sqrt, price_right_bound_sqrt, x_divisibility) {
            Some(x) => x,
            None => {
                return Err(PoolError::AmountOverflow);
            },
        };
        return Ok((x, dec_zero()));
    }
    // The price sits inside the range: token x above it, token y below it.
    let x = match removable_x(liquidity, price_sqrt, price_right_bound_sqrt, x_divisibility) {
        Some(x) => x,
        None => {
            return Err(PoolError::AmountOverflow);
        },
    };
    let y = match removable_y(liquidity, price_left_bound_sqrt, price_sqrt, y_divisibility) {
        Some(y) => y,
        None => {
            return Err(PoolError::AmountOverflow);
        },
    };
    Ok((x, y))
}

/// The token-x side of a withdrawal between two prices, floored.
fn removable_x(
    liquidity: PreciseDecimal,
    lower_price_sqrt: PreciseDecimal,
    upper_price_sqrt: PreciseDecimal,
    divisibility: u8,
) -> (r: Option<Decimal>)
    requires
        pd_subunits(liquidity) >= 0,
        divisibility <= 18,
        0 < pd_subunits(lower_price_sqrt) < pd_subunits(upper_price_sqrt),
    ensures
        ({
            let l = pd_subunits(liquidity);
            let lo = pd_subunits(lower_price_sqrt);
            let hi = pd_subunits(upper_price_sqrt);
            let raw = removable_x_raw_subunits(l, lo, hi);
            let clamped = if raw >= 0 { raw } else { 0 };
            let attos = floor_div(clamped, pow10((36 - divisibility) as nat))
                * pow10((18 - divisibility) as nat);
            let fits = in_i256(tdiv(l * pd_one(), lo))
                && in_i256(tdiv(l * pd_one(), hi) + 1)
                && in_i192(attos);
            match r {
                Some(x) => fits && dec_attos(x) == attos && dec_attos(x) >= 0,
                None => !fits,
            }
        }),
{
    proof {
        lemma_pow10_pos((36 - divisibility) as nat);
        lemma_pow10_pos((18 - divisibility) as nat);
        lemma_div_range(pd_subunits(liquidity) * pd_one(), pd_subunits(lower_price_sqrt));
        lemma_div_range(pd_subunits(liquidity) * pd_one(), pd_subunits(upper_price_sqrt));
        assert(pd_subunits(liquidity) * pd_one() >= 0) by (nonlinear_arith)
            requires pd_subunits(liquidity) >= 0, pd_one() > 0;
    }
    let inner = match pd_checked_div(liquidity, upper_price_sqrt) {
        Some(v) => v,
        None => {
            return None;
        },
    };
    let padded = match pd_checked_add(inner, pd_subunit()) {
        Some(v) => v,
        None => {
            return None;
        },
    };
    let outer = match pd_checked_div(liquidity, lower_price_sqrt) {
        Some(v) => v,
        None => {
            return None;
        },
    };
    let diff = pd_sub(outer, padded);
    let clamped = pd_max(diff, pd_zero());
    proof {
        if floor_div(pd_subunits(clamped), pow10((36 - divisibility) as nat)) >= 0 {
            lemma_mul_ordered(
                0,
                floor_div(pd_subunits(clamped), pow10((36 - divisibility) as nat)),
                pow10((18 - divisibility) as nat),
            );
        }
        lemma_div_range(pd_subunits(clamped), pow10((36 - divisibility) as nat));
    }
    pd_checked_floor_to(clamped, divisibility)
}

/// The token-y side of a withdrawal between two prices, floored.
fn removable_y(
    liquidity: PreciseDecimal,
    lower_price_sqrt: PreciseDecimal,
    upper_price_sqrt: PreciseDecimal,
    divisibility: u8,
) -> (r: Option<Decimal>)
    requires
        pd_subunits(liquidity) >= 0,
        divisibility <= 18,
        0 < pd_subunits(lower_price_sqrt) < pd_subunits(upper_price_sqrt),
        pd_subunits(upper_price_sqrt) <= i256_max(),
    ensures
        ({
            let l = pd_subunits(liquidity);
            let lo = pd_subunits(lower_price_sqrt);
            let hi = pd_subunits(upper_price_sqrt);
            let raw = tdiv(l * y_scale_subunits(lo, hi), pd_one());
            let attos = floor_div(raw, pow10((36 - divisibility) as nat))
                * pow10((18 - divisibility) as nat);
            let fits = in_i384(l * y_scale_subunits(lo, hi)) && in_i256(raw) && in_i192(attos);
            match r {
                Some(y) => fits && dec_attos(y) == attos && dec_attos(y) >= 0,
                None => !fits,
            }
        }),
{
    proof {
        lemma_pow10_pos((36 - divisibility) as nat);
        lemma_pow10_pos((18 - divisibility) as nat);
    }
    let scale = y_scale_safe(lower_price_sqrt, upper_price_sqrt);
    let product = match pd_checked_mul(liquidity, scale) {
        Some(v) => v,
        None => {
            return None;
        },
    };
    proof {
        lemma_div_range(pd_subunits(liquidity) * pd_subunits(scale), pd_one());
        if floor_div(pd_subunits(product), pow10((36 - divisibility) as nat)) >= 0 {
            lemma_mul_ordered(
                0,
                floor_div(pd_subunits(product), pow10((36 - divisibility) as nat)),
                pow10((18 - divisibility) as nat),
            );
        }
        lemma_div_range(pd_subunits(product), pow10((36 - divisibility) as nat));
    }
    pd_checked_floor_to(product, divisibility)
}

/// The raw token-x withdrawal for a liquidity never exceeds the fixed-point
/// product of that liquidity with the padded x scale: the one-subunit pad in
/// the scale absorbs the truncation of the reciprocal.
proof fn lemma_x_raw_le_scale_product(l: int, lo: int, hi: int)
    requires
        l >= 0,
        0 < lo,
        lo <= hi,
    ensures
        removable_x_raw_subunits(l, lo, hi) <= tdiv(l * x_scale_subunits(lo, hi), pd_one()),
        l * x_scale_subunits(lo, hi) >= 0,
{
    let one2 = pd_one() * pd_one();
    let i_lo = inverse_subunits(lo);
    let i_hi = inverse_subunits(hi);
    let xs = x_scale_subunits(lo, hi);
    let a = tdiv(l * pd_one(), lo);
    let b = tdiv(l * pd_one(), hi);

    assert(l * pd_one() >= 0) by (nonlinear_arith)
        requires l >= 0, pd_one() > 0;
    lemma_div_range(one2, lo);
    lemma_div_range(one2, hi);
    lemma_div_range(l * pd_one(), lo);
    lemma_div_range(l * pd_one(), hi);
    lemma_div_ordered_by_denominator(one2, lo, hi);
    assert(i_hi <= i_lo);
    assert(xs >= 1);
    assert(l * xs >= 0) by (nonlinear_arith)
        requires l >= 0, xs >= 1;

    // Step one: l * (i_lo + 1) >= a * pd_one().
    lemma_div_mul_bounds(one2, lo);
    assert((i_lo + 1) * lo >= one2 + 1) by (nonlinear_arith)
        requires one2 - lo < (one2 / lo) * lo, i_lo == one2 / lo;
    lemma_div_mul_bounds(l * pd_one(), lo);
    assert(a * lo <= l * pd_one());
    assert((a * lo) * pd_one() <= (l * pd_one()) * pd_one()) by {
        lemma_mul_ordered(a * lo, l * pd_one(), pd_one());
    }
    assert(l * ((i_lo + 1) * lo) >= l * (one2 + 1)) by {
        vstd::arithmetic::mul::lemma_mul_inequality(one2 + 1, (i_lo + 1) * lo, l);
        assert((one2 + 1) * l == l * (one2 + 1)) by (nonlinear_arith);
        assert(((i_lo + 1) * lo) * l == l * ((i_lo + 1) * lo)) by (nonlinear_arith);
    }
    assert((a * pd_one()) * lo == (a * lo) * pd_one()) by (nonlinear_arith);
    assert((l * pd_one()) * pd_one() == l * one2) by (nonlinear_arith)
        requires one2 == pd_one() * pd_one();
    assert(l * (one2 + 1) >= l * one2) by (nonlinear_arith)
        requires l >= 0;
    assert(l * ((i_lo + 1) * lo) == (l * (i_lo + 1)) * lo) by (nonlinear_arith);
    assert((l * (i_lo + 1)) * lo >= (a * pd_one()) * lo);
    assert(l * (i_lo + 1) >= a * pd_one()) by (nonlinear_arith)
        requires
            (l * (i_lo + 1)) * lo >= (a * pd_one()) * lo,
            lo >= 1,
    ;

    // Step two: l * i_hi <= (b + 1) * pd_one().
    lemma_div_mul_bounds(one2, hi);
    assert(i_hi * hi <= one2);
    lemma_div_mul_bounds(l * pd_one(), hi);
    assert(l * pd_one() - hi < b * hi);
    assert((b + 1) * hi >= l * pd_one() + 1) by (nonlinear_arith)
        requires l * pd_one() - hi < b * hi;
    assert(l * (i_hi * hi) <= l * one2) by {
        vstd::arithmetic::mul::lemma_mul_inequality(i_hi * hi, one2, l);
        assert((i_hi * hi) * l == l * (i_hi * hi)) by (nonlinear_arith);
        assert(one2 * l == l * one2) by (nonlinear_arith);
    }
    assert(((b + 1) * pd_one()) * hi == ((b + 1) * hi) * pd_one()) by (nonlinear_arith);
    assert(((b + 1) * hi) * pd_one() >= (l * pd_one() + 1) * pd_one()) by {
        lemma_mul_ordered(l * pd_one() + 1, (b + 1) * hi, pd_one());
    }
    assert((l * pd_one() + 1) * pd_one() >= l * one2) by (nonlinear_arith)
        requires one2 == pd_one() * pd_one(), pd_one() > 0;
    assert(l * (i_hi * hi) == (l * i_hi) * hi) by (nonlinear_arith);
    assert(((b + 1) * pd_one()) * hi >= (l * i_hi) * hi);
    assert(l * i_hi <= (b + 1) * pd_one()) by (nonlinear_arith)
        requires
            ((b + 1) * pd_one()) * hi >= (l * i_hi) * hi,
            hi >= 1,
    ;

    // Combine: l * xs >= (a - b - 1) * pd_one().
    assert(l * xs == l * (i_lo + 1) - l * i_hi) by (nonlinear_arith)
        requires xs == i_lo + 1 - i_hi;
    assert(l * xs >= (a - b - 1) * pd_one()) by (nonlinear_arith)
        requires
            l * xs == l * (i_lo + 1) - l * i_hi,
            l * (i_lo + 1) >= a * pd_one(),
            l * i_hi <= (b + 1) * pd_one(),
    ;
    vstd::arithmetic::div_mod::lemma_div_multiples_vanish(a - b - 1, pd_one());
    assert(pd_one() * (a - b - 1) == (a - b - 1) * pd_one()) by (nonlinear_arith);
    lemma_div_ordered((a - b - 1) * pd_one(), l * xs, pd_one());
    lemma_div_range(l * xs, pd_one());
}

/// A liquidity rounded down from an amount, multiplied back by its scale,
/// stays within that amount.
proof fn lemma_liquidity_product_le(m: int, s: int, l: int)
    requires
        m >= 0,
        s >= 1,
        0 <= l,
        l <= liquidity_from_amount(m, s),
    ensures
        0 <= tdiv(l * s, pd_one()),
        tdiv(l * s, pd_one()) <= m * d_one(),
        0 <= l * s,
{
    let m_sub = m * d_one();
    let numerator = m_sub * pd_one();
    let liq = liquidity_from_amount(m, s);
    assert(m_sub >= 0 && numerator >= 0) by (nonlinear_arith)
        requires m >= 0, d_one() > 0, pd_one() > 0, m_sub == m * d_one(),
            numerator == m_sub * pd_one();
    assert(m * d_one() * pd_one() == numerator) by (nonlinear_arith)
        requires m_sub == m * d_one(), numerator == m_sub * pd_one();
    lemma_div_range(numerator, s);
    lemma_div_mul_bounds(numerator, s);
    lemma_mul_ordered(l, liq, s);
    assert(l * s >= 0) by (nonlinear_arith)
        requires l >= 0, s >= 1;
    lemma_div_range(l * s, pd_one());
    lemma_div_ordered(l * s, numerator, pd_one());
    vstd::arithmetic::div_mod::lemma_div_by_multiple(m_sub, pd_one());
}

/// Flooring a bounded non-negative subunit value to a divisibility yields
/// attos within the bound.
proof fn lemma_floored_le(v: int, bound: int, d: int)
    requires
        0 <= v,
        v <= bound * d_one(),
        bound >= 0,
        0 <= d <= 18,
    ensures
        0 <= floor_div(v, pow10((36 - d) as nat)) * pow10((18 - d) as nat) <= bound,
        floor_div(v, pow10((36 - d) as nat)) * pow10((36 - d) as nat) <= v,
{
    let u18 = pow10((18 - d) as nat);
    let big = pow10((36 - d) as nat);
    lemma_pow10_pos((18 - d) as nat);
    assert(big == u18 * d_one()) by {
        lemma_pow10_adds((18 - d) as nat, 18);
        assert(pow10(18) == d_one()) by {
            reveal_with_fuel(pow10, 19);
        }
    }
    assert(big >= 1) by (nonlinear_arith)
        requires big == u18 * d_one(), u18 >= 1, d_one() >= 1;
    let f = floor_div(v, big);
    lemma_div_range(v, big);
    lemma_div_mul_bounds(v, big);
    assert(f * big <= v);
    assert((f * u18) * d_one() <= bound * d_one()) by (nonlinear_arith)
        requires f * big <= v, v <= bound * d_one(), big == u18 * d_one();
    assert(f * u18 <= bound) by (nonlinear_arith)
        requires (f * u18) * d_one() <= bound * d_one(), d_one() >= 1;
    assert(f * u18 >= 0) by (nonlinear_arith)
        requires f >= 0, u18 >= 1;
}

/// Solvency of the add/remove round trip: for any price and bounds, the
/// amounts a liquidity computed by `allowed_amounts` can withdraw again at
/// the same price never exceed the amounts reported as consumed, and those
/// never exceed the amounts originally provided.  No value is created.
pub proof fn lemma_add_remove_solvent(xa: int, xd: int, ya: int, yd: int, ps: int, pl: int, pr: int)
    requires
        0 <= xd <= 18,
        0 <= yd <= 18,
        0 <= xa <= i192_max(),
        0 <= ya <= i192_max(),
        0 < ps,
        0 < pl < pr,
        pr <= i256_max(),
        allowed_liquidity_subunits(xa, xd, ya, yd, ps, pl, pr) >= 1,
    ensures
        ({
            let l = allowed_liquidity_subunits(xa, xd, ya, yd, ps, pl, pr);
            &&& removable_x_attos(l, ps, pl, pr, xd) <= allowed_x_attos(xa, xd, ya, yd, ps, pl, pr)
            &&& removable_y_attos(l, ps, pl, pr, yd) <= allowed_y_attos(xa, xd, ya, yd, ps, pl, pr)
            &&& allowed_x_attos(xa, xd, ya, yd, ps, pl, pr) <= xa
            &&& allowed_y_attos(xa, xd, ya, yd, ps, pl, pr) <= ya
        }),
{
    let l = allowed_liquidity_subunits(xa, xd, ya, yd, ps, pl, pr);
    let safe_x = safe_amount_attos(xa, xd);
    let safe_y = safe_amount_attos(ya, yd);
    lemma_pow10_pos((18 - xd) as nat);
    lemma_pow10_pos((18 - yd) as nat);

    if ps <= pl {
        // Funded by token x alone over [pl, pr); withdrawn the same way.
        let xs = x_scale_subunits(pl, pr);
        lemma_scale_positive(pl, pr);
        assert(safe_x >= 0);
        lemma_x_raw_le_scale_product(l, pl, pr);
        lemma_liquidity_product_le(safe_x, xs, l);
        let raw = removable_x_raw_subunits(l, pl, pr);
        let clamped = if raw >= 0 { raw } else { 0 };
        assert(clamped <= safe_x * d_one());
        lemma_floored_le(clamped, safe_x, xd);
        assert(removable_x_attos(l, ps, pl, pr, xd) <= safe_x);
    } else if ps >= pr {
        // Funded by token y alone over [pl, pr); withdrawn the same way.
        let ys = y_scale_subunits(pl, pr);
        assert(ys >= 1);
        lemma_liquidity_product_le(safe_y, ys, l);
        let raw = tdiv(l * ys, pd_one());
        lemma_floored_le(raw, safe_y, yd);
        assert(removable_y_attos(l, ps, pl, pr, yd) <= safe_y);
    } else {
        // The price is inside the range: both sides carry value.
        let xs = x_scale_subunits(ps, pr);
        let ys = y_scale_subunits(pl, ps);
        lemma_scale_positive(ps, pr);
        let xl = liquidity_from_amount(safe_x, xs);
        let yl = liquidity_from_amount(safe_y, ys);
        assert(l <= xl && l <= yl);

        // Token x: raw withdrawal <= fixed-point product <= safe amount.
        lemma_x_raw_le_scale_product(l, ps, pr);
        lemma_liquidity_product_le(safe_x, xs, l);
        let t_x = tdiv(l * xs, pd_one());
        let raw_x = removable_x_raw_subunits(l, ps, pr);
        let clamped_x = if raw_x >= 0 { raw_x } else { 0 };
        assert(clamped_x <= t_x + d_one());
        assert(0 <= t_x + d_one());
        lemma_floored_le(clamped_x, safe_x, xd);

        // The withdrawal stays within the ceiled consumed amount.
        let big_x = pow10((36 - xd) as nat);
        let u18_x = pow10((18 - xd) as nat);
        assert(big_x == u18_x * d_one() && big_x >= 1) by {
            lemma_pow10_adds((18 - xd) as nat, 18);
            assert(pow10(18) == d_one()) by {
                reveal_with_fuel(pow10, 19);
            }
            assert(u18_x * d_one() >= 1) by (nonlinear_arith)
                requires u18_x >= 1, d_one() >= 1;
        }
        let fx = floor_div(clamped_x, big_x);
        let cx = ceil_div(t_x + d_one(), big_x);
        lemma_div_mul_bounds(clamped_x, big_x);
        lemma_ceil_mul_bounds(t_x + d_one(), big_x);
        assert(fx * big_x <= clamped_x);
        assert(cx * big_x >= t_x + d_one());
        assert(clamped_x <= t_x + d_one());
        assert(fx * big_x <= cx * big_x);
        assert(fx * u18_x <= cx * u18_x) by (nonlinear_arith)
            requires fx * big_x <= cx * big_x, big_x == u18_x * d_one(), u18_x >= 1, d_one() >= 1;
        assert(removable_x_attos(l, ps, pl, pr, xd) == fx * u18_x);
        assert(consumed_attos(l, xs, xd) == cx * u18_x);
        lemma_consumed_within_amount(xa, xd, l, xs);
        assert(allowed_x_attos(xa, xd, ya, yd, ps, pl, pr)
            == adjusted_attos(xa, consumed_attos(l, xs, xd), margin_attos(xd)));
        assert(adjusted_attos(xa, consumed_attos(l, xs, xd), margin_attos(xd)) >= consumed_attos(l, xs, xd));
        assert(adjusted_attos(xa, consumed_attos(l, xs, xd), margin_attos(xd)) <= xa);

        // Token y: the withdrawal scale equals the deposit scale exactly.
        lemma_liquidity_product_le(safe_y, ys, l);
        let t_y = tdiv(l * ys, pd_one());
        lemma_floored_le(t_y, safe_y, yd);
        let big_y = pow10((36 - yd) as nat);
        let u18_y = pow10((18 - yd) as nat);
        assert(big_y == u18_y * d_one() && big_y >= 1) by {
            lemma_pow10_adds((18 - yd) as nat, 18);
            assert(pow10(18) == d_one()) by {
                reveal_with_fuel(pow10, 19);
            }
            assert(u18_y * d_one() >= 1) by (nonlinear_arith)
                requires u18_y >= 1, d_one() >= 1;
        }
        let fy = floor_div(t_y, big_y);
        let cy = ceil_div(t_y + d_one(), big_y);
        lemma_div_mul_bounds(t_y, big_y);
        lemma_ceil_mul_bounds(t_y + d_one(), big_y);
        assert(fy * big_y <= t_y && cy * big_y >= t_y + d_one());
        assert(fy * u18_y <= cy * u18_y) by (nonlinear_arith)
            requires fy * big_y <= cy * big_y, big_y == u18_y * d_one(), u18_y >= 1, d_one() >= 1;
        assert(removable_y_attos(l, ps, pl, pr, yd) == fy * u18_y);
        assert(consumed_attos(l, ys, yd) == cy * u18_y);
        lemma_consumed_within_amount(ya, yd, l, ys);
        assert(adjusted_attos(ya, consumed_attos(l, ys, yd), margin_attos(yd)) >= consumed_attos(l, ys, yd));
    }
}

/// The padded x scale between ordered positive prices is positive.
proof fn lemma_scale_positive(lo: int, hi: int)
    requires
        0 < lo,
        lo <= hi,
    ensures
        x_scale_subunits(lo, hi) >= 1,
{
    let one2 = pd_one() * pd_one();
    lemma_div_range(one2, lo);
    lemma_div_range(one2, hi);
    lemma_div_ordered_by_denominator(one2, lo, hi);
}

} // verus!
