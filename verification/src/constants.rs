//! Protocol-wide constants: the tick range, the per-tick price base, the
//! liquidity ceiling and the fee-rate maxima.

use vstd::prelude::*;
use scrypto::prelude::Decimal;
use scrypto::prelude::PreciseDecimal;
use crate::fixed_point::dec_attos;
use crate::fixed_point::dec_from_digits;
use crate::fixed_point::i192_of_digits;
use crate::fixed_point::i256_of_digits;
use crate::fixed_point::pd_from_digits;
use crate::fixed_point::pd_subunits;
use crate::fixed_point::pow10;
use crate::fixed_point::ten_pow;

verus! {

/// Greatest tick index the grid supports: one tick per basis point of price.
pub const MAX_TICK: i32 = 887272;

/// Smallest tick index; the grid is symmetric around zero.
pub const MIN_TICK: i32 = -887272;

/// Subunits of the square root of the per-tick price ratio,
/// `sqrt(1.0001)` written with 36 fractional digits.
pub open spec fn tick_base_sqrt_subunits() -> int {
    1000049998750062496094023416993798697int
}

/// Subunits of the protocol-wide liquidity ceiling.
pub open spec fn max_liquidity_subunits() -> int {
    3138668841663005800034000000000000000000000000000000000000int
}

/// Attos of the greatest input fee rate a pool accepts, one tenth.
pub open spec fn input_fee_rate_max_attos() -> int {
    100000000000000000
}

/// Attos of the greatest protocol share of fees, one quarter.
pub open spec fn fee_protocol_share_max_attos() -> int {
    250000000000000000
}

/// Attos of the greatest flash-loan fee rate, one tenth.
pub open spec fn flash_loan_fee_rate_max_attos() -> int {
    100000000000000000
}

/// Attos of the smallest fraction of a bucket a lifecycle hook must leave,
/// nine tenths.
pub open spec fn hooks_min_remaining_fraction_attos() -> int {
    900000000000000000
}

/// The square root of the per-tick price ratio as a value.
pub fn tick_base_sqrt() -> (r: PreciseDecimal)
    ensures
        pd_subunits(r) == tick_base_sqrt_subunits(),
{
    pd_from_digits(11089430535351294505, 54212819061947187, 0, 0)
}

/// The protocol-wide liquidity ceiling as a value.
pub fn max_liquidity() -> (r: PreciseDecimal)
    ensures
        pd_subunits(r) == max_liquidity_subunits(),
{
    pd_from_digits(16217537162390798336, 4952524963599965124, 9223718731191990255, 0)
}

/// The greatest accepted input fee rate as a value.
pub fn input_fee_rate_max() -> (r: Decimal)
    ensures
        dec_attos(r) == input_fee_rate_max_attos(),
{
    dec_from_digits(100000000000000000, 0, 0)
}

/// The greatest accepted protocol fee share as a value.
pub fn fee_protocol_share_max() -> (r: Decimal)
    ensures
        dec_attos(r) == fee_protocol_share_max_attos(),
{
    dec_from_digits(250000000000000000, 0, 0)
}

/// The greatest accepted flash-loan fee rate as a value.
pub fn flash_loan_fee_rate_max() -> (r: Decimal)
    ensures
        dec_attos(r) == flash_loan_fee_rate_max_attos(),
{
    dec_from_digits(100000000000000000, 0, 0)
}

/// The smallest fraction of a bucket a lifecycle hook must leave.
pub fn hooks_min_remaining_fraction() -> (r: Decimal)
    ensures
        dec_attos(r) == hooks_min_remaining_fraction_attos(),
{
    dec_from_digits(900000000000000000, 0, 0)
}

/// One minimal unit of a token with the given divisibility:
/// `10^-divisibility` as an amount.
pub fn divisibility_unit(divisibility: u8) -> (r: Decimal)
    requires
        divisibility <= 18,
    ensures
        dec_attos(r) == pow10((18 - divisibility) as nat),
{
    let attos: u64 = ten_pow(18 - divisibility);
    dec_from_digits(attos, 0, 0)
}

} // verus!
