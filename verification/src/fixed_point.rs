//! Fixed-point arithmetic substrate.
//!
//! Amounts are `Decimal` values: 192-bit signed integers counted in units of
//! `10^-18` ("attos").  Prices, liquidity and fee accumulators are
//! `PreciseDecimal` values: 256-bit signed integers counted in units of
//! `10^-36` ("subunits").  Both types come from the `scrypto` crate
//! (re-exported from `radix-common`); neither fits a native machine integer,
//! so the contracts below speak of the mathematical integer each value
//! stores, through the views `dec_attos` and `pd_subunits`.
//!
//! Every trusted wrapper states the exact integer result of the operation it
//! relies on, including the rounding direction, as the crate's source shows
//! it: multiplication and division truncate toward zero through a wider
//! intermediate integer, and the rounding helpers floor or ceil to a decimal
//! place.

use vstd::prelude::*;
use scrypto::prelude::Decimal;
use scrypto::prelude::PreciseDecimal;
use scrypto::prelude::RoundingMode;
use scrypto::prelude::CheckedTruncate;
use scrypto::math::CheckedAdd;
use scrypto::math::CheckedSub;
use scrypto::math::CheckedMul;
use scrypto::math::CheckedDiv;
use scrypto::math::CheckedNeg;
use scrypto::prelude::I192;
use scrypto::prelude::I256;

verus! {

#[verifier::external_type_specification]
#[verifier::external_body]
pub struct ExDecimal(Decimal);

#[verifier::external_type_specification]
#[verifier::external_body]
pub struct ExPreciseDecimal(PreciseDecimal);

/// The integer a `Decimal` stores: its value counted in `10^-18` units.
pub uninterp spec fn dec_attos(d: Decimal) -> int;

/// The integer a `PreciseDecimal` stores: its value counted in `10^-36` units.
pub uninterp spec fn pd_subunits(p: PreciseDecimal) -> int;

/// One whole token in attos: `10^18`.
pub open spec fn d_one() -> int {
    1000000000000000000
}

/// One whole token in precise subunits: `10^36`.
pub open spec fn pd_one() -> int {
    1000000000000000000000000000000000000int
}

pub open spec fn i192_max() -> int {
    3138550867693340381917894711603833208051177722232017256447int
}

pub open spec fn i192_min() -> int {
    -3138550867693340381917894711603833208051177722232017256448int
}

pub open spec fn i256_max() -> int {
    57896044618658097711785492504343953926634992332820282019728792003956564819967int
}

pub open spec fn i256_min() -> int {
    -57896044618658097711785492504343953926634992332820282019728792003956564819968int
}

pub open spec fn i384_max() -> int {
    19701003098197239606139520050071806902539869635232723333974146702122860885748605305707133127442457820403313995153407int
}

pub open spec fn in_i192(v: int) -> bool {
    i192_min() <= v <= i192_max()
}

pub open spec fn in_i256(v: int) -> bool {
    i256_min() <= v <= i256_max()
}

pub open spec fn in_i384(v: int) -> bool {
    -i384_max() - 1 <= v <= i384_max()
}

/// `10^n`.
pub open spec fn pow10(n: nat) -> int
    decreases n,
{
    if n == 0 {
        1
    } else {
        10 * pow10((n - 1) as nat)
    }
}

/// Division rounding toward zero, as the 192/256-bit integers divide.
pub open spec fn tdiv(a: int, b: int) -> int
    recommends b != 0,
{
    let aa = if a >= 0 { a } else { -a };
    let ab = if b >= 0 { b } else { -b };
    if (a >= 0) == (b >= 0) {
        aa / ab
    } else {
        -(aa / ab)
    }
}

/// Division rounding toward negative infinity, for a positive divisor.
pub open spec fn floor_div(a: int, b: int) -> int
    recommends b > 0,
{
    a / b
}

/// Division rounding toward positive infinity, for a positive divisor.
pub open spec fn ceil_div(a: int, b: int) -> int
    recommends b > 0,
{
    -((-a) / b)
}

/// The signed integer that four little-endian 64-bit digits of a 256-bit
/// two's-complement integer denote.
pub open spec fn i256_of_digits(d0: u64, d1: u64, d2: u64, d3: u64) -> int {
    let unsigned = d0 + d1 * 0x10000000000000000
        + d2 * 0x100000000000000000000000000000000int
        + d3 * 0x1000000000000000000000000000000000000000000000000int;
    if d3 >= 0x8000000000000000 {
        unsigned - (i256_max() + 1) * 2
    } else {
        unsigned
    }
}

/// The signed integer that three little-endian 64-bit digits of a 192-bit
/// two's-complement integer denote.
pub open spec fn i192_of_digits(d0: u64, d1: u64, d2: u64) -> int {
    let unsigned = d0 + d1 * 0x10000000000000000
        + d2 * 0x100000000000000000000000000000000int;
    if d2 >= 0x8000000000000000 {
        unsigned - (i192_max() + 1) * 2
    } else {
        unsigned
    }
}

/// Relies on `PreciseDecimal::from_precise_subunits` and `I256::from_digits`:
/// builds the value whose subunits are the given little-endian digits.
#[verifier::external_body]
pub fn pd_from_digits(d0: u64, d1: u64, d2: u64, d3: u64) -> (r: PreciseDecimal)
    ensures
        pd_subunits(r) == i256_of_digits(d0, d1, d2, d3),
{
    PreciseDecimal::from_precise_subunits(I256::from_digits([d0, d1, d2, d3]))
}

/// Relies on `Decimal::from_attos` and `I192::from_digits`: builds the value
/// whose attos are the given little-endian digits.
#[verifier::external_body]
pub fn dec_from_digits(d0: u64, d1: u64, d2: u64) -> (r: Decimal)
    ensures
        dec_attos(r) == i192_of_digits(d0, d1, d2),
{
    Decimal::from_attos(I192::from_digits([d0, d1, d2]))
}

/// Relies on `PreciseDecimal::from::<Decimal>`: widens exactly, multiplying
/// the attos by `10^18`; the result always fits 256 bits.
#[verifier::external_body]
pub fn pd_from_dec(d: Decimal) -> (r: PreciseDecimal)
    ensures
        pd_subunits(r) == dec_attos(d) * d_one(),
{
    PreciseDecimal::from(d)
}

/// Relies on `PreciseDecimal::checked_add`: exact addition of the subunits,
/// `None` exactly when the sum leaves 256 bits.
#[verifier::external_body]
pub fn pd_checked_add(a: PreciseDecimal, b: PreciseDecimal) -> (r: Option<PreciseDecimal>)
    ensures
        match r {
            Some(v) => in_i256(pd_subunits(a) + pd_subunits(b))
                && pd_subunits(v) == pd_subunits(a) + pd_subunits(b),
            None => !in_i256(pd_subunits(a) + pd_subunits(b)),
        },
{
    a.checked_add(b)
}

/// Relies on `PreciseDecimal::checked_sub`: exact subtraction of the
/// subunits, `None` exactly when the difference leaves 256 bits.
#[verifier::external_body]
pub fn pd_checked_sub(a: PreciseDecimal, b: PreciseDecimal) -> (r: Option<PreciseDecimal>)
    ensures
        match r {
            Some(v) => in_i256(pd_subunits(a) - pd_subunits(b))
                && pd_subunits(v) == pd_subunits(a) - pd_subunits(b),
            None => !in_i256(pd_subunits(a) - pd_subunits(b)),
        },
{
    a.checked_sub(b)
}

/// Relies on `PreciseDecimal::checked_mul`: multiplies the subunits through
/// a 384-bit intermediate and divides by `10^36` truncating toward zero;
/// `None` exactly when an intermediate or the result leaves its range.
#[verifier::external_body]
pub fn pd_checked_mul(a: PreciseDecimal, b: PreciseDecimal) -> (r: Option<PreciseDecimal>)
    ensures
        match r {
            Some(v) => in_i384(pd_subunits(a) * pd_subunits(b))
                && in_i256(tdiv(pd_subunits(a) * pd_subunits(b), pd_one()))
                && pd_subunits(v) == tdiv(pd_subunits(a) * pd_subunits(b), pd_one()),
            None => !(in_i384(pd_subunits(a) * pd_subunits(b))
                && in_i256(tdiv(pd_subunits(a) * pd_subunits(b), pd_one()))),
        },
{
    a.checked_mul(b)
}

/// Relies on `PreciseDecimal::checked_div`: multiplies the dividend's
/// subunits by `10^36` through a 384-bit intermediate and divides by the
/// divisor's subunits truncating toward zero; `None` exactly when the
/// quotient leaves 256 bits.
#[verifier::external_body]
pub fn pd_checked_div(a: PreciseDecimal, b: PreciseDecimal) -> (r: Option<PreciseDecimal>)
    requires
        pd_subunits(b) != 0,
    ensures
        match r {
            Some(v) => in_i256(tdiv(pd_subunits(a) * pd_one(), pd_subunits(b)))
                && pd_subunits(v) == tdiv(pd_subunits(a) * pd_one(), pd_subunits(b)),
            None => !in_i256(tdiv(pd_subunits(a) * pd_one(), pd_subunits(b))),
        },
{
    a.checked_div(b)
}

/// Relies on `PreciseDecimal::checked_neg`: exact negation of the subunits.
#[verifier::external_body]
pub fn pd_checked_neg(a: PreciseDecimal) -> (r: Option<PreciseDecimal>)
    ensures
        match r {
            Some(v) => in_i256(-pd_subunits(a)) && pd_subunits(v) == -pd_subunits(a),
            None => !in_i256(-pd_subunits(a)),
        },
{
    a.checked_neg()
}
/// Relies on `PreciseDecimal::checked_round` with `ToNegativeInfinity` and
/// `CheckedTruncate::checked_truncate`: floors the value to `places` decimal
/// places and returns it as a `Decimal`, exactly; `None` exactly when the
/// floored value leaves the `Decimal` range.
#[verifier::external_body]
pub fn pd_checked_floor_to(p: PreciseDecimal, places: u8) -> (r: Option<Decimal>)
    requires
        places <= 18,
    ensures
        match r {
            Some(v) => in_i192(floor_div(pd_subunits(p), pow10((36 - places) as nat)) * pow10((18 - places) as nat))
                && dec_attos(v) == floor_div(pd_subunits(p), pow10((36 - places) as nat)) * pow10((18 - places) as nat),
            None => !in_i192(floor_div(pd_subunits(p), pow10((36 - places) as nat)) * pow10((18 - places) as nat)),
        },
{
    p.checked_round(places as i32, RoundingMode::ToNegativeInfinity)?
        .checked_truncate(RoundingMode::ToZero)
}

/// Relies on `PreciseDecimal::checked_round` with `ToPositiveInfinity` and
/// `CheckedTruncate::checked_truncate`: ceils the value to `places` decimal
/// places and returns it as a `Decimal`, exactly; `None` exactly when the
/// ceiled value leaves the `Decimal` range.
#[verifier::external_body]
pub fn pd_checked_ceil_to(p: PreciseDecimal, places: u8) -> (r: Option<Decimal>)
    requires
        places <= 18,
    ensures
        match r {
            Some(v) => in_i192(ceil_div(pd_subunits(p), pow10((36 - places) as nat)) * pow10((18 - places) as nat))
                && dec_attos(v) == ceil_div(pd_subunits(p), pow10((36 - places) as nat)) * pow10((18 - places) as nat),
            None => !in_i192(ceil_div(pd_subunits(p), pow10((36 - places) as nat)) * pow10((18 - places) as nat)),
        },
{
    p.checked_round(places as i32, RoundingMode::ToPositiveInfinity)?
        .checked_truncate(RoundingMode::ToZero)
}

/// Relies on `PartialOrd` of `PreciseDecimal`, which compares the subunits.
#[verifier::external_body]
pub fn pd_le(a: &PreciseDecimal, b: &PreciseDecimal) -> (r: bool)
    ensures
        r == (pd_subunits(*a) <= pd_subunits(*b)),
{
    a <= b
}

/// Relies on `PartialOrd` of `PreciseDecimal`, which compares the subunits.
#[verifier::external_body]
pub fn pd_lt(a: &PreciseDecimal, b: &PreciseDecimal) -> (r: bool)
    ensures
        r == (pd_subunits(*a) < pd_subunits(*b)),
{
    a < b
}

/// Relies on `PartialEq` of `PreciseDecimal`, which compares the subunits.
#[verifier::external_body]
pub fn pd_eq(a: &PreciseDecimal, b: &PreciseDecimal) -> (r: bool)
    ensures
        r == (pd_subunits(*a) == pd_subunits(*b)),
{
    a == b
}

/// Relies on `Decimal::checked_add`: exact addition of the attos, `None`
/// exactly when the sum leaves 192 bits.
#[verifier::external_body]
pub fn dec_checked_add(a: Decimal, b: Decimal) -> (r: Option<Decimal>)
    ensures
        match r {
            Some(v) => in_i192(dec_attos(a) + dec_attos(b))
                && dec_attos(v) == dec_attos(a) + dec_attos(b),
            None => !in_i192(dec_attos(a) + dec_attos(b)),
        },
{
    a.checked_add(b)
}

/// Relies on `Decimal::checked_sub`: exact subtraction of the attos, `None`
/// exactly when the difference leaves 192 bits.
#[verifier::external_body]
pub fn dec_checked_sub(a: Decimal, b: Decimal) -> (r: Option<Decimal>)
    ensures
        match r {
            Some(v) => in_i192(dec_attos(a) - dec_attos(b))
                && dec_attos(v) == dec_attos(a) - dec_attos(b),
            None => !in_i192(dec_attos(a) - dec_attos(b)),
        },
{
    a.checked_sub(b)
}
/// Relies on `Decimal::checked_mul`: multiplies the attos through a 256-bit
/// intermediate and divides by `10^18` truncating toward zero; `None`
/// exactly when an intermediate or the result leaves its range.
#[verifier::external_body]
pub fn dec_checked_mul(a: Decimal, b: Decimal) -> (r: Option<Decimal>)
    ensures
        match r {
            Some(v) => in_i256(dec_attos(a) * dec_attos(b))
                && in_i192(tdiv(dec_attos(a) * dec_attos(b), d_one()))
                && dec_attos(v) == tdiv(dec_attos(a) * dec_attos(b), d_one()),
            None => !(in_i256(dec_attos(a) * dec_attos(b))
                && in_i192(tdiv(dec_attos(a) * dec_attos(b), d_one()))),
        },
{
    a.checked_mul(b)
}

/// Relies on `Decimal::checked_round` with `ToNegativeInfinity`: floors the
/// value to `places` decimal places, exactly; `None` exactly when the result
/// leaves 192 bits.
#[verifier::external_body]
pub fn dec_checked_floor_to(a: Decimal, places: u8) -> (r: Option<Decimal>)
    requires
        places <= 18,
    ensures
        match r {
            Some(v) => in_i192(floor_div(dec_attos(a), pow10((18 - places) as nat)) * pow10((18 - places) as nat))
                && dec_attos(v) == floor_div(dec_attos(a), pow10((18 - places) as nat)) * pow10((18 - places) as nat),
            None => !in_i192(floor_div(dec_attos(a), pow10((18 - places) as nat)) * pow10((18 - places) as nat)),
        },
{
    a.checked_round(places as i32, RoundingMode::ToNegativeInfinity)
}

/// Relies on `PartialOrd` of `Decimal`, which compares the attos.
#[verifier::external_body]
pub fn dec_le(a: &Decimal, b: &Decimal) -> (r: bool)
    ensures
        r == (dec_attos(*a) <= dec_attos(*b)),
{
    a <= b
}

/// Relies on `PartialOrd` of `Decimal`, which compares the attos.
#[verifier::external_body]
pub fn dec_lt(a: &Decimal, b: &Decimal) -> (r: bool)
    ensures
        r == (dec_attos(*a) < dec_attos(*b)),
{
    a < b
}

/// Exact addition; the caller shows the sum stays in range.
pub fn pd_add(a: PreciseDecimal, b: PreciseDecimal) -> (r: PreciseDecimal)
    requires
        in_i256(pd_subunits(a) + pd_subunits(b)),
    ensures
        pd_subunits(r) == pd_subunits(a) + pd_subunits(b),
{
    pd_checked_add(a, b).unwrap()
}

/// Exact subtraction; the caller shows the difference stays in range.
pub fn pd_sub(a: PreciseDecimal, b: PreciseDecimal) -> (r: PreciseDecimal)
    requires
        in_i256(pd_subunits(a) - pd_subunits(b)),
    ensures
        pd_subunits(r) == pd_subunits(a) - pd_subunits(b),
{
    pd_checked_sub(a, b).unwrap()
}

/// Exact negation; the caller shows the result stays in range.
pub fn pd_neg(a: PreciseDecimal) -> (r: PreciseDecimal)
    requires
        in_i256(-pd_subunits(a)),
    ensures
        pd_subunits(r) == -pd_subunits(a),
{
    pd_checked_neg(a).unwrap()
}

/// Exact addition; the caller shows the sum stays in range.
pub fn dec_add(a: Decimal, b: Decimal) -> (r: Decimal)
    requires
        in_i192(dec_attos(a) + dec_attos(b)),
    ensures
        dec_attos(r) == dec_attos(a) + dec_attos(b),
{
    dec_checked_add(a, b).unwrap()
}

/// Exact subtraction; the caller shows the difference stays in range.
pub fn dec_sub(a: Decimal, b: Decimal) -> (r: Decimal)
    requires
        in_i192(dec_attos(a) - dec_attos(b)),
    ensures
        dec_attos(r) == dec_attos(a) - dec_attos(b),
{
    dec_checked_sub(a, b).unwrap()
}
/// Relies on `PreciseDecimal::from::<u32>`: exact, the value times `10^36`;
/// never overflows 256 bits.
#[verifier::external_body]
pub fn pd_from_u32(n: u32) -> (r: PreciseDecimal)
    ensures
        pd_subunits(r) == n * pd_one(),
{
    PreciseDecimal::from(n)
}

/// For a non-negative dividend and positive divisor the quotient is
/// non-negative and no greater than the dividend.
pub proof fn lemma_div_range(a: int, b: int)
    requires
        a >= 0,
        b >= 1,
    ensures
        0 <= a / b <= a,
        0 <= tdiv(a, b) <= a,
        tdiv(a, b) == a / b,
{
    vstd::arithmetic::div_mod::lemma_div_pos_is_pos(a, b);
    vstd::arithmetic::div_mod::lemma_div_nonincreasing(a, b);
}

/// The quotient times the divisor falls within one divisor below the
/// dividend.
pub proof fn lemma_div_mul_bounds(a: int, b: int)
    requires
        b >= 1,
    ensures
        (a / b) * b <= a,
        a < (a / b) * b + b,
        a - b < (a / b) * b,
{
    vstd::arithmetic::div_mod::lemma_fundamental_div_mod(a, b);
    vstd::arithmetic::div_mod::lemma_mod_division_less_than_divisor(a, b);
    assert((a / b) * b == b * (a / b)) by (nonlinear_arith);
}

/// The ceiling quotient times the divisor falls within one divisor above
/// the dividend.
pub proof fn lemma_ceil_mul_bounds(a: int, b: int)
    requires
        b >= 1,
    ensures
        a <= ceil_div(a, b) * b,
        ceil_div(a, b) * b < a + b,
    {
    lemma_div_mul_bounds(-a, b);
    assert(ceil_div(a, b) * b == -(((-a) / b) * b)) by (nonlinear_arith);
}

/// Division by a positive divisor keeps order of the dividends.
pub proof fn lemma_div_ordered(a1: int, a2: int, b: int)
    requires
        a1 <= a2,
        b >= 1,
    ensures
        a1 / b <= a2 / b,
{
    vstd::arithmetic::div_mod::lemma_div_is_ordered(a1, a2, b);
}

/// A non-negative dividend divided by the larger of two positive divisors
/// gives the smaller quotient.
pub proof fn lemma_div_ordered_by_denominator(a: int, b1: int, b2: int)
    requires
        a >= 0,
        1 <= b1 <= b2,
    ensures
        a / b2 <= a / b1,
{
    vstd::arithmetic::div_mod::lemma_div_is_ordered_by_denominator(a, b1, b2);
}

/// Powers of ten multiply by adding exponents.
pub proof fn lemma_pow10_adds(m: nat, n: nat)
    ensures
        pow10(m + n) == pow10(m) * pow10(n),
    decreases n,
{
    if n == 0 {
    } else {
        lemma_pow10_adds(m, (n - 1) as nat);
        assert(pow10(m) * pow10(n) == pow10(m) * (10 * pow10((n - 1) as nat))) by (nonlinear_arith)
            requires pow10(n) == 10 * pow10((n - 1) as nat);
        assert(pow10(m) * (10 * pow10((n - 1) as nat)) == 10 * (pow10(m) * pow10((n - 1) as nat)))
            by (nonlinear_arith);
    }
}

/// Multiplying both sides of an inequality by a non-negative factor keeps it.
pub proof fn lemma_mul_ordered(x1: int, x2: int, y: int)
    requires
        x1 <= x2,
        y >= 0,
    ensures
        x1 * y <= x2 * y,
{
    vstd::arithmetic::mul::lemma_mul_inequality(x1, x2, y);
}

/// `10^e` as a machine integer, for exponents up to 18.
pub fn ten_pow(e: u8) -> (r: u64)
    requires
        e <= 18,
    ensures
        r == pow10(e as nat),
{
    let mut r: u64 = 1;
    let mut i: u8 = 0;
    while i < e
        invariant
            i <= e,
            e <= 18,
            r == pow10(i as nat),
        decreases e - i,
    {
        proof {
            lemma_pow10_increases(i as nat, 17);
            assert(pow10(17) == 100000000000000000) by {
                reveal_with_fuel(pow10, 19);
            }
        }
        r = r * 10;
        i = i + 1;
    }
    r
}

pub proof fn lemma_pow10_pos(n: nat)
    ensures
        pow10(n) >= 1,
    decreases n,
{
    if n > 0 {
        lemma_pow10_pos((n - 1) as nat);
    }
}

pub proof fn lemma_pow10_increases(m: nat, n: nat)
    requires
        m <= n,
    ensures
        pow10(m) <= pow10(n),
    decreases n,
{
    lemma_pow10_pos(m);
    if m < n {
        lemma_pow10_increases(m, (n - 1) as nat);
        lemma_pow10_pos((n - 1) as nat);
    }
}

/// The zero value of `PreciseDecimal`.
pub fn pd_zero() -> (r: PreciseDecimal)
    ensures
        pd_subunits(r) == 0,
{
    pd_from_digits(0, 0, 0, 0)
}

/// The value one of `PreciseDecimal`.
pub fn pd_one_value() -> (r: PreciseDecimal)
    ensures
        pd_subunits(r) == pd_one(),
{
    pd_from_digits(12919594847110692864, 54210108624275221, 0, 0)
}

/// The smallest positive `PreciseDecimal`: one `10^-36` subunit.
pub fn pd_subunit() -> (r: PreciseDecimal)
    ensures
        pd_subunits(r) == 1,
{
    pd_from_digits(1, 0, 0, 0)
}

/// The zero value of `Decimal`.
pub fn dec_zero() -> (r: Decimal)
    ensures
        dec_attos(r) == 0,
{
    dec_from_digits(0, 0, 0)
}

/// The value one of `Decimal`.
pub fn dec_one_value() -> (r: Decimal)
    ensures
        dec_attos(r) == d_one(),
{
    dec_from_digits(1000000000000000000, 0, 0)
}

/// The smallest positive `Decimal`: one `10^-18` atto.
pub fn dec_atto() -> (r: Decimal)
    ensures
        dec_attos(r) == 1,
{
    dec_from_digits(1, 0, 0)
}

/// The larger of two amounts.
pub fn dec_max(a: Decimal, b: Decimal) -> (r: Decimal)
    ensures
        dec_attos(r) == if dec_attos(a) >= dec_attos(b) { dec_attos(a) } else { dec_attos(b) },
{
    if dec_le(&b, &a) {
        a
    } else {
        b
    }
}

/// The smaller of two amounts.
pub fn dec_min(a: Decimal, b: Decimal) -> (r: Decimal)
    ensures
        dec_attos(r) == if dec_attos(a) <= dec_attos(b) { dec_attos(a) } else { dec_attos(b) },
{
    if dec_le(&a, &b) {
        a
    } else {
        b
    }
}

/// The larger of two precise values.
pub fn pd_max(a: PreciseDecimal, b: PreciseDecimal) -> (r: PreciseDecimal)
    ensures
        pd_subunits(r) == if pd_subunits(a) >= pd_subunits(b) { pd_subunits(a) } else { pd_subunits(b) },
{
    if pd_le(&b, &a) {
        a
    } else {
        b
    }
}

/// The smaller of two precise values.
pub fn pd_min(a: PreciseDecimal, b: PreciseDecimal) -> (r: PreciseDecimal)
    ensures
        pd_subunits(r) == if pd_subunits(a) <= pd_subunits(b) { pd_subunits(a) } else { pd_subunits(b) },
{
    if pd_le(&a, &b) {
        a
    } else {
        b
    }
}

} // verus!
