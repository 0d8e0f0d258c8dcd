//! The pool orchestrator: owns the price, the active liquidity, the tick
//! store and the liquidity positions, validates every operation, and
//! mediates swaps, liquidity changes, fee claims and flash loans.
//!
//! Asset custody, lifecycle hooks, the oracle and the fee registry are
//! external collaborators: operations here compute and return the exact
//! amounts to move, and fail atomically — an error leaves the pool
//! unchanged.

use vstd::prelude::*;
use scrypto::prelude::Decimal;
use scrypto::prelude::PreciseDecimal;
use crate::constants::MAX_TICK;
use crate::constants::MIN_TICK;
use crate::constants::fee_protocol_share_max;
use crate::constants::fee_protocol_share_max_attos;
use crate::constants::flash_loan_fee_rate_max;
use crate::constants::flash_loan_fee_rate_max_attos;
use crate::constants::hooks_min_remaining_fraction;
use crate::constants::hooks_min_remaining_fraction_attos;
use crate::constants::input_fee_rate_max;
use crate::constants::input_fee_rate_max_attos;
use crate::errors::PoolError;
use crate::fixed_point::ceil_div;
use crate::fixed_point::d_one;
use crate::fixed_point::dec_attos;
use crate::fixed_point::dec_checked_add;
use crate::fixed_point::dec_checked_floor_to;
use crate::fixed_point::dec_checked_mul;
use crate::fixed_point::dec_checked_sub;
use crate::fixed_point::dec_le;
use crate::fixed_point::dec_lt;
use crate::fixed_point::dec_max;
use crate::fixed_point::dec_min;
use crate::fixed_point::dec_sub;
use crate::fixed_point::dec_zero;
use crate::fixed_point::floor_div;
use crate::fixed_point::i192_max;
use crate::fixed_point::i256_max;
use crate::fixed_point::in_i192;
use crate::fixed_point::in_i256;
use crate::fixed_point::lemma_div_range;
use crate::fixed_point::pd_checked_add;
use crate::fixed_point::pd_checked_mul;
use crate::fixed_point::pd_checked_sub;
use crate::fixed_point::pd_eq;
use crate::fixed_point::pd_from_dec;
use crate::fixed_point::pd_le;
use crate::fixed_point::pd_lt;
use crate::fixed_point::pd_neg;
use crate::fixed_point::pd_one;
use crate::fixed_point::pd_subunits;
use crate::fixed_point::pd_zero;
use crate::fixed_point::pow10;
use crate::fixed_point::tdiv;
use crate::liquidity_math::allowed_amounts;
use crate::liquidity_math::remove_amounts;
use crate::swap_math::SwapState;
use crate::swap_math::SwapType;
use crate::swap_math::StepControl;
use crate::swap_math::active_tick_or_min;
use crate::swap_math::buy_step;
use crate::swap_math::input_amount_net;
use crate::swap_math::sell_step;
use crate::swap_math::value_in_range;
use crate::swap_math::value_in_range_seconds;
use crate::swap_math::partial_step_fits;
use crate::swap_math::value_in_range_spec;
use crate::tick_math::align_tick;
use crate::tick_math::max_liquidity_per_tick;
use crate::tick_math::max_liquidity_per_tick_subunits;
use crate::tick_math::tick_to_price_sqrt;
use crate::tick_store::Tick;
use crate::tick_store::TickStore;

verus! {

/// One of the pool's two tokens.
#[derive(Clone, Copy, Debug, PartialEq, Eq, Structural)]
pub enum PoolToken {
    X,
    Y,
}

/// A liquidity position: a liquidity amount anchored between two grid
/// ticks, with the checkpoints from which incremental fee claims and
/// time-in-range queries are computed.
pub struct LiquidityPosition {
    pub id: u64,
    pub liquidity: PreciseDecimal,
    pub left_bound: i32,
    pub right_bound: i32,
    pub shape_id: Option<u64>,
    pub added_at: u64,
    pub x_fee_checkpoint: PreciseDecimal,
    pub y_fee_checkpoint: PreciseDecimal,
    pub x_total_fee_checkpoint: PreciseDecimal,
    pub y_total_fee_checkpoint: PreciseDecimal,
    pub seconds_inside_checkpoint: i64,
}

/// The terms of one outstanding flash loan: the token borrowed, the total
/// amount due back, and the fee part of it.
pub struct FlashLoan {
    pub token: PoolToken,
    pub due_amount: Decimal,
    pub fee: Decimal,
}

/// The amounts a completed swap moves: what was consumed from the input,
/// the realized fees, the output released, and the unconsumed remainder
/// returned to the trader.
pub struct SwapOutcome {
    pub input_consumed: Decimal,
    pub input_fee_lp: Decimal,
    pub input_fee_protocol: Decimal,
    pub output: Decimal,
    pub remainder: Decimal,
}

/// The amounts an addition of liquidity consumes and the minted position.
pub struct AddLiquidityOutcome {
    pub position_id: u64,
    pub x_consumed: Decimal,
    pub y_consumed: Decimal,
}

/// The amounts a removal of liquidity pays out: the principal of both
/// tokens and the auto-claimed fees.
pub struct RemoveLiquidityOutcome {
    pub x_principal: Decimal,
    pub y_principal: Decimal,
    pub x_fees: Decimal,
    pub y_fees: Decimal,
}

/// A concentrated-liquidity pool.
pub struct Pool {
    pub tick_spacing: u32,
    pub max_liquidity_per_tick: PreciseDecimal,
    pub x_divisibility: u8,
    pub y_divisibility: u8,
    pub price_sqrt: PreciseDecimal,
    pub active_tick: Option<i32>,
    pub active_liquidity: PreciseDecimal,
    pub ticks: TickStore,
    pub input_fee_rate: Decimal,
    pub fee_protocol_share: Decimal,
    pub flash_loan_fee_rate: Decimal,
    pub x_lp_fee: PreciseDecimal,
    pub y_lp_fee: PreciseDecimal,
    pub x_protocol_fee: Decimal,
    pub y_protocol_fee: Decimal,
    pub instantiated_at: u64,
    pub observed_at: u64,
    pub next_sync_time: u64,
    pub lp_counter: u64,
    pub positions: Vec<LiquidityPosition>,
}

impl Pool {
    /// A stored tick is internally consistent: its index on the grid, its
    /// price positive, its gross liquidity within the per-tick cap, its
    /// signed delta within the gross amount, and its accumulators within
    /// their ranges.
    pub open spec fn tick_wf(self, t: Tick) -> bool {
        &&& MIN_TICK <= t.index <= MAX_TICK
        &&& 0 < pd_subunits(t.price_sqrt) <= i256_max()
        &&& 0 <= pd_subunits(t.total_liquidity)
        &&& pd_subunits(t.total_liquidity) <= pd_subunits(self.max_liquidity_per_tick)
        &&& -pd_subunits(t.total_liquidity) <= pd_subunits(t.delta_liquidity)
            <= pd_subunits(t.total_liquidity)
        &&& in_i256(pd_subunits(t.x_fee_outside))
        &&& in_i256(pd_subunits(t.y_fee_outside))
        &&& t.seconds_outside <= self.observed_at - self.instantiated_at
    }

    /// A stored position is internally consistent.
    pub open spec fn position_wf(self, p: LiquidityPosition) -> bool {
        &&& MIN_TICK <= p.left_bound < p.right_bound <= MAX_TICK
        &&& 0 <= pd_subunits(p.liquidity) <= i256_max()
        &&& in_i256(pd_subunits(p.x_fee_checkpoint))
        &&& in_i256(pd_subunits(p.y_fee_checkpoint))
        &&& 1 <= p.id <= self.lp_counter
        &&& -0x2000000000000 <= p.seconds_inside_checkpoint <= 0x1000000000000
    }

    /// The pool's invariant: every configured rate within its maximum,
    /// every stored amount within its range, the ticks strictly sorted,
    /// and the clock monotone.
    pub open spec fn wf(self) -> bool {
        &&& 1 <= self.tick_spacing <= MAX_TICK as u32
        &&& self.x_divisibility <= 18
        &&& self.y_divisibility <= 18
        &&& pd_subunits(self.max_liquidity_per_tick)
            == max_liquidity_per_tick_subunits(self.tick_spacing as int)
        &&& 0 < pd_subunits(self.price_sqrt) <= i256_max()
        &&& match self.active_tick {
            Some(t) => MIN_TICK <= t <= MAX_TICK,
            None => true,
        }
        &&& 0 <= pd_subunits(self.active_liquidity) <= i256_max()
        &&& self.ticks.sorted()
        &&& forall|i: int|
            0 <= i < self.ticks.view().len() ==> self.tick_wf(#[trigger] self.ticks.view()[i])
        &&& 0 <= dec_attos(self.input_fee_rate) <= input_fee_rate_max_attos()
        &&& 0 <= dec_attos(self.fee_protocol_share) <= fee_protocol_share_max_attos()
        &&& 0 <= dec_attos(self.flash_loan_fee_rate) <= flash_loan_fee_rate_max_attos()
        &&& 0 <= pd_subunits(self.x_lp_fee) <= i256_max()
        &&& 0 <= pd_subunits(self.y_lp_fee) <= i256_max()
        &&& 0 <= dec_attos(self.x_protocol_fee) <= i192_max()
        &&& 0 <= dec_attos(self.y_protocol_fee) <= i192_max()
        &&& self.instantiated_at <= self.observed_at
        &&& self.observed_at - self.instantiated_at <= 0x1000000000000
        &&& forall|i: int|
            0 <= i < self.positions@.len()
                ==> self.position_wf(#[trigger] self.positions@[i])
        &&& forall|i: int, j: int|
            0 <= i < j < self.positions@.len()
                ==> #[trigger] self.positions@[i].id < #[trigger] self.positions@[j].id
    }

    /// Validates a pool's instantiation parameters and creates it with no
    /// liquidity: distinct canonically-ordered fungible tokens, tick
    /// spacing on the grid, a positive starting price within the tick
    /// bounds, and fee rates within the protocol maxima.
    pub fn new(
        x_token: &Vec<u8>,
        y_token: &Vec<u8>,
        x_fungible: bool,
        y_fungible: bool,
        x_divisibility: u8,
        y_divisibility: u8,
        price_sqrt: PreciseDecimal,
        tick_spacing: u32,
        input_fee_rate: Decimal,
        flash_loan_fee_rate: Decimal,
        now: u64,
    ) -> (r: Result<Pool, PoolError>)
        requires
            in_i256(pd_subunits(price_sqrt)),
            in_i192(dec_attos(input_fee_rate)),
            in_i192(dec_attos(flash_loan_fee_rate)),
        ensures
            r is Ok <==> lex_less(x_token@, y_token@) && x_fungible && y_fungible
                && x_divisibility <= 18 && y_divisibility <= 18
                && 1 <= tick_spacing <= MAX_TICK as u32
                && crate::tick_math::tick_price_sqrt_subunits(MIN_TICK as int)
                    <= pd_subunits(price_sqrt)
                    <= crate::tick_math::tick_price_sqrt_subunits(MAX_TICK as int)
                && 0 <= dec_attos(input_fee_rate) <= input_fee_rate_max_attos()
                && 0 <= dec_attos(flash_loan_fee_rate) <= flash_loan_fee_rate_max_attos(),
            match r {
                Ok(pool) => {
                    &&& pool.wf()
                    &&& pool.price_sqrt == price_sqrt
                    &&& pd_subunits(pool.price_sqrt) > 0
                    &&& pool.tick_spacing == tick_spacing
                    &&& pool.input_fee_rate == input_fee_rate
                    &&& pool.flash_loan_fee_rate == flash_loan_fee_rate
                    &&& dec_attos(pool.fee_protocol_share) == 0
                    &&& pool.active_tick is None
                    &&& pd_subunits(pool.active_liquidity) == 0
                    &&& pd_subunits(pool.x_lp_fee) == 0
                    &&& pd_subunits(pool.y_lp_fee) == 0
                    &&& dec_attos(pool.x_protocol_fee) == 0
                    &&& dec_attos(pool.y_protocol_fee) == 0
                    &&& pool.ticks.view().len() == 0
                    &&& pool.positions@.len() == 0
                    &&& pool.lp_counter == 0
                    &&& pool.next_sync_time == 0
                    &&& pool.instantiated_at == now
                    &&& pool.observed_at == now
                    &&& pool.x_divisibility == x_divisibility
                    &&& pool.y_divisibility == y_divisibility
                    // A fresh pool trivially satisfies the lattice
                    // invariant: no ticks, no active liquidity.
                    &&& liquidity_consistent(pool)
                },
                Err(PoolError::InvalidTokenPair) => !(lex_less(x_token@, y_token@) && x_fungible
                    && y_fungible),
                Err(_) => true,
            },
    {
        match validate_token_pair(x_token, y_token, x_fungible, y_fungible) {
            Ok(()) => {},
            Err(e) => {
                return Err(e);
            },
        }
        if x_divisibility > 18 || y_divisibility > 18 {
            return Err(PoolError::InvalidBounds);
        }
        if tick_spacing < 1 || tick_spacing > MAX_TICK as u32 {
            return Err(PoolError::InvalidBounds);
        }
        // A price within the tick bounds is positive by itself: the price
        // of the lowest tick already is.
        let min_price = tick_to_price_sqrt(MIN_TICK);
        let max_price = tick_to_price_sqrt(MAX_TICK);
        if pd_lt(&price_sqrt, &min_price) || pd_lt(&max_price, &price_sqrt) {
            return Err(PoolError::InvalidBounds);
        }
        match assert_input_fee_rate_is_valid(input_fee_rate) {
            Ok(()) => {},
            Err(e) => {
                return Err(e);
            },
        }
        match assert_flash_loan_fee_rate_is_valid(flash_loan_fee_rate) {
            Ok(()) => {},
            Err(e) => {
                return Err(e);
            },
        }
        let cap = max_liquidity_per_tick(tick_spacing);
        Ok(Pool {
            tick_spacing,
            max_liquidity_per_tick: cap,
            x_divisibility,
            y_divisibility,
            price_sqrt,
            active_tick: None,
            active_liquidity: pd_zero(),
            ticks: TickStore::new(),
            input_fee_rate,
            fee_protocol_share: dec_zero(),
            flash_loan_fee_rate,
            x_lp_fee: pd_zero(),
            y_lp_fee: pd_zero(),
            x_protocol_fee: dec_zero(),
            y_protocol_fee: dec_zero(),
            instantiated_at: now,
            observed_at: now,
            next_sync_time: 0,
            lp_counter: 0,
            positions: Vec::new(),
        })
    }

    /// The spacing between initialized grid points of this pool.
    pub fn tick_spacing(&self) -> (r: u32)
        ensures
            r == self.tick_spacing,
    {
        self.tick_spacing
    }

    /// The square root of the current pool price.
    pub fn price_sqrt(&self) -> (r: PreciseDecimal)
        ensures
            r == self.price_sqrt,
    {
        self.price_sqrt
    }

    /// The greatest initialized tick at or below the current price, if any
    /// liquidity has ever existed below it.
    pub fn active_tick(&self) -> (r: Option<i32>)
        ensures
            r == self.active_tick,
    {
        self.active_tick
    }

    /// The liquidity currently earning fees at the current price.
    pub fn active_liquidity(&self) -> (r: PreciseDecimal)
        ensures
            r == self.active_liquidity,
    {
        self.active_liquidity
    }

    /// The fee rate applied to swap inputs.
    pub fn input_fee_rate(&self) -> (r: Decimal)
        ensures
            r == self.input_fee_rate,
    {
        self.input_fee_rate
    }

    /// The share of swap fees awarded to the protocol.
    pub fn fee_protocol_share(&self) -> (r: Decimal)
        ensures
            r == self.fee_protocol_share,
    {
        self.fee_protocol_share
    }

    /// The fee rate applied to flash loans.
    pub fn flash_loan_fee_rate(&self) -> (r: Decimal)
        ensures
            r == self.flash_loan_fee_rate,
    {
        self.flash_loan_fee_rate
    }

    /// The divisibility of token x.
    pub fn x_divisibility(&self) -> (r: u8)
        ensures
            r == self.x_divisibility,
    {
        self.x_divisibility
    }

    /// The divisibility of token y.
    pub fn y_divisibility(&self) -> (r: u8)
        ensures
            r == self.y_divisibility,
    {
        self.y_divisibility
    }

    /// The next time the pool will hand its protocol fees to the registry.
    pub fn next_sync_time(&self) -> (r: u64)
        ensures
            r == self.next_sync_time,
    {
        self.next_sync_time
    }

    /// Whether a registry synchronization is due: the throttle window has
    /// passed.
    pub fn registry_sync_due(&self, now: u64) -> (r: bool)
        ensures
            r == (now >= self.next_sync_time),
    {
        now >= self.next_sync_time
    }

    /// Hands over all protocol fees accumulated since the last
    /// synchronization, emptying both protocol reserves.
    pub fn take_protocol_fees_for_sync(&mut self) -> (r: (Decimal, Decimal))
        requires
            old(self).wf(),
        ensures
            final(self).wf(),
            r.0 == old(self).x_protocol_fee,
            r.1 == old(self).y_protocol_fee,
            dec_attos(final(self).x_protocol_fee) == 0,
            dec_attos(final(self).y_protocol_fee) == 0,
            *final(self) == (Pool {
                x_protocol_fee: final(self).x_protocol_fee,
                y_protocol_fee: final(self).y_protocol_fee,
                ..*old(self)
            }),
    {
        let x = self.x_protocol_fee;
        let y = self.y_protocol_fee;
        self.x_protocol_fee = dec_zero();
        self.y_protocol_fee = dec_zero();
        (x, y)
    }

    /// Applies the registry's answer to a synchronization: the updated
    /// protocol fee share, clamped into its window, and the next allowed
    /// synchronization time.
    pub fn apply_registry_sync(&mut self, fee_protocol_share: Decimal, next_sync_time: u64)
        requires
            old(self).wf(),
            in_i192(dec_attos(fee_protocol_share)),
        ensures
            final(self).wf(),
            dec_attos(final(self).fee_protocol_share) == clamp_attos(
                dec_attos(fee_protocol_share),
                0,
                fee_protocol_share_max_attos(),
            ),
            final(self).next_sync_time == next_sync_time,
            *final(self) == (Pool {
                fee_protocol_share: final(self).fee_protocol_share,
                next_sync_time,
                ..*old(self)
            }),
    {
        self.fee_protocol_share = dec_min(
            dec_max(fee_protocol_share, dec_zero()),
            fee_protocol_share_max(),
        );
        self.next_sync_time = next_sync_time;
    }

    /// Sets the input fee rate, as a before- or after-swap hook may adjust
    /// it; rejects a rate outside the protocol maximum.
    pub fn set_input_fee_rate(&mut self, input_fee_rate: Decimal) -> (r: Result<(), PoolError>)
        requires
            old(self).wf(),
            in_i192(dec_attos(input_fee_rate)),
        ensures
            final(self).wf(),
            r is Ok <==> 0 <= dec_attos(input_fee_rate) <= input_fee_rate_max_attos(),
            match r {
                Ok(()) => *final(self) == (Pool { input_fee_rate, ..*old(self) }),
                Err(e) => e == PoolError::FeeRateOutOfRange && *final(self) == *old(self),
            },
    {
        match assert_input_fee_rate_is_valid(input_fee_rate) {
            Ok(()) => {
                self.input_fee_rate = input_fee_rate;
                Ok(())
            },
            Err(e) => Err(e),
        }
    }

    /// Issues a flash loan: the amount is floored to the token's minimal
    /// unit, the fee is `ceil(amount * flash_loan_fee_rate)`, and a
    /// single-use receipt records the owed principal plus fee.
    pub fn flash_loan(&self, token: PoolToken, loan_amount: Decimal) -> (r: Result<
        (Decimal, FlashLoan),
        PoolError,
    >)
        requires
            self.wf(),
            0 <= dec_attos(loan_amount) <= i192_max(),
        ensures
            ({
                let d = self.divisibility_of(token) as int;
                let floored = floored_amount_attos(dec_attos(loan_amount), d);
                let fee = flash_fee_attos(floored, dec_attos(self.flash_loan_fee_rate), d);
                r is Ok <==> in_i192(floored + fee)
            }),
            match r {
                Ok((amount, terms)) => {
                    &&& terms.token == token
                    &&& dec_attos(amount) == floored_amount_attos(
                        dec_attos(loan_amount),
                        self.divisibility_of(token) as int,
                    )
                    &&& dec_attos(terms.fee) == flash_fee_attos(
                        dec_attos(amount),
                        dec_attos(self.flash_loan_fee_rate),
                        self.divisibility_of(token) as int,
                    )
                    &&& dec_attos(terms.due_amount) == dec_attos(amount) + dec_attos(terms.fee)
                    &&& 0 <= dec_attos(terms.fee)
                    &&& 0 <= dec_attos(amount)
                },
                Err(e) => e == PoolError::AmountOverflow,
            },
    {
        let divisibility = match token {
            PoolToken::X => self.x_divisibility,
            PoolToken::Y => self.y_divisibility,
        };
        proof {
            crate::fixed_point::lemma_pow10_pos((18 - divisibility) as nat);
            crate::fixed_point::lemma_div_mul_bounds(
                dec_attos(loan_amount),
                pow10((18 - divisibility) as nat),
            );
            lemma_div_range(dec_attos(loan_amount), pow10((18 - divisibility) as nat));
            crate::fixed_point::lemma_mul_ordered(
                0,
                floor_div(dec_attos(loan_amount), pow10((18 - divisibility) as nat)),
                pow10((18 - divisibility) as nat),
            );
        }
        let amount = dec_checked_floor_to(loan_amount, divisibility).unwrap();
        proof {
            // The fee product and its ceiling always fit: the floored
            // amount is at most the 192-bit maximum and the rate at most
            // one tenth.
            crate::swap_math::lemma_fee_total_bounds(
                dec_attos(amount),
                dec_attos(self.flash_loan_fee_rate),
                divisibility as int,
            );
            crate::swap_math::lemma_widened_product_exact(
                dec_attos(amount),
                dec_attos(self.flash_loan_fee_rate),
            );
        }
        let amount_precise = pd_from_dec(amount);
        let rate_precise = pd_from_dec(self.flash_loan_fee_rate);
        let product = pd_checked_mul(amount_precise, rate_precise).unwrap();
        let fee = crate::fixed_point::pd_checked_ceil_to(product, divisibility).unwrap();
        proof {
            lemma_flash_fee_nonneg(
                dec_attos(amount),
                dec_attos(self.flash_loan_fee_rate),
                divisibility as int,
            );
        }
        let due_amount = match dec_checked_add(amount, fee) {
            Some(v) => v,
            None => {
                return Err(PoolError::AmountOverflow);
            },
        };
        Ok((amount, FlashLoan { token, due_amount, fee }))
    }

    /// The divisibility of one of the pool's tokens.
    pub open spec fn divisibility_of(self, token: PoolToken) -> u8 {
        match token {
            PoolToken::X => self.x_divisibility,
            PoolToken::Y => self.y_divisibility,
        }
    }

    /// Settles a flash loan: exactly one receipt, the matching token, and
    /// a payment covering the amount due; the fee goes to the protocol
    /// reserve and any excess is returned.
    pub fn repay_loan(
        &mut self,
        repayment: Decimal,
        token: PoolToken,
        receipts: Vec<FlashLoan>,
    ) -> (r: Result<Decimal, PoolError>)
        requires
            old(self).wf(),
            0 <= dec_attos(repayment) <= i192_max(),
            forall|i: int| 0 <= i < receipts@.len() ==> {
                &&& 0 <= dec_attos(#[trigger] receipts@[i].fee)
                &&& dec_attos(receipts@[i].fee) <= dec_attos(receipts@[i].due_amount)
                &&& dec_attos(receipts@[i].due_amount) <= i192_max()
            },
        ensures
            final(self).wf(),
            r is Ok <==> receipts@.len() == 1 && receipts@[0].token == token
                && dec_attos(repayment) >= dec_attos(receipts@[0].due_amount)
                && in_i192(
                match token {
                    PoolToken::X => dec_attos(old(self).x_protocol_fee),
                    PoolToken::Y => dec_attos(old(self).y_protocol_fee),
                } + dec_attos(receipts@[0].fee),
            ),
            match r {
                Ok(excess) => {
                    &&& receipts@.len() == 1
                    &&& receipts@[0].token == token
                    &&& dec_attos(repayment) >= dec_attos(receipts@[0].due_amount)
                    &&& dec_attos(excess) == dec_attos(repayment) - dec_attos(
                        receipts@[0].due_amount,
                    )
                    &&& dec_attos(final(self).x_protocol_fee) == dec_attos(old(self).x_protocol_fee)
                        + if token is X { dec_attos(receipts@[0].fee) } else { 0 }
                    &&& dec_attos(final(self).y_protocol_fee) == dec_attos(old(self).y_protocol_fee)
                        + if token is Y { dec_attos(receipts@[0].fee) } else { 0 }
                },
                Err(e) => {
                    &&& *final(self) == *old(self)
                    &&& (e == PoolError::MultipleLoanReceipts ==> receipts@.len() != 1)
                    &&& (e == PoolError::WrongRepaymentToken ==> receipts@.len() == 1
                        && receipts@[0].token != token)
                    &&& (e == PoolError::InsufficientRepayment ==> receipts@.len() == 1
                        && receipts@[0].token == token
                        && dec_attos(repayment) < dec_attos(receipts@[0].due_amount))
                    &&& (e == PoolError::MultipleLoanReceipts || e == PoolError::WrongRepaymentToken
                        || e == PoolError::InsufficientRepayment
                        || e == PoolError::AmountOverflow)
                },
            },
    {
        // A bucket holding more than one receipt would allow draining more
        // than was borrowed; exactly one is accepted.
        if receipts.len() != 1 {
            return Err(PoolError::MultipleLoanReceipts);
        }
        let terms = &receipts[0];
        let token_matches = match (terms.token, token) {
            (PoolToken::X, PoolToken::X) => true,
            (PoolToken::Y, PoolToken::Y) => true,
            _ => false,
        };
        if !token_matches {
            return Err(PoolError::WrongRepaymentToken);
        }
        if dec_lt(&repayment, &terms.due_amount) {
            return Err(PoolError::InsufficientRepayment);
        }
        match token {
            PoolToken::X => {
                let new_reserve = match dec_checked_add(self.x_protocol_fee, terms.fee) {
                    Some(v) => v,
                    None => {
                        return Err(PoolError::AmountOverflow);
                    },
                };
                self.x_protocol_fee = new_reserve;
            },
            PoolToken::Y => {
                let new_reserve = match dec_checked_add(self.y_protocol_fee, terms.fee) {
                    Some(v) => v,
                    None => {
                        return Err(PoolError::AmountOverflow);
                    },
                };
                self.y_protocol_fee = new_reserve;
            },
        }
        Ok(dec_sub(repayment, terms.due_amount))
    }
}

/// Clamping of an integer into a closed window.
pub open spec fn clamp_attos(v: int, lo: int, hi: int) -> int {
    if v < lo {
        lo
    } else if v > hi {
        hi
    } else {
        v
    }
}

/// An amount floored to a token's minimal unit, in attos.
pub open spec fn floored_amount_attos(amount: int, divisibility: int) -> int {
    floor_div(amount, pow10((18 - divisibility) as nat)) * pow10((18 - divisibility) as nat)
}

/// The flash-loan fee in attos: the amount times the rate, ceiled to the
/// token's minimal unit.
pub open spec fn flash_fee_attos(amount: int, rate: int, divisibility: int) -> int {
    ceil_div(amount * rate, pow10((36 - divisibility) as nat)) * pow10((18 - divisibility) as nat)
}

/// The flash-loan fee of a non-negative amount is non-negative.
proof fn lemma_flash_fee_nonneg(amount: int, rate: int, d: int)
    requires
        amount >= 0,
        rate >= 0,
        0 <= d <= 18,
    ensures
        flash_fee_attos(amount, rate, d) >= 0,
        tdiv(amount * d_one() * (rate * d_one()), pd_one()) == amount * rate,
{
    let big = pow10((36 - d) as nat);
    let u18 = pow10((18 - d) as nat);
    crate::fixed_point::lemma_pow10_pos((36 - d) as nat);
    crate::fixed_point::lemma_pow10_pos((18 - d) as nat);
    assert(amount * rate >= 0) by (nonlinear_arith)
        requires amount >= 0, rate >= 0;
    let c = ceil_div(amount * rate, big);
    assert(c >= 0) by {
        vstd::arithmetic::div_mod::lemma_div_is_ordered(-(amount * rate), 0, big);
        vstd::arithmetic::div_mod::lemma_div_of0(big);
    }
    assert(c * u18 >= 0) by (nonlinear_arith)
        requires c >= 0, u18 >= 1;
    assert(tdiv(amount * d_one() * (rate * d_one()), pd_one()) == amount * rate) by {
        crate::swap_math::lemma_widened_product_exact(amount, rate);
    }
}

/// Whether one byte string precedes another in strict lexicographic order:
/// the canonical ordering of token identities.
pub open spec fn lex_less(a: Seq<u8>, b: Seq<u8>) -> bool
    decreases a.len() + b.len(),
{
    if b.len() == 0 {
        false
    } else if a.len() == 0 {
        true
    } else if a[0] < b[0] {
        true
    } else if a[0] > b[0] {
        false
    } else {
        lex_less(a.skip(1), b.skip(1))
    }
}

/// Validates a token pair: both fungible and strictly ordered by identity,
/// which also rules out identical tokens.
#[verifier::loop_isolation(false)]
pub fn validate_token_pair(
    x_token: &Vec<u8>,
    y_token: &Vec<u8>,
    x_fungible: bool,
    y_fungible: bool,
) -> (r: Result<(), PoolError>)
    ensures
        r is Ok <==> lex_less(x_token@, y_token@) && x_fungible && y_fungible,
        r is Err ==> r == Result::<(), PoolError>::Err(PoolError::InvalidTokenPair),
{
    if !x_fungible || !y_fungible {
        return Err(PoolError::InvalidTokenPair);
    }
    let n = x_token.len();
    let m = y_token.len();
    let mut i: usize = 0;
    proof {
        assert(x_token@.skip(0) =~= x_token@);
        assert(y_token@.skip(0) =~= y_token@);
    }
    loop
        invariant
            i <= n,
            i <= m,
            n == x_token@.len(),
            m == y_token@.len(),
            lex_less(x_token@, y_token@) == lex_less(x_token@.skip(i as int), y_token@.skip(i as int)),
        decreases n - i,
    {
        proof {
            lemma_lex_less_step(x_token@, y_token@, i as int);
        }
        if i >= m {
            return Err(PoolError::InvalidTokenPair);
        }
        if i >= n {
            return Ok(());
        }
        if x_token[i] < y_token[i] {
            return Ok(());
        }
        if x_token[i] > y_token[i] {
            return Err(PoolError::InvalidTokenPair);
        }
        i = i + 1;
    }
}

/// One unfolding step of the lexicographic order on suffixes.
proof fn lemma_lex_less_step(a: Seq<u8>, b: Seq<u8>, i: int)
    requires
        0 <= i <= a.len(),
        0 <= i <= b.len(),
    ensures
        i < b.len() && i >= a.len() ==> lex_less(a.skip(i), b.skip(i)),
        i >= b.len() ==> !lex_less(a.skip(i), b.skip(i)),
        i < a.len() && i < b.len() && a[i] < b[i] ==> lex_less(a.skip(i), b.skip(i)),
        i < a.len() && i < b.len() && a[i] > b[i] ==> !lex_less(a.skip(i), b.skip(i)),
        i < a.len() && i < b.len() && a[i] == b[i]
            ==> lex_less(a.skip(i), b.skip(i)) == lex_less(a.skip(i + 1), b.skip(i + 1)),
{
    let sa = a.skip(i);
    let sb = b.skip(i);
    assert(sa.len() == a.len() - i);
    assert(sb.len() == b.len() - i);
    if i < a.len() && i < b.len() {
        assert(sa[0] == a[i]);
        assert(sb[0] == b[i]);
        if a[i] == b[i] {
            assert(sa.skip(1) =~= a.skip(i + 1));
            assert(sb.skip(1) =~= b.skip(i + 1));
        }
    }
}

/// Checks an input fee rate against its protocol maximum.
pub fn assert_input_fee_rate_is_valid(input_fee_rate: Decimal) -> (r: Result<(), PoolError>)
    requires
        in_i192(dec_attos(input_fee_rate)),
    ensures
        r is Ok <==> 0 <= dec_attos(input_fee_rate) <= input_fee_rate_max_attos(),
        r is Err ==> r == Result::<(), PoolError>::Err(PoolError::FeeRateOutOfRange),
{
    let max = input_fee_rate_max();
    if dec_lt(&input_fee_rate, &dec_zero()) || dec_lt(&max, &input_fee_rate) {
        return Err(PoolError::FeeRateOutOfRange);
    }
    Ok(())
}

/// Checks a flash-loan fee rate against its protocol maximum.
pub fn assert_flash_loan_fee_rate_is_valid(flash_loan_fee_rate: Decimal) -> (r: Result<(), PoolError>)
    requires
        in_i192(dec_attos(flash_loan_fee_rate)),
    ensures
        r is Ok <==> 0 <= dec_attos(flash_loan_fee_rate) <= flash_loan_fee_rate_max_attos(),
        r is Err ==> r == Result::<(), PoolError>::Err(PoolError::FeeRateOutOfRange),
{
    let max = flash_loan_fee_rate_max();
    if dec_lt(&flash_loan_fee_rate, &dec_zero()) || dec_lt(&max, &flash_loan_fee_rate) {
        return Err(PoolError::FeeRateOutOfRange);
    }
    Ok(())
}

/// Checks that a hook returned at least the minimum retained fraction of a
/// bucket: nine tenths of what went in.
pub fn assert_hooks_bucket_output(input_amount: Decimal, output_amount: Decimal) -> (r: Result<
    (),
    PoolError,
>)
    requires
        0 <= dec_attos(input_amount) <= i192_max(),
        in_i192(dec_attos(output_amount)),
    ensures
        r is Ok <==> tdiv(
            dec_attos(input_amount) * hooks_min_remaining_fraction_attos(),
            d_one(),
        ) <= dec_attos(output_amount),
        r is Err ==> r == Result::<(), PoolError>::Err(PoolError::HookDrainViolation),
{
    let fraction = hooks_min_remaining_fraction();
    proof {
        assert(dec_attos(input_amount) * hooks_min_remaining_fraction_attos() >= 0)
            by (nonlinear_arith)
            requires dec_attos(input_amount) >= 0, hooks_min_remaining_fraction_attos() > 0;
        assert(dec_attos(input_amount) * hooks_min_remaining_fraction_attos()
            <= dec_attos(input_amount) * d_one()) by (nonlinear_arith)
            requires dec_attos(input_amount) >= 0,
                hooks_min_remaining_fraction_attos() <= d_one();
        assert(dec_attos(input_amount) * d_one() <= i192_max() * d_one()) by (nonlinear_arith)
            requires dec_attos(input_amount) <= i192_max(), d_one() > 0;
        lemma_div_range(dec_attos(input_amount) * hooks_min_remaining_fraction_attos(), d_one());
        vstd::arithmetic::div_mod::lemma_div_is_ordered(
            dec_attos(input_amount) * hooks_min_remaining_fraction_attos(),
            i192_max() * d_one(),
            d_one(),
        );
        vstd::arithmetic::div_mod::lemma_div_by_multiple(i192_max(), d_one());
    }
    let threshold = dec_checked_mul(input_amount, fraction).unwrap();
    if dec_le(&threshold, &output_amount) {
        Ok(())
    } else {
        Err(PoolError::HookDrainViolation)
    }
}

impl Pool {
    /// Elapsed seconds since instantiation, at the last observed time.
    pub open spec fn seconds_global_spec(self) -> int {
        self.observed_at - self.instantiated_at
    }

    /// The outside x-fee accumulator a boundary tick carries after an
    /// addition: an existing tick keeps its value; a fresh tick starts at
    /// zero above the current price and at the current global below or at
    /// it.
    pub open spec fn add_outside_x_subunits(self, tick_index: int) -> int {
        if self.ticks.contains_index(tick_index) {
            pd_subunits(self.ticks.spec_get(tick_index).unwrap().x_fee_outside)
        } else if pd_subunits(self.price_sqrt)
            < crate::tick_math::tick_price_sqrt_subunits(tick_index) {
            0
        } else {
            pd_subunits(self.x_lp_fee)
        }
    }

    /// The outside y-fee accumulator a boundary tick carries after an
    /// addition.
    pub open spec fn add_outside_y_subunits(self, tick_index: int) -> int {
        if self.ticks.contains_index(tick_index) {
            pd_subunits(self.ticks.spec_get(tick_index).unwrap().y_fee_outside)
        } else if pd_subunits(self.price_sqrt)
            < crate::tick_math::tick_price_sqrt_subunits(tick_index) {
            0
        } else {
            pd_subunits(self.y_lp_fee)
        }
    }

    /// The outside seconds accumulator a boundary tick carries after an
    /// addition at the given elapsed time.
    pub open spec fn add_outside_seconds(self, tick_index: int, seconds_now: int) -> int {
        if self.ticks.contains_index(tick_index) {
            self.ticks.spec_get(tick_index).unwrap().seconds_outside as int
        } else if pd_subunits(self.price_sqrt)
            < crate::tick_math::tick_price_sqrt_subunits(tick_index) {
            0
        } else {
            seconds_now
        }
    }

    /// The active-tick pointer after an addition extends it toward
    /// whichever new bound lies at or below the price and further right
    /// than the old pointer.
    pub open spec fn extended_active_tick(self, la: int, ra: int) -> int {
        let act = active_tick_or_min(self.active_tick);
        let ps = pd_subunits(self.price_sqrt);
        if act < ra && crate::tick_math::tick_price_sqrt_subunits(ra) <= ps {
            ra
        } else if act < la && crate::tick_math::tick_price_sqrt_subunits(la) <= ps {
            la
        } else {
            act
        }
    }

    /// Whether a boundary tick can absorb an addition: the merged amounts
    /// stay in range and the gross liquidity within the per-tick cap.
    pub open spec fn add_tick_fits(self, tick_index: int, delta: int, total: int) -> bool {
        if self.ticks.contains_index(tick_index) {
            let o = self.ticks.spec_get(tick_index).unwrap();
            &&& in_i256(pd_subunits(o.delta_liquidity) + delta)
            &&& in_i256(pd_subunits(o.total_liquidity) + total)
            &&& pd_subunits(o.total_liquidity) + total
                <= pd_subunits(self.max_liquidity_per_tick)
        } else {
            total <= pd_subunits(self.max_liquidity_per_tick)
        }
    }

    /// The merged content of a boundary tick after an addition of
    /// liquidity: an existing tick absorbs the deltas, a fresh tick is
    /// created with its outside accumulators set to zero above the current
    /// price and to the current global accumulators at or below it.
    fn prospective_add_tick(
        &self,
        tick_index: i32,
        delta_liquidity: PreciseDecimal,
        total_liquidity: PreciseDecimal,
        seconds_now: u64,
    ) -> (r: Result<(Tick, bool), PoolError>)
        requires
            self.wf(),
            MIN_TICK <= tick_index <= MAX_TICK,
            0 <= pd_subunits(total_liquidity) <= i256_max(),
            -pd_subunits(total_liquidity) <= pd_subunits(delta_liquidity)
                <= pd_subunits(total_liquidity),
            self.observed_at - self.instantiated_at <= seconds_now,
            seconds_now <= 0x1000000000000,
        ensures
            r is Ok <==> self.add_tick_fits(
                tick_index as int,
                pd_subunits(delta_liquidity),
                pd_subunits(total_liquidity),
            ),
            match r {
                Ok((t, is_new)) => {
                    &&& t.index == tick_index
                    &&& 0 < pd_subunits(t.price_sqrt) <= i256_max()
                    &&& 0 <= pd_subunits(t.total_liquidity)
                        <= pd_subunits(self.max_liquidity_per_tick)
                    &&& -pd_subunits(t.total_liquidity) <= pd_subunits(t.delta_liquidity)
                        <= pd_subunits(t.total_liquidity)
                    &&& in_i256(pd_subunits(t.x_fee_outside))
                    &&& in_i256(pd_subunits(t.y_fee_outside))
                    &&& t.seconds_outside <= seconds_now
                    &&& (is_new <==> !self.ticks.contains_index(tick_index as int))
                    &&& (is_new ==> pd_subunits(t.price_sqrt)
                        == crate::tick_math::tick_price_sqrt_subunits(tick_index as int))
                    &&& (!is_new ==> t.price_sqrt
                        == self.ticks.spec_get(tick_index as int).unwrap().price_sqrt)
                    &&& pd_subunits(t.x_fee_outside)
                        == self.add_outside_x_subunits(tick_index as int)
                    &&& pd_subunits(t.y_fee_outside)
                        == self.add_outside_y_subunits(tick_index as int)
                    &&& t.seconds_outside as int == self.add_outside_seconds(
                        tick_index as int,
                        seconds_now as int,
                    )
                    &&& pd_subunits(t.delta_liquidity) == (if self.ticks.contains_index(
                        tick_index as int,
                    ) {
                        pd_subunits(self.ticks.spec_get(tick_index as int).unwrap().delta_liquidity)
                    } else {
                        0
                    }) + pd_subunits(delta_liquidity)
                    &&& pd_subunits(t.total_liquidity) == (if self.ticks.contains_index(
                        tick_index as int,
                    ) {
                        pd_subunits(self.ticks.spec_get(tick_index as int).unwrap().total_liquidity)
                    } else {
                        0
                    }) + pd_subunits(total_liquidity)
                },
                Err(e) => e == PoolError::TickCapacityExceeded || e == PoolError::AmountOverflow,
            },
    {
        proof {
            self.ticks.lemma_unique_index(tick_index as int);
        }
        match self.ticks.get(tick_index) {
            Some(existing) => {
                proof {
                    let i = choose|i: int|
                        0 <= i < self.ticks.view().len() && self.ticks.view()[i] == existing
                            && #[trigger] self.ticks.view()[i].index == tick_index;
                    assert(self.tick_wf(self.ticks.view()[i]));
                }
                let new_delta = match pd_checked_add(existing.delta_liquidity, delta_liquidity) {
                    Some(v) => v,
                    None => {
                        return Err(PoolError::AmountOverflow);
                    },
                };
                let new_total = match pd_checked_add(existing.total_liquidity, total_liquidity) {
                    Some(v) => v,
                    None => {
                        return Err(PoolError::AmountOverflow);
                    },
                };
                if pd_lt(&self.max_liquidity_per_tick, &new_total) {
                    return Err(PoolError::TickCapacityExceeded);
                }
                Ok((
                    Tick {
                        delta_liquidity: new_delta,
                        total_liquidity: new_total,
                        ..existing
                    },
                    false,
                ))
            },
            None => {
                if pd_lt(&self.max_liquidity_per_tick, &total_liquidity) {
                    return Err(PoolError::TickCapacityExceeded);
                }
                let price_sqrt = tick_to_price_sqrt(tick_index);
                let (x_fee_outside, y_fee_outside, seconds_outside) = if pd_lt(
                    &self.price_sqrt,
                    &price_sqrt,
                ) {
                    (pd_zero(), pd_zero(), 0u64)
                } else {
                    (self.x_lp_fee, self.y_lp_fee, seconds_now)
                };
                Ok((
                    Tick {
                        index: tick_index,
                        delta_liquidity,
                        total_liquidity,
                        price_sqrt,
                        x_fee_outside,
                        y_fee_outside,
                        seconds_outside,
                    },
                    true,
                ))
            },
        }
    }

    /// Writes a prepared tick into the store: in place for an existing
    /// index, inserted at its sorted position for a new one.
    fn put_tick(&mut self, tick: Tick, is_new: bool)
        requires
            old(self).wf(),
            old(self).tick_wf(tick),
            is_new <==> !old(self).ticks.contains_index(tick.index as int),
            is_new ==> old(self).ticks.view().len() < usize::MAX - 1,
        ensures
            final(self).wf(),
            final(self).ticks.contains_index(tick.index as int),
            final(self).ticks.spec_get(tick.index as int) == Some(tick),
            forall|k: int|
                old(self).ticks.contains_index(k)
                    ==> #[trigger] final(self).ticks.contains_index(k),
            forall|k: int|
                k != tick.index && final(self).ticks.contains_index(k)
                    ==> #[trigger] old(self).ticks.contains_index(k),
            forall|k: int|
                k != tick.index && old(self).ticks.contains_index(k)
                    ==> #[trigger] final(self).ticks.spec_get(k)
                        == old(self).ticks.spec_get(k),
            final(self).ticks.view().len() <= old(self).ticks.view().len() + 1,
            *final(self) == (Pool { ticks: final(self).ticks, ..*old(self) }),
    {
        proof {
            self.ticks.lemma_unique_index(tick.index as int);
        }
        if is_new {
            let ghost olds = self.ticks;
            let position = self.ticks.insert(tick);
            proof {
                olds.view().insert_ensures(position as int, tick);
                assert(self.ticks.contains_index(tick.index as int));
                self.ticks.lemma_unique_index(tick.index as int);
                assert(self.ticks.view()[position as int] == tick);
                assert(self.ticks.spec_get(tick.index as int) == Some(tick));
                assert forall|k: int|
                    olds.contains_index(k) implies #[trigger] self.ticks.contains_index(k) by {
                    let i = choose|i: int|
                        0 <= i < olds.view().len() && #[trigger] olds.view()[i].index == k;
                    if i < position {
                        assert(self.ticks.view()[i] == olds.view()[i]);
                    } else {
                        assert(self.ticks.view()[i + 1] == olds.view()[i]);
                    }
                }
                assert forall|k: int|
                    k != tick.index && self.ticks.contains_index(k)
                        implies #[trigger] olds.contains_index(k) by {
                    let i = choose|i: int|
                        0 <= i < self.ticks.view().len()
                            && #[trigger] self.ticks.view()[i].index == k;
                    if i < position {
                        assert(olds.view()[i].index == k);
                    } else if i == position {
                    } else {
                        assert(olds.view()[i - 1].index == k);
                    }
                }
                assert forall|k: int|
                    k != tick.index && olds.contains_index(k)
                        implies #[trigger] self.ticks.spec_get(k) == olds.spec_get(k) by {
                    olds.lemma_unique_index(k);
                    self.ticks.lemma_unique_index(k);
                    let i = olds.index_position(k);
                    if i < position {
                        assert(self.ticks.view()[i] == olds.view()[i]);
                    } else {
                        assert(self.ticks.view()[i + 1] == olds.view()[i]);
                    }
                }
                assert forall|i: int|
                    0 <= i < self.ticks.view().len()
                        implies self.tick_wf(#[trigger] self.ticks.view()[i]) by {
                    if i < position {
                        assert(self.ticks.view()[i] == olds.view()[i]);
                    } else if i == position {
                    } else {
                        assert(self.ticks.view()[i] == olds.view()[i - 1]);
                    }
                }
            }
        } else {
            let position = self.ticks.find(tick.index).unwrap();
            let ghost olds = self.ticks;
            self.ticks.entries[position] = tick;
            proof {
                let s = self.ticks.view();
                assert(s =~= olds.view().update(position as int, tick));
                assert forall|a: int, b: int| 0 <= a < b < s.len() implies #[trigger] s[a].index
                    < #[trigger] s[b].index by {
                    assert(olds.view()[a].index < olds.view()[b].index);
                    assert(s[a].index == olds.view()[a].index);
                    assert(s[b].index == olds.view()[b].index);
                }
                assert(self.ticks.contains_index(tick.index as int));
                self.ticks.lemma_unique_index(tick.index as int);
                olds.lemma_unique_index(tick.index as int);
                assert(self.ticks.spec_get(tick.index as int) == Some(tick));
                assert forall|k: int|
                    k != tick.index && olds.contains_index(k)
                        implies #[trigger] self.ticks.spec_get(k) == olds.spec_get(k) by {
                    olds.lemma_unique_index(k);
                    self.ticks.lemma_unique_index(k);
                    let i = olds.index_position(k);
                    assert(s[i] == olds.view()[i]);
                }
                assert forall|k: int|
                    olds.contains_index(k) implies #[trigger] self.ticks.contains_index(k) by {
                    let i = choose|i: int|
                        0 <= i < olds.view().len() && #[trigger] olds.view()[i].index == k;
                    assert(s[i].index == k);
                }
                assert forall|k: int|
                    k != tick.index && self.ticks.contains_index(k)
                        implies #[trigger] olds.contains_index(k) by {
                    let i = choose|i: int|
                        0 <= i < s.len() && #[trigger] s[i].index == k;
                    assert(olds.view()[i].index == k);
                }
                assert forall|i: int|
                    0 <= i < s.len() implies self.tick_wf(#[trigger] s[i]) by {
                    if i != position {
                        assert(s[i] == olds.view()[i]);
                    }
                }
            }
        }
    }
}

impl Pool {
    /// Whether some stored position has this identifier.
    pub open spec fn has_position(self, id: u64) -> bool {
        exists|i: int| 0 <= i < self.positions@.len() && #[trigger] self.positions@[i].id == id
    }

    /// The index of the position with this identifier.
    pub open spec fn position_index(self, id: u64) -> int {
        choose|i: int| 0 <= i < self.positions@.len() && #[trigger] self.positions@[i].id == id
    }

    /// The stored position with this identifier, as a mathematical value.
    pub open spec fn spec_position(self, id: u64) -> Option<LiquidityPosition> {
        if self.has_position(id) {
            Some(self.positions@[self.position_index(id)])
        } else {
            None
        }
    }

    /// With strictly increasing identifiers, at most one position holds an
    /// identifier.
    pub proof fn lemma_unique_position(self, id: u64)
        requires
            forall|i: int, j: int|
                0 <= i < j < self.positions@.len()
                    ==> #[trigger] self.positions@[i].id < #[trigger] self.positions@[j].id,
        ensures
            forall|i: int|
                0 <= i < self.positions@.len() && #[trigger] self.positions@[i].id == id
                    ==> self.has_position(id) && i == self.position_index(id),
    {
        assert forall|i: int|
            0 <= i < self.positions@.len() && #[trigger] self.positions@[i].id == id
                implies self.has_position(id) && i == self.position_index(id) by {
            let j = self.position_index(id);
            if i != j {
                if i < j {
                    assert(self.positions@[i].id < self.positions@[j].id);
                } else {
                    assert(self.positions@[j].id < self.positions@[i].id);
                }
            }
        }
    }

    /// The vector index of the position with this identifier, if stored.
    #[verifier::loop_isolation(false)]
    fn find_position(&self, id: u64) -> (r: Option<usize>)
        requires
            self.wf(),
        ensures
            match r {
                Some(i) => i < self.positions@.len() && self.positions@[i as int].id == id
                    && self.spec_position(id) == Some(self.positions@[i as int]),
                None => !self.has_position(id),
            },
    {
        proof {
            self.lemma_unique_position(id);
        }
        let n = self.positions.len();
        let mut i: usize = 0;
        while i < n
            invariant
                i <= n,
                n == self.positions@.len(),
                forall|j: int| 0 <= j < i ==> #[trigger] self.positions@[j].id != id,
            decreases n - i,
        {
            if self.positions[i].id == id {
                proof {
                    self.lemma_unique_position(id);
                }
                return Some(i);
            }
            i = i + 1;
        }
        None
    }
}

/// Attos of fee claimable for a position on one token axis: the growth of
/// the range checkpoint since the stored one, times the liquidity, floored
/// to the divisibility.
pub open spec fn claim_attos(
    new_checkpoint: int,
    stored_checkpoint: int,
    liquidity: int,
    divisibility: int,
) -> int {
    floor_div(
        tdiv((new_checkpoint - stored_checkpoint) * liquidity, pd_one()),
        pow10((36 - divisibility) as nat),
    ) * pow10((18 - divisibility) as nat)
}

/// The fresh range checkpoint of a position on the x axis.
pub open spec fn x_checkpoint_spec(pool: Pool, p: LiquidityPosition) -> int {
    value_in_range_spec(
        pd_subunits(pool.x_lp_fee),
        pd_subunits(pool.ticks.spec_get(p.left_bound as int).unwrap().x_fee_outside),
        pd_subunits(pool.ticks.spec_get(p.right_bound as int).unwrap().x_fee_outside),
        active_tick_or_min(pool.active_tick),
        p.left_bound as int,
        p.right_bound as int,
    )
}

/// The fresh range checkpoint of a position on the y axis.
pub open spec fn y_checkpoint_spec(pool: Pool, p: LiquidityPosition) -> int {
    value_in_range_spec(
        pd_subunits(pool.y_lp_fee),
        pd_subunits(pool.ticks.spec_get(p.left_bound as int).unwrap().y_fee_outside),
        pd_subunits(pool.ticks.spec_get(p.right_bound as int).unwrap().y_fee_outside),
        active_tick_or_min(pool.active_tick),
        p.left_bound as int,
        p.right_bound as int,
    )
}

/// Whether one axis of a claim computation stays inside its ranges.
pub open spec fn claim_amount_fits(
    new_checkpoint: int,
    stored_checkpoint: int,
    liquidity: int,
    divisibility: int,
) -> bool {
    &&& in_i256(new_checkpoint - stored_checkpoint)
    &&& crate::fixed_point::in_i384((new_checkpoint - stored_checkpoint) * liquidity)
    &&& in_i256(tdiv((new_checkpoint - stored_checkpoint) * liquidity, crate::fixed_point::pd_one()))
    &&& in_i192(claim_attos(new_checkpoint, stored_checkpoint, liquidity, divisibility))
}

/// Whether a fee query for a position succeeds against the given stored
/// checkpoints: both boundary ticks live in the store and every
/// intermediate of the range-growth and claim arithmetic is in range.
pub open spec fn fee_query_fits(
    pool: Pool,
    p: LiquidityPosition,
    stored_x: int,
    stored_y: int,
) -> bool {
    &&& pool.ticks.contains_index(p.left_bound as int)
    &&& pool.ticks.contains_index(p.right_bound as int)
    &&& crate::swap_math::value_in_range_fits(
        pd_subunits(pool.x_lp_fee),
        pd_subunits(pool.ticks.spec_get(p.left_bound as int).unwrap().x_fee_outside),
        pd_subunits(pool.ticks.spec_get(p.right_bound as int).unwrap().x_fee_outside),
        active_tick_or_min(pool.active_tick),
        p.left_bound as int,
        p.right_bound as int,
    )
    &&& crate::swap_math::value_in_range_fits(
        pd_subunits(pool.y_lp_fee),
        pd_subunits(pool.ticks.spec_get(p.left_bound as int).unwrap().y_fee_outside),
        pd_subunits(pool.ticks.spec_get(p.right_bound as int).unwrap().y_fee_outside),
        active_tick_or_min(pool.active_tick),
        p.left_bound as int,
        p.right_bound as int,
    )
    &&& claim_amount_fits(
        x_checkpoint_spec(pool, p),
        stored_x,
        pd_subunits(p.liquidity),
        pool.x_divisibility as int,
    )
    &&& claim_amount_fits(
        y_checkpoint_spec(pool, p),
        stored_y,
        pd_subunits(p.liquidity),
        pool.y_divisibility as int,
    )
}

/// Whether an incremental fee claim for a position succeeds.
pub open spec fn claim_query_fits(pool: Pool, p: LiquidityPosition) -> bool {
    fee_query_fits(
        pool,
        p,
        pd_subunits(p.x_fee_checkpoint),
        pd_subunits(p.y_fee_checkpoint),
    )
}

/// Whether a lifetime fee query for a position succeeds.
pub open spec fn total_query_fits(pool: Pool, p: LiquidityPosition) -> bool {
    fee_query_fits(
        pool,
        p,
        pd_subunits(p.x_total_fee_checkpoint),
        pd_subunits(p.y_total_fee_checkpoint),
    )
}

impl Pool {
    /// Recomputes a position's fee checkpoints and the amounts claimable
    /// against them, without touching any state.
    fn claimable_fees_internal(&self, position_index: usize) -> (r: Result<
        (Decimal, Decimal, PreciseDecimal, PreciseDecimal),
        PoolError,
    >)
        requires
            self.wf(),
            position_index < self.positions@.len(),
        ensures
            ({
                let p = self.positions@[position_index as int];
                match r {
                    Ok((x, y, cx, cy)) => {
                        &&& self.ticks.contains_index(p.left_bound as int)
                        &&& self.ticks.contains_index(p.right_bound as int)
                        &&& pd_subunits(cx) == x_checkpoint_spec(*self, p)
                        &&& pd_subunits(cy) == y_checkpoint_spec(*self, p)
                        &&& in_i256(pd_subunits(cx))
                        &&& in_i256(pd_subunits(cy))
                        &&& dec_attos(x) == claim_attos(
                            x_checkpoint_spec(*self, p),
                            pd_subunits(p.x_fee_checkpoint),
                            pd_subunits(p.liquidity),
                            self.x_divisibility as int,
                        )
                        &&& dec_attos(y) == claim_attos(
                            y_checkpoint_spec(*self, p),
                            pd_subunits(p.y_fee_checkpoint),
                            pd_subunits(p.liquidity),
                            self.y_divisibility as int,
                        )
                    },
                    Err(e) => {
                        &&& (e == PoolError::UnknownPosition || e == PoolError::AmountOverflow)
                        &&& (e == PoolError::UnknownPosition
                            <==> !(self.ticks.contains_index(p.left_bound as int)
                                && self.ticks.contains_index(p.right_bound as int)))
                    },
                }
            }),
            r is Ok <==> claim_query_fits(*self, self.positions@[position_index as int]),
    {
        let p_left = self.positions[position_index].left_bound;
        let p_right = self.positions[position_index].right_bound;
        let left_tick = match self.ticks.get(p_left) {
            Some(t) => t,
            None => {
                return Err(PoolError::UnknownPosition);
            },
        };
        let right_tick = match self.ticks.get(p_right) {
            Some(t) => t,
            None => {
                return Err(PoolError::UnknownPosition);
            },
        };
        proof {
            self.ticks.lemma_unique_index(p_left as int);
            self.ticks.lemma_unique_index(p_right as int);
        }
        let new_x_checkpoint = match value_in_range(
            self.x_lp_fee,
            left_tick.x_fee_outside,
            right_tick.x_fee_outside,
            self.active_tick,
            p_left,
            p_right,
        ) {
            Some(v) => v,
            None => {
                return Err(PoolError::AmountOverflow);
            },
        };
        let new_y_checkpoint = match value_in_range(
            self.y_lp_fee,
            left_tick.y_fee_outside,
            right_tick.y_fee_outside,
            self.active_tick,
            p_left,
            p_right,
        ) {
            Some(v) => v,
            None => {
                return Err(PoolError::AmountOverflow);
            },
        };
        let x_amount = match self.claim_amount(
            new_x_checkpoint,
            self.positions[position_index].x_fee_checkpoint,
            self.positions[position_index].liquidity,
            self.x_divisibility,
        ) {
            Some(v) => v,
            None => {
                return Err(PoolError::AmountOverflow);
            },
        };
        let y_amount = match self.claim_amount(
            new_y_checkpoint,
            self.positions[position_index].y_fee_checkpoint,
            self.positions[position_index].liquidity,
            self.y_divisibility,
        ) {
            Some(v) => v,
            None => {
                return Err(PoolError::AmountOverflow);
            },
        };
        Ok((x_amount, y_amount, new_x_checkpoint, new_y_checkpoint))
    }

    /// One axis of a claim: growth since the checkpoint times liquidity,
    /// floored.
    fn claim_amount(
        &self,
        new_checkpoint: PreciseDecimal,
        stored_checkpoint: PreciseDecimal,
        liquidity: PreciseDecimal,
        divisibility: u8,
    ) -> (r: Option<Decimal>)
        requires
            divisibility <= 18,
        ensures
            r is Some <==> claim_amount_fits(
                pd_subunits(new_checkpoint),
                pd_subunits(stored_checkpoint),
                pd_subunits(liquidity),
                divisibility as int,
            ),
            match r {
                Some(v) => dec_attos(v) == claim_attos(
                    pd_subunits(new_checkpoint),
                    pd_subunits(stored_checkpoint),
                    pd_subunits(liquidity),
                    divisibility as int,
                ),
                None => true,
            },
    {
        proof {
            crate::fixed_point::lemma_pow10_pos((36 - divisibility) as nat);
        }
        let growth = match pd_checked_sub(new_checkpoint, stored_checkpoint) {
            Some(v) => v,
            None => {
                return None;
            },
        };
        let product = match pd_checked_mul(growth, liquidity) {
            Some(v) => v,
            None => {
                return None;
            },
        };
        crate::fixed_point::pd_checked_floor_to(product, divisibility)
    }

    /// Returns the fees claimable for a position without changing any
    /// state: querying twice in a row returns the same amounts.
    pub fn claimable_fees(&self, position_id: u64) -> (r: Result<(Decimal, Decimal), PoolError>)
        requires
            self.wf(),
        ensures
            match r {
                Ok((x, y)) => {
                    &&& self.has_position(position_id)
                    &&& dec_attos(x) == claim_attos(
                        x_checkpoint_spec(*self, self.spec_position(position_id).unwrap()),
                        pd_subunits(self.spec_position(position_id).unwrap().x_fee_checkpoint),
                        pd_subunits(self.spec_position(position_id).unwrap().liquidity),
                        self.x_divisibility as int,
                    )
                    &&& dec_attos(y) == claim_attos(
                        y_checkpoint_spec(*self, self.spec_position(position_id).unwrap()),
                        pd_subunits(self.spec_position(position_id).unwrap().y_fee_checkpoint),
                        pd_subunits(self.spec_position(position_id).unwrap().liquidity),
                        self.y_divisibility as int,
                    )
                },
                Err(e) => {
                    &&& (e == PoolError::UnknownPosition || e == PoolError::AmountOverflow)
                    &&& (!self.has_position(position_id) ==> e == PoolError::UnknownPosition)
                },
            },
            r is Ok <==> self.has_position(position_id) && claim_query_fits(
                *self,
                self.spec_position(position_id).unwrap(),
            ),
    {
        let i = match self.find_position(position_id) {
            Some(i) => i,
            None => {
                return Err(PoolError::UnknownPosition);
            },
        };
        match self.claimable_fees_internal(i) {
            Ok((x, y, _, _)) => Ok((x, y)),
            Err(e) => Err(e),
        }
    }

    /// Claims the accumulated fees of a position: returns the claimable
    /// amounts and persists the fresh checkpoints, so the same growth is
    /// never paid twice.
    pub fn claim_fees(&mut self, position_id: u64) -> (r: Result<(Decimal, Decimal), PoolError>)
        requires
            old(self).wf(),
        ensures
            final(self).wf(),
            match r {
                Ok((x, y)) => {
                    &&& old(self).has_position(position_id)
                    &&& dec_attos(x) == claim_attos(
                        x_checkpoint_spec(*old(self), old(self).spec_position(position_id).unwrap()),
                        pd_subunits(old(self).spec_position(position_id).unwrap().x_fee_checkpoint),
                        pd_subunits(old(self).spec_position(position_id).unwrap().liquidity),
                        old(self).x_divisibility as int,
                    )
                    &&& dec_attos(y) == claim_attos(
                        y_checkpoint_spec(*old(self), old(self).spec_position(position_id).unwrap()),
                        pd_subunits(old(self).spec_position(position_id).unwrap().y_fee_checkpoint),
                        pd_subunits(old(self).spec_position(position_id).unwrap().liquidity),
                        old(self).y_divisibility as int,
                    )
                    &&& final(self).positions@.len() == old(self).positions@.len()
                    &&& pd_subunits(
                        final(self).positions@[old(self).position_index(position_id)].x_fee_checkpoint,
                    ) == x_checkpoint_spec(*old(self), old(self).spec_position(position_id).unwrap())
                    &&& pd_subunits(
                        final(self).positions@[old(self).position_index(position_id)].y_fee_checkpoint,
                    ) == y_checkpoint_spec(*old(self), old(self).spec_position(position_id).unwrap())
                    &&& forall|j: int|
                        0 <= j < old(self).positions@.len()
                            && j != old(self).position_index(position_id)
                            ==> #[trigger] final(self).positions@[j] == old(self).positions@[j]
                    &&& final(self).ticks.view() == old(self).ticks.view()
                    &&& final(self).price_sqrt == old(self).price_sqrt
                    &&& final(self).active_liquidity == old(self).active_liquidity
                    &&& final(self).active_tick == old(self).active_tick
                    &&& final(self).x_lp_fee == old(self).x_lp_fee
                    &&& final(self).y_lp_fee == old(self).y_lp_fee
                    &&& final(self).observed_at == old(self).observed_at
                    &&& final(self).x_divisibility == old(self).x_divisibility
                    &&& final(self).y_divisibility == old(self).y_divisibility
                    // Only the two fee checkpoints of the claimed position
                    // move; everything else about it survives.
                    &&& ({
                        let pold = old(self).positions@[old(self).position_index(position_id)];
                        let pnew = final(self).positions@[old(self).position_index(position_id)];
                        &&& pnew.id == pold.id
                        &&& pnew.left_bound == pold.left_bound
                        &&& pnew.right_bound == pold.right_bound
                        &&& pnew.liquidity == pold.liquidity
                        &&& pnew.shape_id == pold.shape_id
                        &&& pnew.added_at == pold.added_at
                        &&& pnew.x_total_fee_checkpoint == pold.x_total_fee_checkpoint
                        &&& pnew.y_total_fee_checkpoint == pold.y_total_fee_checkpoint
                        &&& pnew.seconds_inside_checkpoint == pold.seconds_inside_checkpoint
                    })
                },
                Err(e) => {
                    &&& *final(self) == *old(self)
                    &&& (e == PoolError::UnknownPosition || e == PoolError::AmountOverflow)
                    &&& (!old(self).has_position(position_id) ==> e == PoolError::UnknownPosition)
                },
            },
            r is Ok <==> old(self).has_position(position_id) && claim_query_fits(
                *old(self),
                old(self).spec_position(position_id).unwrap(),
            ),
    {
        let i = match self.find_position(position_id) {
            Some(i) => i,
            None => {
                return Err(PoolError::UnknownPosition);
            },
        };
        let (x_amount, y_amount, new_x, new_y) = match self.claimable_fees_internal(i) {
            Ok(v) => v,
            Err(e) => {
                return Err(e);
            },
        };
        let position = &mut self.positions[i];
        position.x_fee_checkpoint = new_x;
        position.y_fee_checkpoint = new_y;
        proof {
            assert forall|j: int|
                0 <= j < self.positions@.len()
                    implies self.position_wf(#[trigger] self.positions@[j]) by {
                if j != i {
                    assert(self.positions@[j] == old(self).positions@[j]);
                    assert(old(self).position_wf(old(self).positions@[j]));
                }
            }
            assert forall|a: int, b: int|
                0 <= a < b < self.positions@.len()
                    implies #[trigger] self.positions@[a].id < #[trigger] self.positions@[b].id by {
                assert(old(self).positions@[a].id < old(self).positions@[b].id);
            }
        }
        Ok((x_amount, y_amount))
    }
}

impl Pool {
    /// Returns the lifetime fees a position has earned, against the
    /// immutable baseline captured at mint time; never changes state.
    pub fn total_fees(&self, position_id: u64) -> (r: Result<(Decimal, Decimal), PoolError>)
        requires
            self.wf(),
        ensures
            match r {
                Ok((x, y)) => {
                    &&& self.has_position(position_id)
                    &&& dec_attos(x) == claim_attos(
                        x_checkpoint_spec(*self, self.spec_position(position_id).unwrap()),
                        pd_subunits(self.spec_position(position_id).unwrap().x_total_fee_checkpoint),
                        pd_subunits(self.spec_position(position_id).unwrap().liquidity),
                        self.x_divisibility as int,
                    )
                    &&& dec_attos(y) == claim_attos(
                        y_checkpoint_spec(*self, self.spec_position(position_id).unwrap()),
                        pd_subunits(self.spec_position(position_id).unwrap().y_total_fee_checkpoint),
                        pd_subunits(self.spec_position(position_id).unwrap().liquidity),
                        self.y_divisibility as int,
                    )
                },
                Err(e) => {
                    &&& (e == PoolError::UnknownPosition || e == PoolError::AmountOverflow)
                    &&& (!self.has_position(position_id) ==> e == PoolError::UnknownPosition)
                },
            },
            r is Ok <==> self.has_position(position_id) && total_query_fits(
                *self,
                self.spec_position(position_id).unwrap(),
            ),
    {
        let i = match self.find_position(position_id) {
            Some(i) => i,
            None => {
                return Err(PoolError::UnknownPosition);
            },
        };
        let p_left = self.positions[i].left_bound;
        let p_right = self.positions[i].right_bound;
        let left_tick = match self.ticks.get(p_left) {
            Some(t) => t,
            None => {
                return Err(PoolError::UnknownPosition);
            },
        };
        let right_tick = match self.ticks.get(p_right) {
            Some(t) => t,
            None => {
                return Err(PoolError::UnknownPosition);
            },
        };
        proof {
            self.ticks.lemma_unique_index(p_left as int);
            self.ticks.lemma_unique_index(p_right as int);
        }
        let new_x_checkpoint = match value_in_range(
            self.x_lp_fee,
            left_tick.x_fee_outside,
            right_tick.x_fee_outside,
            self.active_tick,
            p_left,
            p_right,
        ) {
            Some(v) => v,
            None => {
                return Err(PoolError::AmountOverflow);
            },
        };
        let new_y_checkpoint = match value_in_range(
            self.y_lp_fee,
            left_tick.y_fee_outside,
            right_tick.y_fee_outside,
            self.active_tick,
            p_left,
            p_right,
        ) {
            Some(v) => v,
            None => {
                return Err(PoolError::AmountOverflow);
            },
        };
        let x_amount = match self.claim_amount(
            new_x_checkpoint,
            self.positions[i].x_total_fee_checkpoint,
            self.positions[i].liquidity,
            self.x_divisibility,
        ) {
            Some(v) => v,
            None => {
                return Err(PoolError::AmountOverflow);
            },
        };
        let y_amount = match self.claim_amount(
            new_y_checkpoint,
            self.positions[i].y_total_fee_checkpoint,
            self.positions[i].liquidity,
            self.y_divisibility,
        ) {
            Some(v) => v,
            None => {
                return Err(PoolError::AmountOverflow);
            },
        };
        Ok((x_amount, y_amount))
    }

    /// The seconds a position has spent in range since its checkpoint, at
    /// the given time; never changes state.
    pub fn seconds_in_position(&self, position_id: u64, now: u64) -> (r: Result<u64, PoolError>)
        requires
            self.wf(),
            self.observed_at <= now,
            now - self.instantiated_at <= 0x1000000000000,
        ensures
            match r {
                Ok(seconds) => {
                    &&& self.has_position(position_id)
                    &&& ({
                        let p = self.spec_position(position_id).unwrap();
                        let inside = value_in_range_spec(
                            now - self.instantiated_at,
                            self.ticks.spec_get(p.left_bound as int).unwrap().seconds_outside as int,
                            self.ticks.spec_get(p.right_bound as int).unwrap().seconds_outside as int,
                            active_tick_or_min(self.active_tick),
                            p.left_bound as int,
                            p.right_bound as int,
                        );
                        seconds == inside - p.seconds_inside_checkpoint
                    })
                },
                Err(e) => e == PoolError::UnknownPosition || e == PoolError::AmountOverflow,
            },
            r is Ok <==> self.has_position(position_id) && ({
                let p = self.spec_position(position_id).unwrap();
                &&& self.ticks.contains_index(p.left_bound as int)
                &&& self.ticks.contains_index(p.right_bound as int)
                &&& value_in_range_spec(
                    now - self.instantiated_at,
                    self.ticks.spec_get(p.left_bound as int).unwrap().seconds_outside as int,
                    self.ticks.spec_get(p.right_bound as int).unwrap().seconds_outside as int,
                    active_tick_or_min(self.active_tick),
                    p.left_bound as int,
                    p.right_bound as int,
                ) >= p.seconds_inside_checkpoint
            }),
    {
        let i = match self.find_position(position_id) {
            Some(i) => i,
            None => {
                return Err(PoolError::UnknownPosition);
            },
        };
        let p_left = self.positions[i].left_bound;
        let p_right = self.positions[i].right_bound;
        let left_tick = match self.ticks.get(p_left) {
            Some(t) => t,
            None => {
                return Err(PoolError::UnknownPosition);
            },
        };
        let right_tick = match self.ticks.get(p_right) {
            Some(t) => t,
            None => {
                return Err(PoolError::UnknownPosition);
            },
        };
        proof {
            self.ticks.lemma_unique_index(p_left as int);
            self.ticks.lemma_unique_index(p_right as int);
        }
        let seconds_global: u64 = now - self.instantiated_at;
        let inside: i64 = value_in_range_seconds(
            seconds_global as i64,
            left_tick.seconds_outside as i64,
            right_tick.seconds_outside as i64,
            self.active_tick,
            p_left,
            p_right,
        );
        let checkpoint = self.positions[i].seconds_inside_checkpoint;
        if inside < checkpoint {
            // The net time in range can never shrink; a negative result
            // would mean corrupted accounting.
            return Err(PoolError::AmountOverflow);
        }
        Ok((inside - checkpoint) as u64)
    }
}

impl Pool {
    /// Adds liquidity between two tick bounds at the current price.
    ///
    /// The bounds are aligned to the spacing grid and validated, the
    /// fundable liquidity and the consumed amounts are computed by
    /// `allowed_amounts`, both boundary ticks are updated or created under
    /// the per-tick capacity cap, the active liquidity and active-tick
    /// pointer are adjusted when the price lies inside the new range, and
    /// a position with fresh checkpoints is minted.  All checks precede
    /// all state changes: an error leaves the pool as it was, except for
    /// the observed clock.
    pub fn add_liquidity(
        &mut self,
        left_bound: i32,
        right_bound: i32,
        x_amount: Decimal,
        y_amount: Decimal,
        shape_id: Option<u64>,
        now: u64,
    ) -> (r: Result<AddLiquidityOutcome, PoolError>)
        requires
            old(self).wf(),
            0 <= dec_attos(x_amount) <= i192_max(),
            0 <= dec_attos(y_amount) <= i192_max(),
            old(self).observed_at <= now,
            now - old(self).instantiated_at <= 0x1000000000000,
        ensures
            final(self).wf(),
            final(self).observed_at == now || final(self).observed_at == old(self).observed_at,
            ({
                let bad_bounds = left_bound < MIN_TICK || right_bound > MAX_TICK
                    || crate::tick_math::align_tick_spec(left_bound as int, old(self).tick_spacing as int)
                        >= crate::tick_math::align_tick_spec(right_bound as int, old(self).tick_spacing as int);
                match r {
                    Ok(outcome) => {
                        let la = crate::tick_math::align_tick_spec(
                            left_bound as int,
                            old(self).tick_spacing as int,
                        );
                        let ra = crate::tick_math::align_tick_spec(
                            right_bound as int,
                            old(self).tick_spacing as int,
                        );
                        let pl = crate::tick_math::tick_price_sqrt_subunits(la);
                        let pr = crate::tick_math::tick_price_sqrt_subunits(ra);
                        let xa = dec_attos(x_amount);
                        let ya = dec_attos(y_amount);
                        let xd = old(self).x_divisibility as int;
                        let yd = old(self).y_divisibility as int;
                        let ps = pd_subunits(old(self).price_sqrt);
                        &&& !bad_bounds
                        &&& dec_attos(outcome.x_consumed) == crate::liquidity_math::allowed_x_attos(
                            xa, xd, ya, yd, ps, pl, pr,
                        )
                        &&& dec_attos(outcome.y_consumed) == crate::liquidity_math::allowed_y_attos(
                            xa, xd, ya, yd, ps, pl, pr,
                        )
                        &&& 0 <= dec_attos(outcome.x_consumed) <= xa
                        &&& 0 <= dec_attos(outcome.y_consumed) <= ya
                        &&& outcome.position_id == old(self).lp_counter + 1
                        &&& final(self).lp_counter == old(self).lp_counter + 1
                        &&& final(self).positions@.len() == old(self).positions@.len() + 1
                        &&& ({
                            let p = final(self).positions@[final(self).positions@.len() - 1];
                            &&& p.id == outcome.position_id
                            &&& p.left_bound == la
                            &&& p.right_bound == ra
                            &&& pd_subunits(p.liquidity)
                                == crate::liquidity_math::allowed_liquidity_subunits(
                                xa, xd, ya, yd, ps, pl, pr,
                            )
                            &&& pd_subunits(p.liquidity) > 0
                            &&& p.shape_id == shape_id
                            &&& p.added_at == now
                        })
                        &&& forall|j: int|
                            0 <= j < old(self).positions@.len()
                                ==> #[trigger] final(self).positions@[j] == old(self).positions@[j]
                        &&& final(self).ticks.contains_index(la)
                        &&& final(self).ticks.contains_index(ra)
                        // The boundary ticks after the update: the left
                        // bound gains the liquidity with a positive sign,
                        // the right bound with a negative one, and a fresh
                        // tick starts from the outside values the current
                        // price dictates.
                        &&& ({
                            let liq = crate::liquidity_math::allowed_liquidity_subunits(
                                xa, xd, ya, yd, ps, pl, pr,
                            );
                            let lt = final(self).ticks.spec_get(la).unwrap();
                            let rt = final(self).ticks.spec_get(ra).unwrap();
                            let old_left_delta = if old(self).ticks.contains_index(la) {
                                pd_subunits(old(self).ticks.spec_get(la).unwrap().delta_liquidity)
                            } else {
                                0
                            };
                            let old_left_total = if old(self).ticks.contains_index(la) {
                                pd_subunits(old(self).ticks.spec_get(la).unwrap().total_liquidity)
                            } else {
                                0
                            };
                            let old_right_delta = if old(self).ticks.contains_index(ra) {
                                pd_subunits(old(self).ticks.spec_get(ra).unwrap().delta_liquidity)
                            } else {
                                0
                            };
                            let old_right_total = if old(self).ticks.contains_index(ra) {
                                pd_subunits(old(self).ticks.spec_get(ra).unwrap().total_liquidity)
                            } else {
                                0
                            };
                            &&& pd_subunits(lt.delta_liquidity) == old_left_delta + liq
                            &&& pd_subunits(lt.total_liquidity) == old_left_total + liq
                            &&& pd_subunits(lt.x_fee_outside)
                                == old(self).add_outside_x_subunits(la)
                            &&& pd_subunits(lt.y_fee_outside)
                                == old(self).add_outside_y_subunits(la)
                            &&& lt.seconds_outside as int == old(self).add_outside_seconds(
                                la,
                                now - old(self).instantiated_at,
                            )
                            &&& pd_subunits(rt.delta_liquidity) == old_right_delta - liq
                            &&& pd_subunits(rt.total_liquidity) == old_right_total + liq
                            &&& pd_subunits(rt.x_fee_outside)
                                == old(self).add_outside_x_subunits(ra)
                            &&& pd_subunits(rt.y_fee_outside)
                                == old(self).add_outside_y_subunits(ra)
                            &&& rt.seconds_outside as int == old(self).add_outside_seconds(
                                ra,
                                now - old(self).instantiated_at,
                            )
                        })
                        &&& forall|k: int|
                            k != la && k != ra && old(self).ticks.contains_index(k)
                                ==> #[trigger] final(self).ticks.spec_get(k)
                                    == old(self).ticks.spec_get(k)
                        // The minted position's checkpoints, measured
                        // against the extended pointer.
                        &&& ({
                            let p = final(self).positions@[final(self).positions@.len() - 1];
                            let ext = old(self).extended_active_tick(la, ra);
                            &&& pd_subunits(p.x_fee_checkpoint) == value_in_range_spec(
                                pd_subunits(old(self).x_lp_fee),
                                old(self).add_outside_x_subunits(la),
                                old(self).add_outside_x_subunits(ra),
                                ext,
                                la,
                                ra,
                            )
                            &&& pd_subunits(p.y_fee_checkpoint) == value_in_range_spec(
                                pd_subunits(old(self).y_lp_fee),
                                old(self).add_outside_y_subunits(la),
                                old(self).add_outside_y_subunits(ra),
                                ext,
                                la,
                                ra,
                            )
                            &&& p.x_total_fee_checkpoint == p.x_fee_checkpoint
                            &&& p.y_total_fee_checkpoint == p.y_fee_checkpoint
                            &&& p.seconds_inside_checkpoint as int == value_in_range_spec(
                                now - old(self).instantiated_at,
                                old(self).add_outside_seconds(la, now - old(self).instantiated_at),
                                old(self).add_outside_seconds(ra, now - old(self).instantiated_at),
                                ext,
                                la,
                                ra,
                            )
                        })
                        // The liquidity becomes active exactly when the
                        // price lies inside the new range, and the pointer
                        // follows the extension rule.
                        &&& pd_subunits(final(self).active_liquidity)
                            == pd_subunits(old(self).active_liquidity) + (if pl <= ps && ps < pr {
                            crate::liquidity_math::allowed_liquidity_subunits(
                                xa, xd, ya, yd, ps, pl, pr,
                            )
                        } else {
                            0
                        })
                        &&& active_tick_or_min(final(self).active_tick)
                            == old(self).extended_active_tick(la, ra)
                        &&& (final(self).active_tick is None
                            <==> old(self).active_tick is None
                                && old(self).extended_active_tick(la, ra)
                                    == active_tick_or_min(old(self).active_tick))
                        &&& final(self).price_sqrt == old(self).price_sqrt
                        &&& final(self).tick_spacing == old(self).tick_spacing
                        &&& final(self).max_liquidity_per_tick
                            == old(self).max_liquidity_per_tick
                        &&& final(self).x_lp_fee == old(self).x_lp_fee
                        &&& final(self).y_lp_fee == old(self).y_lp_fee
                        &&& final(self).x_divisibility == old(self).x_divisibility
                        &&& final(self).y_divisibility == old(self).y_divisibility
                        &&& final(self).input_fee_rate == old(self).input_fee_rate
                        &&& final(self).fee_protocol_share == old(self).fee_protocol_share
                        &&& final(self).flash_loan_fee_rate == old(self).flash_loan_fee_rate
                        &&& final(self).x_protocol_fee == old(self).x_protocol_fee
                        &&& final(self).y_protocol_fee == old(self).y_protocol_fee
                        &&& final(self).instantiated_at == old(self).instantiated_at
                        &&& final(self).next_sync_time == old(self).next_sync_time
                        &&& final(self).observed_at == now
                    },
                    Err(e) => {
                        let la = crate::tick_math::align_tick_spec(
                            left_bound as int,
                            old(self).tick_spacing as int,
                        );
                        let ra = crate::tick_math::align_tick_spec(
                            right_bound as int,
                            old(self).tick_spacing as int,
                        );
                        let pl = crate::tick_math::tick_price_sqrt_subunits(la);
                        let pr = crate::tick_math::tick_price_sqrt_subunits(ra);
                        let liq = crate::liquidity_math::allowed_liquidity_subunits(
                            dec_attos(x_amount),
                            old(self).x_divisibility as int,
                            dec_attos(y_amount),
                            old(self).y_divisibility as int,
                            pd_subunits(old(self).price_sqrt),
                            pl,
                            pr,
                        );
                        // A failed addition leaves the pool exactly as it
                        // was.
                        &&& *final(self) == *old(self)
                        &&& (e == PoolError::InvalidBounds <==> bad_bounds)
                        &&& (e == PoolError::ZeroLiquidity ==> liq <= 0)
                        &&& (e == PoolError::TickCapacityExceeded
                            ==> !(old(self).add_tick_fits(la, liq, liq)
                                && old(self).add_tick_fits(ra, -liq, liq)))
                    },
                }
            }),
            ({
                let la = crate::tick_math::align_tick_spec(
                    left_bound as int,
                    old(self).tick_spacing as int,
                );
                let ra = crate::tick_math::align_tick_spec(
                    right_bound as int,
                    old(self).tick_spacing as int,
                );
                let pl = crate::tick_math::tick_price_sqrt_subunits(la);
                let pr = crate::tick_math::tick_price_sqrt_subunits(ra);
                let xa = dec_attos(x_amount);
                let ya = dec_attos(y_amount);
                let xd = old(self).x_divisibility as int;
                let yd = old(self).y_divisibility as int;
                let ps = pd_subunits(old(self).price_sqrt);
                let liq = crate::liquidity_math::allowed_liquidity_subunits(
                    xa, xd, ya, yd, ps, pl, pr,
                );
                let ext = old(self).extended_active_tick(la, ra);
                let seconds_now = now - old(self).instantiated_at;
                let bad_bounds = left_bound < MIN_TICK || right_bound > MAX_TICK || la >= ra;
                // Success is owed: the addition goes through exactly when
                // the bounds are valid, the amounts fund positive
                // liquidity, both boundary ticks can absorb it, the
                // checkpoint arithmetic stays in range, and no store limit
                // is hit.
                r is Ok <==> !bad_bounds
                    && old(self).ticks.view().len() < usize::MAX - 2
                    && old(self).positions@.len() < usize::MAX - 1
                    && old(self).lp_counter < u64::MAX
                    && crate::liquidity_math::allowed_amounts_fits(xa, xd, ya, yd, ps, pl, pr)
                    && liq > 0
                    && old(self).add_tick_fits(la, liq, liq)
                    && old(self).add_tick_fits(ra, -liq, liq)
                    && crate::swap_math::value_in_range_fits(
                    pd_subunits(old(self).x_lp_fee),
                    old(self).add_outside_x_subunits(la),
                    old(self).add_outside_x_subunits(ra),
                    ext,
                    la,
                    ra,
                )
                    && crate::swap_math::value_in_range_fits(
                    pd_subunits(old(self).y_lp_fee),
                    old(self).add_outside_y_subunits(la),
                    old(self).add_outside_y_subunits(ra),
                    ext,
                    la,
                    ra,
                )
                    && (pl <= ps && ps < pr
                        ==> in_i256(pd_subunits(old(self).active_liquidity) + liq))
            }),
    {
        // Validate the bounds and align them to the spacing grid.
        if left_bound < MIN_TICK {
            return Err(PoolError::InvalidBounds);
        }
        if right_bound > MAX_TICK {
            return Err(PoolError::InvalidBounds);
        }
        if left_bound > MAX_TICK || right_bound < MIN_TICK {
            // The bounds are inverted across the grid: they cannot align to
            // an ordered pair.
            proof {
                crate::tick_math::lemma_align_tick_monotone(
                    right_bound as int,
                    left_bound as int,
                    self.tick_spacing as int,
                );
            }
            return Err(PoolError::InvalidBounds);
        }
        let la = align_tick(left_bound, self.tick_spacing);
        let ra = align_tick(right_bound, self.tick_spacing);
        if la >= ra {
            return Err(PoolError::InvalidBounds);
        }
        if self.ticks.len() >= usize::MAX - 2 {
            return Err(PoolError::AmountOverflow);
        }
        if self.positions.len() >= usize::MAX - 1 {
            return Err(PoolError::AmountOverflow);
        }
        if self.lp_counter == u64::MAX {
            return Err(PoolError::AmountOverflow);
        }
        let seconds_now: u64 = now - self.instantiated_at;

        let price_left_sqrt = tick_to_price_sqrt(la);
        let price_right_sqrt = tick_to_price_sqrt(ra);
        let (liquidity, x_consumed, y_consumed) = match allowed_amounts(
            x_amount,
            self.x_divisibility,
            y_amount,
            self.y_divisibility,
            self.price_sqrt,
            price_left_sqrt,
            price_right_sqrt,
        ) {
            Ok(v) => v,
            Err(e) => {
                return Err(e);
            },
        };

        // Prepare both boundary ticks: the left bound carries the added
        // liquidity with a positive sign, the right bound with a negative
        // one.
        let negated_liquidity = pd_neg(liquidity);
        let (left_tick, left_is_new) = match self.prospective_add_tick(
            la,
            liquidity,
            liquidity,
            seconds_now,
        ) {
            Ok(v) => v,
            Err(e) => {
                return Err(e);
            },
        };
        let (right_tick, right_is_new) = match self.prospective_add_tick(
            ra,
            negated_liquidity,
            liquidity,
            seconds_now,
        ) {
            Ok(v) => v,
            Err(e) => {
                return Err(e);
            },
        };

        // The pointer extends toward whichever new bound lies at or below
        // the price and further right than the old pointer; the position's
        // checkpoints are computed against the extended pointer.
        let active_before: i32 = match self.active_tick {
            Some(t) => t,
            None => i32::MIN,
        };
        let new_active_tick: Option<i32> = if active_before < ra
            && pd_le(&price_right_sqrt, &self.price_sqrt) {
            Some(ra)
        } else if active_before < la && pd_le(&price_left_sqrt, &self.price_sqrt) {
            Some(la)
        } else {
            self.active_tick
        };

        // Compute the position's initial checkpoints from the ticks'
        // outside accumulators; a checkpoint may be negative, only growth
        // between checkpoints is ever paid out.
        let x_fee_checkpoint = match value_in_range(
            self.x_lp_fee,
            left_tick.x_fee_outside,
            right_tick.x_fee_outside,
            new_active_tick,
            la,
            ra,
        ) {
            Some(v) => v,
            None => {
                return Err(PoolError::AmountOverflow);
            },
        };
        let y_fee_checkpoint = match value_in_range(
            self.y_lp_fee,
            left_tick.y_fee_outside,
            right_tick.y_fee_outside,
            new_active_tick,
            la,
            ra,
        ) {
            Some(v) => v,
            None => {
                return Err(PoolError::AmountOverflow);
            },
        };
        let seconds_inside_checkpoint: i64 = value_in_range_seconds(
            seconds_now as i64,
            left_tick.seconds_outside as i64,
            right_tick.seconds_outside as i64,
            new_active_tick,
            la,
            ra,
        );

        // The added liquidity becomes active only when the current price
        // lies inside the new range.
        let price_in_range = !pd_lt(&self.price_sqrt, &price_left_sqrt)
            && pd_lt(&self.price_sqrt, &price_right_sqrt);
        let new_active_liquidity = if price_in_range {
            match pd_checked_add(self.active_liquidity, liquidity) {
                Some(v) => v,
                None => {
                    return Err(PoolError::AmountOverflow);
                },
            }
        } else {
            self.active_liquidity
        };

        // All checks passed: commit.
        self.observed_at = now;
        self.put_tick(left_tick, left_is_new);
        proof {
            assert(la != ra);
        }
        let (right_tick2, right_is_new2) = (right_tick, right_is_new);
        self.put_tick(right_tick2, right_is_new2);
        self.active_liquidity = new_active_liquidity;
        self.active_tick = new_active_tick;

        self.lp_counter = self.lp_counter + 1;
        let position = LiquidityPosition {
            id: self.lp_counter,
            liquidity,
            left_bound: la,
            right_bound: ra,
            shape_id,
            added_at: now,
            x_fee_checkpoint,
            y_fee_checkpoint,
            x_total_fee_checkpoint: x_fee_checkpoint,
            y_total_fee_checkpoint: y_fee_checkpoint,
            seconds_inside_checkpoint,
        };
        let ghost before_push = self.positions@;
        self.positions.push(position);
        proof {
            assert forall|j: int|
                0 <= j < self.positions@.len()
                    implies self.position_wf(#[trigger] self.positions@[j]) by {
                if j < self.positions@.len() - 1 {
                    assert(self.positions@[j] == old(self).positions@[j]);
                    assert(old(self).position_wf(old(self).positions@[j]));
                }
            }
            assert forall|a: int, b: int|
                0 <= a < b < self.positions@.len()
                    implies #[trigger] self.positions@[a].id < #[trigger] self.positions@[b].id by {
                if b < self.positions@.len() - 1 {
                    assert(old(self).positions@[a].id < old(self).positions@[b].id);
                } else {
                    assert(self.positions@[a].id <= old(self).lp_counter);
                }
            }
        }
        Ok(AddLiquidityOutcome {
            position_id: self.lp_counter,
            x_consumed,
            y_consumed,
        })
    }
}

impl Pool {
    /// Removes a position: auto-claims its accrued fees, computes the
    /// withdrawable principal at the current price, updates or deletes
    /// both boundary ticks — a tick whose gross liquidity returns to zero
    /// leaves the store — reverses the active-liquidity contribution if
    /// the price was in range, refits the active-tick pointer to the
    /// nearest surviving tick at or below its previous value, and burns
    /// the position.
    pub fn remove_liquidity(&mut self, position_id: u64, now: u64) -> (r: Result<
        RemoveLiquidityOutcome,
        PoolError,
    >)
        requires
            old(self).wf(),
            old(self).observed_at <= now,
            now - old(self).instantiated_at <= 0x1000000000000,
        ensures
            final(self).wf(),
            match r {
                Ok(outcome) => {
                    &&& old(self).has_position(position_id)
                    &&& ({
                        let p = old(self).spec_position(position_id).unwrap();
                        let l = pd_subunits(p.liquidity);
                        let ps = pd_subunits(old(self).price_sqrt);
                        let pl = crate::tick_math::tick_price_sqrt_subunits(p.left_bound as int);
                        let pr = crate::tick_math::tick_price_sqrt_subunits(p.right_bound as int);
                        let xd = old(self).x_divisibility as int;
                        let yd = old(self).y_divisibility as int;
                        &&& dec_attos(outcome.x_principal)
                            == crate::liquidity_math::removable_x_attos(l, ps, pl, pr, xd)
                        &&& dec_attos(outcome.y_principal)
                            == crate::liquidity_math::removable_y_attos(l, ps, pl, pr, yd)
                        &&& dec_attos(outcome.x_fees) == claim_attos(
                            x_checkpoint_spec(*old(self), p),
                            pd_subunits(p.x_fee_checkpoint),
                            l,
                            xd,
                        )
                        &&& dec_attos(outcome.y_fees) == claim_attos(
                            y_checkpoint_spec(*old(self), p),
                            pd_subunits(p.y_fee_checkpoint),
                            l,
                            yd,
                        )
                        // A tick whose gross liquidity reaches zero is
                        // deleted from the store; a surviving boundary
                        // tick keeps its accumulators and absorbs the
                        // removed liquidity.
                        &&& ({
                            let o = old(self).ticks.spec_get(p.left_bound as int).unwrap();
                            if pd_subunits(o.total_liquidity) - l == 0 {
                                !final(self).ticks.contains_index(p.left_bound as int)
                            } else {
                                &&& final(self).ticks.contains_index(p.left_bound as int)
                                &&& ({
                                    let t = final(self).ticks.spec_get(p.left_bound as int).unwrap();
                                    &&& pd_subunits(t.total_liquidity)
                                        == pd_subunits(o.total_liquidity) - l
                                    &&& pd_subunits(t.delta_liquidity)
                                        == pd_subunits(o.delta_liquidity) - l
                                    &&& t.price_sqrt == o.price_sqrt
                                    &&& t.x_fee_outside == o.x_fee_outside
                                    &&& t.y_fee_outside == o.y_fee_outside
                                    &&& t.seconds_outside == o.seconds_outside
                                })
                            }
                        })
                        &&& ({
                            let o = old(self).ticks.spec_get(p.right_bound as int).unwrap();
                            if pd_subunits(o.total_liquidity) - l == 0 {
                                !final(self).ticks.contains_index(p.right_bound as int)
                            } else {
                                &&& final(self).ticks.contains_index(p.right_bound as int)
                                &&& ({
                                    let t = final(self).ticks.spec_get(p.right_bound as int).unwrap();
                                    &&& pd_subunits(t.total_liquidity)
                                        == pd_subunits(o.total_liquidity) - l
                                    &&& pd_subunits(t.delta_liquidity)
                                        == pd_subunits(o.delta_liquidity) + l
                                    &&& t.price_sqrt == o.price_sqrt
                                    &&& t.x_fee_outside == o.x_fee_outside
                                    &&& t.y_fee_outside == o.y_fee_outside
                                    &&& t.seconds_outside == o.seconds_outside
                                })
                            }
                        })
                    })
                    &&& !final(self).has_position(position_id)
                    &&& final(self).positions@.len() == old(self).positions@.len() - 1
                    // The pointer is refitted to the nearest surviving tick
                    // at or below its previous value.
                    &&& match final(self).active_tick {
                        Some(t) => {
                            &&& final(self).ticks.contains_index(t as int)
                            &&& t as int <= active_tick_or_min(old(self).active_tick)
                            &&& forall|k: int|
                                final(self).ticks.contains_index(k)
                                    && k <= active_tick_or_min(old(self).active_tick)
                                    ==> k <= t as int
                        },
                        None => forall|k: int|
                            #[trigger] final(self).ticks.contains_index(k)
                                ==> k > active_tick_or_min(old(self).active_tick),
                    }
                    // The active-liquidity contribution is reversed
                    // exactly when the price lay inside the range.
                    &&& ({
                        let p = old(self).spec_position(position_id).unwrap();
                        let l = pd_subunits(p.liquidity);
                        let ps = pd_subunits(old(self).price_sqrt);
                        let pl = crate::tick_math::tick_price_sqrt_subunits(p.left_bound as int);
                        let pr = crate::tick_math::tick_price_sqrt_subunits(p.right_bound as int);
                        pd_subunits(final(self).active_liquidity)
                            == pd_subunits(old(self).active_liquidity) - (if pl <= ps && ps < pr {
                            l
                        } else {
                            0
                        })
                    })
                    &&& forall|k: int|
                        k != old(self).spec_position(position_id).unwrap().left_bound as int
                            && k != old(self).spec_position(position_id).unwrap().right_bound as int
                            && old(self).ticks.contains_index(k)
                            ==> #[trigger] final(self).ticks.spec_get(k)
                                == old(self).ticks.spec_get(k)
                    &&& final(self).price_sqrt == old(self).price_sqrt
                    &&& final(self).x_lp_fee == old(self).x_lp_fee
                    &&& final(self).y_lp_fee == old(self).y_lp_fee
                    &&& final(self).x_divisibility == old(self).x_divisibility
                    &&& final(self).y_divisibility == old(self).y_divisibility
                    &&& final(self).tick_spacing == old(self).tick_spacing
                    &&& final(self).max_liquidity_per_tick == old(self).max_liquidity_per_tick
                    &&& final(self).input_fee_rate == old(self).input_fee_rate
                    &&& final(self).fee_protocol_share == old(self).fee_protocol_share
                    &&& final(self).flash_loan_fee_rate == old(self).flash_loan_fee_rate
                    &&& final(self).x_protocol_fee == old(self).x_protocol_fee
                    &&& final(self).y_protocol_fee == old(self).y_protocol_fee
                    &&& final(self).instantiated_at == old(self).instantiated_at
                    &&& final(self).next_sync_time == old(self).next_sync_time
                    &&& final(self).lp_counter == old(self).lp_counter
                    &&& forall|j: int|
                        0 <= j < final(self).positions@.len()
                            ==> #[trigger] final(self).positions@[j]
                                == old(self).positions@.remove(
                                old(self).position_index(position_id),
                            )[j]
                    &&& final(self).observed_at == now
                },
                Err(e) => {
                    // A failed removal leaves the pool exactly as it was.
                    &&& *final(self) == *old(self)
                    &&& (!old(self).has_position(position_id) ==> e == PoolError::UnknownPosition)
                },
            },
            ({
                // Success is owed: the removal goes through exactly when
                // the position exists, the fee claim and withdrawal
                // arithmetic stay in range, both boundary ticks can give
                // the liquidity back, and the active liquidity covers the
                // reversal.
                let p = old(self).spec_position(position_id).unwrap();
                let l = pd_subunits(p.liquidity);
                let ps = pd_subunits(old(self).price_sqrt);
                let pl = crate::tick_math::tick_price_sqrt_subunits(p.left_bound as int);
                let pr = crate::tick_math::tick_price_sqrt_subunits(p.right_bound as int);
                r is Ok <==> old(self).has_position(position_id)
                    && claim_query_fits(*old(self), p)
                    && crate::liquidity_math::removable_fits(
                    l,
                    ps,
                    pl,
                    pr,
                    old(self).x_divisibility as int,
                    old(self).y_divisibility as int,
                )
                    && old(self).remove_tick_fits(p.left_bound as int, l, false)
                    && old(self).remove_tick_fits(p.right_bound as int, l, true)
                    && (pl <= ps && ps < pr
                        ==> pd_subunits(old(self).active_liquidity) - l >= 0)
            }),
    {
        let i = match self.find_position(position_id) {
            Some(i) => i,
            None => {
                return Err(PoolError::UnknownPosition);
            },
        };

        // Auto-claim the accrued fees first.
        let (x_fees, y_fees, _, _) = match self.claimable_fees_internal(i) {
            Ok(v) => v,
            Err(e) => {
                return Err(e);
            },
        };

        let p_left = self.positions[i].left_bound;
        let p_right = self.positions[i].right_bound;
        let liquidity = self.positions[i].liquidity;
        proof {
            assert(self.position_wf(self.positions@[i as int]));
        }
        let price_left_sqrt = tick_to_price_sqrt(p_left);
        let price_right_sqrt = tick_to_price_sqrt(p_right);

        // The withdrawable principal at the current price, floored.
        let (x_principal, y_principal) = match remove_amounts(
            liquidity,
            self.price_sqrt,
            price_left_sqrt,
            price_right_sqrt,
            self.x_divisibility,
            self.y_divisibility,
        ) {
            Ok(v) => v,
            Err(e) => {
                return Err(e);
            },
        };

        // Prepare both boundary ticks with the liquidity taken out.
        let left_updated = match self.prospective_remove_tick(p_left, liquidity, false) {
            Ok(v) => v,
            Err(e) => {
                return Err(e);
            },
        };
        let right_updated = match self.prospective_remove_tick(p_right, liquidity, true) {
            Ok(v) => v,
            Err(e) => {
                return Err(e);
            },
        };

        // Reverse the active-liquidity contribution if the price was in
        // range.
        let price_in_range = !pd_lt(&self.price_sqrt, &price_left_sqrt)
            && pd_lt(&self.price_sqrt, &price_right_sqrt);
        let new_active_liquidity = if price_in_range {
            let reduced = match pd_checked_sub(self.active_liquidity, liquidity) {
                Some(v) => v,
                None => {
                    return Err(PoolError::AmountOverflow);
                },
            };
            if pd_lt(&reduced, &pd_zero()) {
                // Less active liquidity than the position held would mean
                // corrupted bookkeeping.
                return Err(PoolError::AmountOverflow);
            }
            reduced
        } else {
            self.active_liquidity
        };

        // All checks passed: commit.
        self.observed_at = now;
        self.commit_tick_removal(p_left, left_updated);
        proof {
            assert(p_left != p_right);
        }
        self.commit_tick_removal(p_right, right_updated);
        self.active_liquidity = new_active_liquidity;

        // Refit the pointer: the pointed-to tick may just have been
        // deleted.
        let refit_bound: i32 = match self.active_tick {
            Some(t) => t,
            None => i32::MIN,
        };
        self.active_tick = match self.ticks.prev_at_or_below(refit_bound) {
            Some(pos) => Some(self.ticks.entries[pos].index),
            None => None,
        };
        proof {
            if self.active_tick is Some {
                let t = self.active_tick.unwrap();
                assert(self.ticks.contains_index(t as int));
            }
        }

        // Burn the position.
        let ghost before = self.positions@;
        self.positions.remove(i);
        proof {
            before.remove_ensures(i as int);
            assert forall|j: int|
                0 <= j < self.positions@.len()
                    implies self.position_wf(#[trigger] self.positions@[j]) by {
                if j < i {
                    assert(self.positions@[j] == before[j]);
                } else {
                    assert(self.positions@[j] == before[j + 1]);
                }
            }
            assert forall|a: int, b: int|
                0 <= a < b < self.positions@.len()
                    implies #[trigger] self.positions@[a].id < #[trigger] self.positions@[b].id by {
                if b < i {
                } else if a < i {
                    assert(self.positions@[b] == before[b + 1]);
                } else {
                    assert(self.positions@[a] == before[a + 1] && self.positions@[b] == before[b + 1]);
                }
            }
            assert forall|j: int|
                0 <= j < self.positions@.len()
                    implies #[trigger] self.positions@[j].id != position_id by {
                old(self).lemma_unique_position(position_id);
                if j < i {
                    assert(self.positions@[j] == before[j]);
                } else {
                    assert(self.positions@[j] == before[j + 1]);
                }
            }
        }
        Ok(RemoveLiquidityOutcome { x_principal, y_principal, x_fees, y_fees })
    }

    /// Whether a boundary tick can give a removal back: the shrunken
    /// amounts stay in range, the gross liquidity does not go negative,
    /// and a surviving tick keeps its signed delta within its gross
    /// liquidity.
    pub open spec fn remove_tick_fits(
        self,
        tick_index: int,
        liquidity: int,
        is_right_bound: bool,
    ) -> bool {
        let o = self.ticks.spec_get(tick_index).unwrap();
        let new_total = pd_subunits(o.total_liquidity) - liquidity;
        let new_delta = if is_right_bound {
            pd_subunits(o.delta_liquidity) + liquidity
        } else {
            pd_subunits(o.delta_liquidity) - liquidity
        };
        &&& self.ticks.contains_index(tick_index)
        &&& in_i256(new_total)
        &&& new_total >= 0
        &&& in_i256(new_delta)
        &&& (new_total > 0 ==> -new_total <= new_delta <= new_total)
    }

    /// The content of a boundary tick after a removal of liquidity: the
    /// gross amount shrinks by the position's liquidity, and the signed
    /// delta loses it on the left bound and regains it on the right one.
    /// `None` stands for a tick whose gross liquidity reached zero.
    fn prospective_remove_tick(
        &self,
        tick_index: i32,
        liquidity: PreciseDecimal,
        is_right_bound: bool,
    ) -> (r: Result<Option<Tick>, PoolError>)
        requires
            self.wf(),
            0 <= pd_subunits(liquidity) <= i256_max(),
        ensures
            match r {
                Ok(updated) => {
                    &&& self.ticks.contains_index(tick_index as int)
                    &&& ({
                        let o = self.ticks.spec_get(tick_index as int).unwrap();
                        match updated {
                            Some(t) => {
                                &&& self.tick_wf(t)
                                &&& t.index == tick_index
                                &&& pd_subunits(t.total_liquidity)
                                    == pd_subunits(o.total_liquidity) - pd_subunits(liquidity)
                                &&& pd_subunits(t.total_liquidity) > 0
                                &&& pd_subunits(t.delta_liquidity) == (if is_right_bound {
                                    pd_subunits(o.delta_liquidity) + pd_subunits(liquidity)
                                } else {
                                    pd_subunits(o.delta_liquidity) - pd_subunits(liquidity)
                                })
                                &&& t.price_sqrt == o.price_sqrt
                                &&& t.x_fee_outside == o.x_fee_outside
                                &&& t.y_fee_outside == o.y_fee_outside
                                &&& t.seconds_outside == o.seconds_outside
                            },
                            None => pd_subunits(o.total_liquidity) - pd_subunits(liquidity) == 0,
                        }
                    })
                },
                Err(e) => e == PoolError::UnknownPosition || e == PoolError::AmountOverflow,
            },
            r is Ok <==> self.remove_tick_fits(
                tick_index as int,
                pd_subunits(liquidity),
                is_right_bound,
            ),
    {
        proof {
            self.ticks.lemma_unique_index(tick_index as int);
        }
        let existing = match self.ticks.get(tick_index) {
            Some(t) => t,
            None => {
                return Err(PoolError::UnknownPosition);
            },
        };
        proof {
            let i = choose|i: int|
                0 <= i < self.ticks.view().len() && self.ticks.view()[i] == existing
                    && #[trigger] self.ticks.view()[i].index == tick_index;
            assert(self.tick_wf(self.ticks.view()[i]));
        }
        let new_total = match pd_checked_sub(existing.total_liquidity, liquidity) {
            Some(v) => v,
            None => {
                return Err(PoolError::AmountOverflow);
            },
        };
        if pd_lt(&new_total, &pd_zero()) {
            // Removing more than the tick holds would mean corrupted
            // bookkeeping.
            return Err(PoolError::AmountOverflow);
        }
        let new_delta = if is_right_bound {
            match pd_checked_add(existing.delta_liquidity, liquidity) {
                Some(v) => v,
                None => {
                    return Err(PoolError::AmountOverflow);
                },
            }
        } else {
            match pd_checked_sub(existing.delta_liquidity, liquidity) {
                Some(v) => v,
                None => {
                    return Err(PoolError::AmountOverflow);
                },
            }
        };
        if pd_eq(&new_total, &pd_zero()) {
            return Ok(None);
        }
        let neg_total = pd_neg(new_total);
        if pd_lt(&new_total, &new_delta) || pd_lt(&new_delta, &neg_total) {
            // A signed delta exceeding the gross liquidity would mean
            // corrupted bookkeeping.
            return Err(PoolError::AmountOverflow);
        }
        Ok(Some(Tick {
            delta_liquidity: new_delta,
            total_liquidity: new_total,
            ..existing
        }))
    }

    /// Commits a prepared removal to the store: writes the shrunken tick
    /// back, or deletes an emptied one.
    fn commit_tick_removal(&mut self, tick_index: i32, updated: Option<Tick>)
        requires
            old(self).wf(),
            old(self).ticks.contains_index(tick_index as int),
            match updated {
                Some(t) => old(self).tick_wf(t) && t.index == tick_index,
                None => true,
            },
        ensures
            final(self).wf(),
            match updated {
                Some(t) => final(self).ticks.contains_index(tick_index as int)
                    && final(self).ticks.spec_get(tick_index as int) == Some(t),
                None => !final(self).ticks.contains_index(tick_index as int),
            },
            forall|k: int|
                k != tick_index && old(self).ticks.contains_index(k)
                    ==> #[trigger] final(self).ticks.contains_index(k),
            forall|k: int|
                k != tick_index && final(self).ticks.contains_index(k)
                    ==> #[trigger] old(self).ticks.contains_index(k),
            forall|k: int|
                k != tick_index && old(self).ticks.contains_index(k)
                    ==> #[trigger] final(self).ticks.spec_get(k) == old(self).ticks.spec_get(k),
            *final(self) == (Pool { ticks: final(self).ticks, ..*old(self) }),
    {
        match updated {
            Some(t) => {
                self.put_tick(t, false);
            },
            None => {
                let ghost olds = self.ticks;
                let removed = self.ticks.remove(tick_index);
                proof {
                    let s = self.ticks.view();
                    if removed is Some {
                        let j = choose|j: int|
                            0 <= j < olds.view().len() && olds.view()[j] == removed.unwrap()
                                && s =~= olds.view().remove(j);
                        olds.view().remove_ensures(j);
                        assert forall|k: int|
                            k != tick_index && olds.contains_index(k)
                                implies #[trigger] self.ticks.contains_index(k) by {
                            olds.lemma_unique_index(k);
                            let i = olds.index_position(k);
                            if i < j {
                                assert(s[i] == olds.view()[i]);
                            } else {
                                assert(olds.view()[j].index == tick_index);
                                assert(i != j);
                                assert(s[i - 1] == olds.view()[i]);
                            }
                        }
                        assert forall|k: int|
                            k != tick_index && self.ticks.contains_index(k)
                                implies #[trigger] olds.contains_index(k) by {
                            let i = choose|i: int|
                                0 <= i < s.len() && #[trigger] s[i].index == k;
                            if i < j {
                                assert(olds.view()[i].index == k);
                            } else {
                                assert(olds.view()[i + 1].index == k);
                            }
                        }
                        assert forall|k: int|
                            k != tick_index && olds.contains_index(k)
                                implies #[trigger] self.ticks.spec_get(k) == olds.spec_get(k) by {
                            olds.lemma_unique_index(k);
                            self.ticks.lemma_unique_index(k);
                            let i = olds.index_position(k);
                            assert(i != j);
                            if i < j {
                                assert(s[i] == olds.view()[i]);
                            } else {
                                assert(s[i - 1] == olds.view()[i]);
                            }
                        }
                        assert forall|i: int|
                            0 <= i < s.len() implies self.tick_wf(#[trigger] s[i]) by {
                            if i < j {
                                assert(s[i] == olds.view()[i]);
                            } else {
                                assert(s[i] == olds.view()[i + 1]);
                            }
                        }
                    }
                }
            },
        }
    }
}

impl Pool {
    /// Executes a swap: splits the gross input into net amount and fees,
    /// walks the tick lattice in the direction of travel — crossing ticks
    /// on full steps, stopping inside a range on the final partial step —
    /// settles the protocol fee, and commits the final price, liquidity
    /// and active tick.
    ///
    /// Buying token x never decreases the price and selling it never
    /// increases it, and the gross input is fully accounted: consumed net
    /// input, both fee parts and the returned remainder recompose it
    /// exactly.  A swap that finds no tick in its travel direction, or
    /// that settles in one partial step short of the nearest tick, is
    /// guaranteed to succeed, and in the latter case the contract pins the
    /// exact final price and output.
    #[verifier::loop_isolation(false)]
    #[verifier::rlimit(100)]
    pub fn swap(&mut self, swap_type: SwapType, input_amount: Decimal, now: u64) -> (r: Result<
        SwapOutcome,
        PoolError,
    >)
        requires
            old(self).wf(),
            0 <= dec_attos(input_amount) <= i192_max(),
            old(self).observed_at <= now,
            now - old(self).instantiated_at <= 0x1000000000000,
        ensures
            final(self).wf(),
            ({
                let ia = dec_attos(input_amount);
                let rate = dec_attos(old(self).input_fee_rate);
                let share = dec_attos(old(self).fee_protocol_share);
                let d = old(self).input_divisibility_spec(swap_type) as int;
                let fee = crate::swap_math::fee_total_attos(ia, rate, d);
                match r {
                    Ok(outcome) => {
                        &&& (swap_type is BuyX ==> pd_subunits(old(self).price_sqrt)
                            <= pd_subunits(final(self).price_sqrt))
                        &&& (swap_type is SellX ==> pd_subunits(final(self).price_sqrt)
                            <= pd_subunits(old(self).price_sqrt))
                        &&& dec_attos(outcome.input_consumed) + dec_attos(outcome.input_fee_lp)
                            + dec_attos(outcome.input_fee_protocol) + dec_attos(outcome.remainder)
                            == ia
                        &&& dec_attos(outcome.input_fee_lp) + dec_attos(outcome.input_fee_protocol)
                            <= fee
                        // With no remainder returned and no overshoot of
                        // the net input, the reserved split is realized
                        // exactly; only a partial final step leaves a
                        // recomputed, smaller protocol part.
                        &&& (dec_attos(outcome.remainder) == 0
                            && dec_attos(outcome.input_consumed) + fee <= ia
                            ==> dec_attos(outcome.input_fee_lp)
                                + dec_attos(outcome.input_fee_protocol) == fee)
                        &&& 0 <= dec_attos(outcome.input_fee_lp)
                        &&& 0 <= dec_attos(outcome.input_fee_protocol)
                        &&& 0 <= dec_attos(outcome.output)
                        &&& 0 <= dec_attos(outcome.remainder)
                        &&& ia - fee > 0
                        // The protocol's part is credited to the input
                        // token's protocol-fee reserve.
                        &&& (swap_type is SellX ==> dec_attos(final(self).x_protocol_fee)
                            == dec_attos(old(self).x_protocol_fee)
                                + dec_attos(outcome.input_fee_protocol))
                        &&& (swap_type is SellX
                            ==> final(self).y_protocol_fee == old(self).y_protocol_fee)
                        &&& (swap_type is BuyX ==> dec_attos(final(self).y_protocol_fee)
                            == dec_attos(old(self).y_protocol_fee)
                                + dec_attos(outcome.input_fee_protocol))
                        &&& (swap_type is BuyX
                            ==> final(self).x_protocol_fee == old(self).x_protocol_fee)
                        // The output-side accumulator is untouched and the
                        // input-side one only grows; everything a swap
                        // does not touch is unchanged.
                        &&& (swap_type is BuyX ==> final(self).x_lp_fee == old(self).x_lp_fee
                            && pd_subunits(final(self).y_lp_fee)
                                >= pd_subunits(old(self).y_lp_fee))
                        &&& (swap_type is SellX ==> final(self).y_lp_fee == old(self).y_lp_fee
                            && pd_subunits(final(self).x_lp_fee)
                                >= pd_subunits(old(self).x_lp_fee))
                        &&& final(self).positions@ == old(self).positions@
                        &&& final(self).x_divisibility == old(self).x_divisibility
                        &&& final(self).y_divisibility == old(self).y_divisibility
                        &&& final(self).tick_spacing == old(self).tick_spacing
                        &&& final(self).max_liquidity_per_tick == old(self).max_liquidity_per_tick
                        &&& final(self).input_fee_rate == old(self).input_fee_rate
                        &&& final(self).fee_protocol_share == old(self).fee_protocol_share
                        &&& final(self).flash_loan_fee_rate == old(self).flash_loan_fee_rate
                        &&& final(self).instantiated_at == old(self).instantiated_at
                        &&& final(self).next_sync_time == old(self).next_sync_time
                        &&& final(self).lp_counter == old(self).lp_counter
                        &&& final(self).observed_at == now
                        // The protocol part is either the reserved split or
                        // the documented partial-step recomputation from
                        // the realized liquidity-provider fee, capped at
                        // the reservation.
                        &&& ({
                            let reserved = crate::swap_math::protocol_fee_attos(fee, share, d);
                            let partial = crate::swap_math::partial_protocol_fee_attos(
                                dec_attos(outcome.input_fee_lp),
                                d_one() - share,
                                d,
                            );
                            dec_attos(outcome.input_fee_protocol) == reserved
                                || dec_attos(outcome.input_fee_protocol) == (
                            if reserved <= partial {
                                reserved
                            } else {
                                partial
                            })
                        })
                    },
                    Err(e) => {
                        &&& (e == PoolError::EmptySwapInput <==> ia - fee <= 0)
                        &&& (e == PoolError::EmptySwapInput || e == PoolError::AmountOverflow)
                        // A failed swap leaves the pool exactly as it was.
                        &&& *final(self) == *old(self)
                    },
                }
            }),
            ({
                let ia = dec_attos(input_amount);
                let rate = dec_attos(old(self).input_fee_rate);
                let d = old(self).input_divisibility_spec(swap_type) as int;
                let fee = crate::swap_math::fee_total_attos(ia, rate, d);
                let bound = active_tick_or_min(old(self).active_tick);
                let no_tick_in_direction = match swap_type {
                    SwapType::BuyX => forall|k: int|
                        #[trigger] old(self).ticks.contains_index(k) ==> k <= bound,
                    SwapType::SellX => forall|k: int|
                        #[trigger] old(self).ticks.contains_index(k) ==> k > bound,
                };
                // Success is owed at least where no tick lies in the
                // travel direction: the swap then consumes nothing and
                // returns the net input as remainder.
                ia - fee > 0 && no_tick_in_direction ==> r is Ok
            }),
            // The lattice invariant is preserved: a pool whose active
            // liquidity matched the delta sum at or below its pointer
            // still matches after the swap, crossings included.
            liquidity_consistent(*old(self)) ==> liquidity_consistent(*final(self)),
            ({
                let ia = dec_attos(input_amount);
                let d = old(self).input_divisibility_spec(swap_type) as int;
                let od = old(self).output_divisibility_spec(swap_type) as int;
                let fee = crate::swap_math::fee_total_attos(
                    ia,
                    dec_attos(old(self).input_fee_rate),
                    d,
                );
                let net = ia - fee;
                let l0 = pd_subunits(old(self).active_liquidity);
                let ps = pd_subunits(old(self).price_sqrt);
                let np = crate::swap_math::new_price_subunits(swap_type, l0, ps, net, d);
                // A swap that settles in one partial step against the
                // nearest tick commits the computed price, crosses
                // nothing, and realizes the full reserved fee split.
                forall|t: int|
                    #[trigger] old(self).first_direction_tick(swap_type, t)
                        && old(self).single_partial_step(swap_type, t, ia) ==> {
                        &&& pd_subunits(final(self).price_sqrt) == np
                        &&& final(self).active_tick == old(self).active_tick
                        &&& final(self).active_liquidity == old(self).active_liquidity
                        &&& final(self).ticks.view() =~= old(self).ticks.view()
                        &&& match r {
                            Ok(outcome) => {
                                &&& dec_attos(outcome.output)
                                    == crate::swap_math::output_step_attos(
                                    swap_type,
                                    l0,
                                    ps,
                                    np,
                                    od,
                                )
                                &&& dec_attos(outcome.input_consumed) == net
                                &&& dec_attos(outcome.remainder) == 0
                                &&& dec_attos(outcome.input_fee_lp)
                                    + dec_attos(outcome.input_fee_protocol) == fee
                            },
                            Err(_) => false,
                        }
                    }
            }),
    {
        let input_divisibility = match swap_type {
            SwapType::BuyX => self.y_divisibility,
            SwapType::SellX => self.x_divisibility,
        };
        let output_divisibility = match swap_type {
            SwapType::BuyX => self.x_divisibility,
            SwapType::SellX => self.y_divisibility,
        };
        let (net, lp_fee, protocol_fee) = match input_amount_net(
            input_amount,
            self.input_fee_rate,
            self.fee_protocol_share,
            input_divisibility,
        ) {
            Ok(v) => v,
            Err(e) => {
                return Err(e);
            },
        };

        let (global_input_fee_lp, global_output_fee_lp) = match swap_type {
            SwapType::BuyX => (self.y_lp_fee, self.x_lp_fee),
            SwapType::SellX => (self.x_lp_fee, self.y_lp_fee),
        };
        let one = crate::fixed_point::dec_one_value();
        let fee_lp_share = dec_sub(one, self.fee_protocol_share);
        let input_share = dec_sub(one, self.input_fee_rate);
        let mut state = SwapState {
            swap_type,
            input: dec_zero(),
            input_divisibility,
            output: dec_zero(),
            output_divisibility,
            remainder: net,
            remainder_fee_lp: lp_fee,
            liquidity: self.active_liquidity,
            active_tick: self.active_tick,
            price_sqrt: self.price_sqrt,
            price_sqrt_sell_cache: None,
            input_fee_rate: self.input_fee_rate,
            fee_protocol_share: self.fee_protocol_share,
            fee_lp_share,
            input_share,
            fee_lp_input: dec_zero(),
            fee_protocol_input: dec_zero(),
            fee_protocol_max: protocol_fee,
            global_input_fee_lp,
            global_output_fee_lp,
            global_seconds: now - self.instantiated_at,
            crossed_ticks: Vec::new(),
        };
        let mut scratch = self.ticks.duplicate();
        let ghost initial_state = state;
        let n = scratch.entries.len();
        let active_bound: i32 = match self.active_tick {
            Some(t) => t,
            None => i32::MIN,
        };

        match swap_type {
            SwapType::BuyX => {
                // Visit the ticks strictly above the active one, upward.
                let start = match scratch.first_above(active_bound) {
                    Some(s) => s,
                    None => n,
                };
                proof {
                    assert(start < n
                        ==> old(self).ticks.view()[start as int].index > active_bound);
                    assert(forall|j: int|
                        0 <= j < start ==> (#[trigger] old(self).ticks.view()[j]).index
                            <= active_bound);
                    if start < n {
                        let first = old(self).ticks.view()[start as int].index as int;
                        assert(old(self).ticks.contains_index(first));
                        assert forall|t: int|
                            old(self).first_direction_tick(SwapType::BuyX, t) implies t
                            == first by {
                            old(self).ticks.lemma_unique_index(t);
                            let j = old(self).ticks.index_position(t);
                            assert(j >= start) by {
                                if j < start {
                                    assert(old(self).ticks.view()[j].index <= active_bound);
                                }
                            }
                            if j > start {
                                assert(old(self).ticks.view()[start as int].index
                                    < old(self).ticks.view()[j].index);
                            }
                            assert(t <= first);
                        }
                    } else {
                        assert forall|t: int|
                            !old(self).first_direction_tick(SwapType::BuyX, t) by {
                            if old(self).ticks.contains_index(t) && t > active_bound {
                                old(self).ticks.lemma_unique_index(t);
                                let j = old(self).ticks.index_position(t);
                                assert(old(self).ticks.view()[j].index <= active_bound);
                            }
                        }
                    }
                }
                let ghost buy_settles: bool = start < n
                    && old(self).first_direction_tick(
                    SwapType::BuyX,
                    old(self).ticks.view()[start as int].index as int,
                )
                    && old(self).single_partial_step(
                    SwapType::BuyX,
                    old(self).ticks.view()[start as int].index as int,
                    dec_attos(input_amount),
                );
                let mut i: usize = start;
                let mut done: bool = false;
                while !done && i < n
                    invariant
                        start <= i <= n,
                        start >= n ==> state == initial_state,
                        liquidity_consistent(*old(self)) ==> pd_subunits(state.liquidity)
                            == delta_sum_at_or_below(
                            old(self).ticks.view(),
                            active_tick_or_min(state.active_tick),
                        ),
                        !done ==> ((i == start && state.active_tick == old(self).active_tick)
                            || (start < i && i <= n && state.active_tick == Some(
                            old(self).ticks.view()[i - 1].index,
                        ))),
                        buy_settles ==> ({
                            let np = crate::swap_math::new_price_subunits(
                                SwapType::BuyX,
                                pd_subunits(old(self).active_liquidity),
                                pd_subunits(old(self).price_sqrt),
                                dec_attos(net),
                                old(self).input_divisibility_spec(SwapType::BuyX) as int,
                            );
                            &&& i == start
                            &&& scratch.view() =~= old(self).ticks.view()
                            &&& if done {
                                &&& pd_subunits(state.price_sqrt) == np
                                &&& state.active_tick == old(self).active_tick
                                &&& state.liquidity == old(self).active_liquidity
                                &&& dec_attos(state.remainder) == 0
                                &&& dec_attos(state.remainder_fee_lp) == 0
                                &&& dec_attos(state.input) == dec_attos(net)
                                &&& dec_attos(state.fee_lp_input) == dec_attos(lp_fee)
                                &&& dec_attos(state.output)
                                    == crate::swap_math::output_step_attos(
                                    SwapType::BuyX,
                                    pd_subunits(old(self).active_liquidity),
                                    pd_subunits(old(self).price_sqrt),
                                    np,
                                    old(self).output_divisibility_spec(SwapType::BuyX) as int,
                                )
                            } else {
                                state == initial_state
                            }
                        }),
                        state.wf(),
                        state.swap_type == swap_type,
                        initial_state.same_config(state),
                        state.price_sqrt_sell_cache is None,
                        done || 0 < dec_attos(state.remainder),
                        state.lp_fee_sum() == initial_state.lp_fee_sum(),
                        pd_subunits(state.global_input_fee_lp)
                            >= pd_subunits(initial_state.global_input_fee_lp),
                        state.global_output_fee_lp == initial_state.global_output_fee_lp,
                        dec_attos(state.input) + dec_attos(state.remainder)
                            == dec_attos(net),
                        pd_subunits(old(self).price_sqrt) <= pd_subunits(state.price_sqrt),
                        match state.active_tick {
                            Some(t) => MIN_TICK <= t <= MAX_TICK,
                            None => true,
                        },
                        done || state.crossed_ticks@.len() <= i - start,
                        scratch.view().len() == n,
                        scratch.sorted(),
                        forall|j: int| 0 <= j < n ==> {
                            &&& (#[trigger] scratch.view()[j]).index == old(self).ticks.view()[j].index
                            &&& scratch.view()[j].price_sqrt == old(self).ticks.view()[j].price_sqrt
                            &&& scratch.view()[j].delta_liquidity == old(self).ticks.view()[j].delta_liquidity
                            &&& scratch.view()[j].total_liquidity == old(self).ticks.view()[j].total_liquidity
                            &&& in_i256(pd_subunits(scratch.view()[j].x_fee_outside))
                            &&& in_i256(pd_subunits(scratch.view()[j].y_fee_outside))
                            &&& scratch.view()[j].seconds_outside <= state.global_seconds
                        },
                    decreases (if done { 0int } else { 1int }), n - i,
                {
                    let mut tick = scratch.entries[i];
                    proof {
                        assert(old(self).ticks.view()[i as int].index > active_bound) by {
                            if i > start {
                                assert(old(self).ticks.view()[start as int].index
                                    < old(self).ticks.view()[i as int].index);
                            }
                        }
                        assert(old(self).ticks.contains_index(
                            old(self).ticks.view()[i as int].index as int,
                        ));
                    }
                    proof {
                        if buy_settles {
                            let first = old(self).ticks.view()[start as int].index as int;
                            old(self).ticks.lemma_unique_index(first);
                            assert(old(self).ticks.spec_get(first)
                                == Some(old(self).ticks.view()[start as int]));
                            assert(partial_step_fits(
                                state,
                                crate::swap_math::new_price_subunits(
                                    SwapType::BuyX,
                                    pd_subunits(old(self).active_liquidity),
                                    pd_subunits(old(self).price_sqrt),
                                    dec_attos(net),
                                    old(self).input_divisibility_spec(SwapType::BuyX) as int,
                                ),
                            ));
                        }
                    }
                    if pd_lt(&tick.price_sqrt, &state.price_sqrt) {
                        // A tick above the pointer always lies at or above
                        // the price; anything else is corrupted ordering.
                        return Err(PoolError::AmountOverflow);
                    }
                    proof {
                        assert(old(self).tick_wf(old(self).ticks.view()[i as int]));
                    }
                    let tick_index = tick.index;
                    let ghost pre_state = state;
                    let control = match buy_step(&mut state, &mut tick, tick_index) {
                        Ok(c) => c,
                        Err(e) => {
                            return Err(e);
                        },
                    };
                    scratch.entries[i] = tick;
                    proof {
                        assert(scratch.view() =~= scratch.view());
                        assert forall|a: int, b: int| 0 <= a < b < n
                            implies #[trigger] scratch.view()[a].index
                                < #[trigger] scratch.view()[b].index by {
                            assert(old(self).ticks.view()[a].index < old(self).ticks.view()[b].index);
                        }
                        // Carry the lattice sum across a crossing: the
                        // crossed tick's delta moves the prefix by one.
                        if liquidity_consistent(*old(self))
                            && !(state.active_tick == pre_state.active_tick
                            && state.liquidity == pre_state.liquidity) {
                            let v = old(self).ticks.view();
                            let bound_pre = active_tick_or_min(pre_state.active_tick);
                            let cut_pre: int = if i == start {
                                start as int
                            } else {
                                i as int
                            };
                            assert forall|j: int| 0 <= j < cut_pre
                                implies (#[trigger] v[j]).index <= bound_pre by {
                                if i > start && j < i - 1 {
                                    assert(v[j].index < v[i - 1].index);
                                }
                            }
                            assert forall|j: int| cut_pre <= j < v.len()
                                implies (#[trigger] v[j]).index > bound_pre by {
                                if i == start {
                                    if j > start {
                                        assert(v[start as int].index < v[j].index);
                                    }
                                } else {
                                    if j > i - 1 {
                                        assert(v[i - 1].index < v[j].index);
                                    }
                                }
                            }
                            lemma_delta_sum_is_prefix(v, bound_pre, cut_pre);
                            assert forall|j: int| 0 <= j < i + 1
                                implies (#[trigger] v[j]).index <= v[i as int].index by {
                                if j < i {
                                    assert(v[j].index < v[i as int].index);
                                }
                            }
                            assert forall|j: int| i + 1 <= j < v.len()
                                implies (#[trigger] v[j]).index > v[i as int].index by {
                                assert(v[i as int].index < v[j].index);
                            }
                            lemma_delta_sum_is_prefix(v, v[i as int].index as int, i + 1);
                            lemma_delta_prefix_sum_step(v, i as int);
                        }
                    }
                    match control {
                        StepControl::Break => {
                            done = true;
                        },
                        StepControl::Continue => {
                            i = i + 1;
                        },
                    }
                }
                proof {
                    assert((match swap_type {
                        SwapType::BuyX => forall|k: int|
                            #[trigger] old(self).ticks.contains_index(k)
                                ==> k <= active_tick_or_min(old(self).active_tick),
                        SwapType::SellX => forall|k: int|
                            #[trigger] old(self).ticks.contains_index(k)
                                ==> k > active_tick_or_min(old(self).active_tick),
                    }) ==> state == initial_state) by {
                        if start < n {
                            assert(old(self).ticks.contains_index(
                                old(self).ticks.view()[start as int].index as int,
                            ));
                        }
                    }
                }
            },
            SwapType::SellX => {
                // Visit the ticks at or below the active one, downward.
                match scratch.prev_at_or_below(active_bound) {
                    Some(start) => {
                        proof {
                            assert(old(self).ticks.view()[start as int].index <= active_bound);
                            assert(forall|j: int|
                                start < j < n ==> (#[trigger] old(self).ticks.view()[j]).index
                                    > active_bound);
                            assert(old(self).ticks.contains_index(
                                old(self).ticks.view()[start as int].index as int,
                            ));
                            assert((match swap_type {
                                SwapType::BuyX => forall|k: int|
                                    #[trigger] old(self).ticks.contains_index(k)
                                        ==> k <= active_tick_or_min(old(self).active_tick),
                                SwapType::SellX => forall|k: int|
                                    #[trigger] old(self).ticks.contains_index(k)
                                        ==> k > active_tick_or_min(old(self).active_tick),
                            }) ==> false);
                            let first = old(self).ticks.view()[start as int].index as int;
                            assert forall|t: int|
                                old(self).first_direction_tick(SwapType::SellX, t) implies t
                                == first by {
                                old(self).ticks.lemma_unique_index(t);
                                let j = old(self).ticks.index_position(t);
                                assert(j <= start) by {
                                    if j > start {
                                        assert(active_bound
                                            < old(self).ticks.view()[j].index);
                                    }
                                }
                                if j < start {
                                    assert(old(self).ticks.view()[j].index
                                        < old(self).ticks.view()[start as int].index);
                                }
                                assert(first <= t);
                            }
                        }
                        let ghost sell_settles: bool = old(self).first_direction_tick(
                            SwapType::SellX,
                            old(self).ticks.view()[start as int].index as int,
                        ) && old(self).single_partial_step(
                            SwapType::SellX,
                            old(self).ticks.view()[start as int].index as int,
                            dec_attos(input_amount),
                        );
                        let mut i: usize = start;
                        let mut done: bool = false;
                        while !done
                            invariant
                                i <= start < n,
                                liquidity_consistent(*old(self)) ==> pd_subunits(state.liquidity)
                                    == delta_sum_at_or_below(
                                    old(self).ticks.view(),
                                    active_tick_or_min(state.active_tick),
                                ),
                                !done ==> ((i == start
                                    && state.active_tick == old(self).active_tick)
                                    || (i < start && state.active_tick == Some(
                                    old(self).ticks.view()[i as int].index,
                                ))),
                                sell_settles ==> ({
                                    let np = crate::swap_math::new_price_subunits(
                                        SwapType::SellX,
                                        pd_subunits(old(self).active_liquidity),
                                        pd_subunits(old(self).price_sqrt),
                                        dec_attos(net),
                                        old(self).input_divisibility_spec(SwapType::SellX) as int,
                                    );
                                    &&& i == start
                                    &&& scratch.view() =~= old(self).ticks.view()
                                    &&& if done {
                                        &&& pd_subunits(state.price_sqrt) == np
                                        &&& state.active_tick == old(self).active_tick
                                        &&& state.liquidity == old(self).active_liquidity
                                        &&& dec_attos(state.remainder) == 0
                                        &&& dec_attos(state.remainder_fee_lp) == 0
                                        &&& dec_attos(state.input) == dec_attos(net)
                                        &&& dec_attos(state.fee_lp_input) == dec_attos(lp_fee)
                                        &&& dec_attos(state.output)
                                            == crate::swap_math::output_step_attos(
                                            SwapType::SellX,
                                            pd_subunits(old(self).active_liquidity),
                                            pd_subunits(old(self).price_sqrt),
                                            np,
                                            old(self).output_divisibility_spec(
                                                SwapType::SellX,
                                            ) as int,
                                        )
                                    } else {
                                        state == initial_state
                                    }
                                }),
                                state.wf(),
                                state.swap_type == swap_type,
                                initial_state.same_config(state),
                                done || 0 <= dec_attos(state.remainder),
                                state.lp_fee_sum() == initial_state.lp_fee_sum(),
                                pd_subunits(state.global_input_fee_lp)
                                    >= pd_subunits(initial_state.global_input_fee_lp),
                                state.global_output_fee_lp == initial_state.global_output_fee_lp,
                                dec_attos(state.input) + dec_attos(state.remainder)
                                    == dec_attos(net),
                                pd_subunits(state.price_sqrt) <= pd_subunits(old(self).price_sqrt),
                                match state.active_tick {
                                    Some(t) => MIN_TICK <= t <= MAX_TICK,
                                    None => true,
                                },
                                done || state.crossed_ticks@.len() <= start - i,
                                scratch.view().len() == n,
                                scratch.sorted(),
                                forall|j: int| 0 <= j < n ==> {
                                    &&& (#[trigger] scratch.view()[j]).index == old(self).ticks.view()[j].index
                                    &&& scratch.view()[j].price_sqrt == old(self).ticks.view()[j].price_sqrt
                                    &&& scratch.view()[j].delta_liquidity == old(self).ticks.view()[j].delta_liquidity
                                    &&& scratch.view()[j].total_liquidity == old(self).ticks.view()[j].total_liquidity
                                    &&& in_i256(pd_subunits(scratch.view()[j].x_fee_outside))
                                    &&& in_i256(pd_subunits(scratch.view()[j].y_fee_outside))
                                    &&& scratch.view()[j].seconds_outside <= state.global_seconds
                                },
                            decreases (if done { 0int } else { 1int }), i,
                        {
                            let mut tick = scratch.entries[i];
                            proof {
                                if sell_settles {
                                    let first = old(self).ticks.view()[start as int].index as int;
                                    old(self).ticks.lemma_unique_index(first);
                                    assert(old(self).ticks.spec_get(first)
                                        == Some(old(self).ticks.view()[start as int]));
                                    assert(partial_step_fits(
                                        state,
                                        crate::swap_math::new_price_subunits(
                                            SwapType::SellX,
                                            pd_subunits(old(self).active_liquidity),
                                            pd_subunits(old(self).price_sqrt),
                                            dec_attos(net),
                                            old(self).input_divisibility_spec(
                                                SwapType::SellX,
                                            ) as int,
                                        ),
                                    ));
                                }
                            }
                            if pd_lt(&state.price_sqrt, &tick.price_sqrt) {
                                // A tick at or below the pointer always lies
                                // at or below the price; anything else is
                                // corrupted ordering.
                                return Err(PoolError::AmountOverflow);
                            }
                            proof {
                                assert(old(self).tick_wf(old(self).ticks.view()[i as int]));
                            }
                            let next_tick_index: Option<i32> = if i == 0 {
                                None
                            } else {
                                Some(scratch.entries[i - 1].index)
                            };
                            let ghost pre_state = state;
                            let control = match sell_step(&mut state, &mut tick, next_tick_index) {
                                Ok(c) => c,
                                Err(e) => {
                                    return Err(e);
                                },
                            };
                            scratch.entries[i] = tick;
                            proof {
                                assert forall|a: int, b: int| 0 <= a < b < n
                                    implies #[trigger] scratch.view()[a].index
                                        < #[trigger] scratch.view()[b].index by {
                                    assert(old(self).ticks.view()[a].index
                                        < old(self).ticks.view()[b].index);
                                }
                                // Carry the lattice sum across a crossing
                                // toward the next lower tick.
                                if liquidity_consistent(*old(self))
                                    && !(state.active_tick == pre_state.active_tick
                                    && state.liquidity == pre_state.liquidity) {
                                    let v = old(self).ticks.view();
                                    let bound_pre = active_tick_or_min(pre_state.active_tick);
                                    let cut_pre: int = if i == start {
                                        start + 1
                                    } else {
                                        i + 1
                                    };
                                    assert forall|j: int| 0 <= j < cut_pre
                                        implies (#[trigger] v[j]).index <= bound_pre by {
                                        if i == start {
                                            if j < start {
                                                assert(v[j].index < v[start as int].index);
                                            }
                                        } else {
                                            if j < i {
                                                assert(v[j].index < v[i as int].index);
                                            }
                                        }
                                    }
                                    assert forall|j: int| cut_pre <= j < v.len()
                                        implies (#[trigger] v[j]).index > bound_pre by {
                                        if i < start && j > i {
                                            assert(v[i as int].index < v[j].index);
                                        }
                                    }
                                    lemma_delta_sum_is_prefix(v, bound_pre, cut_pre);
                                    assert forall|j: int| 0 <= j < i
                                        implies (#[trigger] v[j]).index <= v[i - 1].index by {
                                        if j < i - 1 {
                                            assert(v[j].index < v[i - 1].index);
                                        }
                                    }
                                    assert forall|j: int| i <= j < v.len()
                                        implies (#[trigger] v[j]).index > v[i - 1].index by {
                                        assert(v[i - 1].index < v[j].index);
                                    }
                                    lemma_delta_sum_is_prefix(v, v[i - 1].index as int, i as int);
                                    lemma_delta_prefix_sum_step(v, i as int);
                                }
                            }
                            match control {
                                StepControl::Break => {
                                    done = true;
                                },
                                StepControl::Continue => {
                                    if i == 0 {
                                        // The step only continues toward a
                                        // further tick; none is left.
                                        return Err(PoolError::AmountOverflow);
                                    }
                                    proof {
                                        assert(scratch.view()[i - 1].price_sqrt
                                            == old(self).ticks.view()[i - 1].price_sqrt);
                                    }
                                    i = i - 1;
                                },
                            }
                        }
                    },
                    None => {
                        proof {
                            assert forall|t: int|
                                !old(self).first_direction_tick(SwapType::SellX, t) by {
                                if old(self).ticks.contains_index(t) && t <= active_bound {
                                    old(self).ticks.lemma_unique_index(t);
                                    let j = old(self).ticks.index_position(t);
                                    assert(active_bound < old(self).ticks.view()[j].index);
                                }
                            }
                            assert(liquidity_consistent(*old(self))
                                ==> pd_subunits(state.liquidity) == delta_sum_at_or_below(
                                old(self).ticks.view(),
                                active_tick_or_min(state.active_tick),
                            ));
                        }
                    },
                }
            },
        }
        proof {
            // Where no tick lies in the travel direction the loop never
            // ran, and settling a zero realized fee always succeeds.
            if (match swap_type {
                SwapType::BuyX => forall|k: int|
                    #[trigger] old(self).ticks.contains_index(k)
                        ==> k <= active_tick_or_min(old(self).active_tick),
                SwapType::SellX => forall|k: int|
                    #[trigger] old(self).ticks.contains_index(k)
                        ==> k > active_tick_or_min(old(self).active_tick),
            }) {
                assert(state == initial_state);
                let sh = dec_attos(state.fee_lp_share);
                let d = state.input_divisibility as int;
                assert(0 * d_one() == 0 && 0 * d_one() * pd_one() == 0) by (nonlinear_arith);
                assert(sh * d_one() >= 1) by (nonlinear_arith)
                    requires sh >= 750000000000000000, d_one() >= 1;
                assert(tdiv(0, sh * d_one()) == 0) by {
                    vstd::arithmetic::div_mod::lemma_div_of0(sh * d_one());
                }
                crate::fixed_point::lemma_pow10_pos((36 - d) as nat);
                crate::fixed_point::lemma_pow10_pos((18 - d) as nat);
                assert(ceil_div(0, pow10((36 - d) as nat)) == 0) by {
                    vstd::arithmetic::div_mod::lemma_div_of0(pow10((36 - d) as nat));
                }
                assert(0 * pow10((18 - d) as nat) == 0) by (nonlinear_arith);
                assert(crate::swap_math::partial_protocol_fee_attos(0, sh, d) == 0);
                assert(crate::swap_math::protocol_settlement_fits(state));
            }
        }

        if dec_lt(&state.remainder_fee_lp, &dec_zero()) {
            // More liquidity-provider fee realized than was reserved would
            // mean corrupted fee bookkeeping.
            return Err(PoolError::AmountOverflow);
        }
        match state.take_protocol_fees() {
            Ok(()) => {},
            Err(e) => {
                return Err(e);
            },
        }

        // The returned remainder closes the accounting: gross input equals
        // consumed net input plus both fees plus the remainder.
        let after_input = match dec_checked_sub(input_amount, state.input) {
            Some(v) => v,
            None => {
                return Err(PoolError::AmountOverflow);
            },
        };
        let after_lp = match dec_checked_sub(after_input, state.fee_lp_input) {
            Some(v) => v,
            None => {
                return Err(PoolError::AmountOverflow);
            },
        };
        let remainder_returned = match dec_checked_sub(after_lp, state.fee_protocol_input) {
            Some(v) => v,
            None => {
                return Err(PoolError::AmountOverflow);
            },
        };
        if dec_lt(&remainder_returned, &dec_zero()) {
            return Err(PoolError::AmountOverflow);
        }
        if dec_lt(&state.input, &dec_zero()) {
            return Err(PoolError::AmountOverflow);
        }

        // The protocol's part of the input moves into the protocol-fee
        // reserve of the input token, to be handed to the registry at the
        // next synchronization.
        let old_reserve = match swap_type {
            SwapType::BuyX => self.y_protocol_fee,
            SwapType::SellX => self.x_protocol_fee,
        };
        let new_reserve = match dec_checked_add(old_reserve, state.fee_protocol_input) {
            Some(v) => v,
            None => {
                return Err(PoolError::AmountOverflow);
            },
        };

        proof {
            if liquidity_consistent(*old(self)) {
                lemma_delta_sum_congruence(
                    scratch.view(),
                    old(self).ticks.view(),
                    active_tick_or_min(state.active_tick),
                );
            }
        }
        // Commit the swap state's final values.
        self.observed_at = now;
        self.ticks = scratch;
        self.price_sqrt = state.price_sqrt;
        self.active_tick = state.active_tick;
        self.active_liquidity = state.liquidity;
        match swap_type {
            SwapType::BuyX => {
                self.y_lp_fee = state.global_input_fee_lp;
                self.y_protocol_fee = new_reserve;
            },
            SwapType::SellX => {
                self.x_lp_fee = state.global_input_fee_lp;
                self.x_protocol_fee = new_reserve;
            },
        }
        Ok(SwapOutcome {
            input_consumed: state.input,
            input_fee_lp: state.fee_lp_input,
            input_fee_protocol: state.fee_protocol_input,
            output: state.output,
            remainder: remainder_returned,
        })
    }

    /// The divisibility of the input token of a swap direction.
    pub open spec fn input_divisibility_spec(self, swap_type: SwapType) -> u8 {
        match swap_type {
            SwapType::BuyX => self.y_divisibility,
            SwapType::SellX => self.x_divisibility,
        }
    }

    /// The divisibility of the output token of a swap direction.
    pub open spec fn output_divisibility_spec(self, swap_type: SwapType) -> u8 {
        match swap_type {
            SwapType::BuyX => self.x_divisibility,
            SwapType::SellX => self.y_divisibility,
        }
    }

    /// The global fee accumulator of the input token axis of a direction.
    pub open spec fn input_axis_fee_subunits(self, swap_type: SwapType) -> int {
        match swap_type {
            SwapType::BuyX => pd_subunits(self.y_lp_fee),
            SwapType::SellX => pd_subunits(self.x_lp_fee),
        }
    }

    /// The protocol-fee reserve of the input token axis of a direction.
    pub open spec fn input_axis_reserve_attos(self, swap_type: SwapType) -> int {
        match swap_type {
            SwapType::BuyX => dec_attos(self.y_protocol_fee),
            SwapType::SellX => dec_attos(self.x_protocol_fee),
        }
    }

    /// Whether a swap of the given gross input settles against the tick
    /// `first` — the nearest one in the travel direction — in a single
    /// partial step: the computed post-trade price stops short of the tick
    /// boundary and every intermediate stays in range.  The swap then
    /// commits that price, crosses nothing, keeps pointer and liquidity,
    /// and realizes the full reserved fee split.
    pub open spec fn single_partial_step(self, swap_type: SwapType, first: int, ia: int) -> bool {
        let d = self.input_divisibility_spec(swap_type) as int;
        let od = self.output_divisibility_spec(swap_type) as int;
        let fee = crate::swap_math::fee_total_attos(ia, dec_attos(self.input_fee_rate), d);
        let net = ia - fee;
        let lp0 = fee - crate::swap_math::protocol_fee_attos(
            fee,
            dec_attos(self.fee_protocol_share),
            d,
        );
        let l0 = pd_subunits(self.active_liquidity);
        let ps = pd_subunits(self.price_sqrt);
        let tp = pd_subunits(self.ticks.spec_get(first).unwrap().price_sqrt);
        let np = crate::swap_math::new_price_subunits(swap_type, l0, ps, net, d);
        let g0 = self.input_axis_fee_subunits(swap_type);
        &&& net > 0
        &&& l0 >= 1
        &&& (match swap_type {
            SwapType::BuyX => ps <= tp,
            SwapType::SellX => tp < ps,
        })
        &&& crate::swap_math::new_price_fits(swap_type, l0, ps, net, d)
        &&& (match swap_type {
            SwapType::BuyX => np < tp,
            SwapType::SellX => tp < np,
        })
        &&& crate::swap_math::output_step_fits(swap_type, l0, ps, np, od)
        &&& in_i256(crate::swap_math::fee_per_liquidity_subunits(lp0, l0))
        &&& in_i256(g0 + crate::swap_math::fee_per_liquidity_subunits(lp0, l0))
        &&& g0 + crate::swap_math::fee_per_liquidity_subunits(lp0, l0) >= 0
        &&& in_i192(self.input_axis_reserve_attos(swap_type) + (fee - lp0))
    }

    /// Whether `first` is the nearest stored tick in the travel direction
    /// of a swap: strictly above the pointer when buying, at or below it
    /// when selling.
    pub open spec fn first_direction_tick(self, swap_type: SwapType, first: int) -> bool {
        let bound = active_tick_or_min(self.active_tick);
        match swap_type {
            SwapType::BuyX => self.ticks.contains_index(first) && first > bound
                && (forall|k: int|
                #[trigger] self.ticks.contains_index(k) && k > bound ==> first <= k),
            SwapType::SellX => self.ticks.contains_index(first) && first <= bound
                && (forall|k: int|
                #[trigger] self.ticks.contains_index(k) && k <= bound ==> k <= first),
        }
    }
}

/// Claiming against an unchanged checkpoint yields nothing: with no
/// intervening swap the range accumulators have not grown, so an immediate
/// re-claim pays zero.
pub proof fn lemma_no_growth_no_claim(checkpoint: int, liquidity: int, divisibility: int)
    requires
        0 <= divisibility <= 18,
    ensures
        claim_attos(checkpoint, checkpoint, liquidity, divisibility) == 0,
{
    let big = pow10((36 - divisibility) as nat);
    crate::fixed_point::lemma_pow10_pos((36 - divisibility) as nat);
    assert(0 * liquidity == 0) by (nonlinear_arith);
    assert(tdiv(0, pd_one()) == 0) by {
        vstd::arithmetic::div_mod::lemma_div_of0(pd_one());
    }
    assert(floor_div(0, big) == 0) by {
        vstd::arithmetic::div_mod::lemma_div_of0(big);
    }
    assert(0 * pow10((18 - divisibility) as nat) == 0) by (nonlinear_arith);
}

/// The sum of the signed liquidity deltas of the stored ticks at or below
/// a bound: what the active liquidity must equal when the pointer rests at
/// that bound.
pub open spec fn delta_sum_at_or_below(ticks: Seq<crate::tick_store::Tick>, bound: int) -> int
    decreases ticks.len(),
{
    if ticks.len() == 0 {
        0
    } else if ticks[0].index <= bound {
        pd_subunits(ticks[0].delta_liquidity) + delta_sum_at_or_below(ticks.skip(1), bound)
    } else {
        delta_sum_at_or_below(ticks.skip(1), bound)
    }
}

/// The sum of the signed deltas of the first `n` stored ticks.
pub open spec fn delta_prefix_sum(ticks: Seq<crate::tick_store::Tick>, n: int) -> int
    decreases ticks.len(),
{
    if n <= 0 || ticks.len() == 0 {
        0
    } else {
        pd_subunits(ticks[0].delta_liquidity) + delta_prefix_sum(ticks.skip(1), n - 1)
    }
}

/// Two stores whose ticks agree pointwise on index and delta have the same
/// bounded delta sum.
pub proof fn lemma_delta_sum_congruence(
    s1: Seq<crate::tick_store::Tick>,
    s2: Seq<crate::tick_store::Tick>,
    bound: int,
)
    requires
        s1.len() == s2.len(),
        forall|j: int| 0 <= j < s1.len() ==> (#[trigger] s1[j]).index == s2[j].index
            && s1[j].delta_liquidity == s2[j].delta_liquidity,
    ensures
        delta_sum_at_or_below(s1, bound) == delta_sum_at_or_below(s2, bound),
    decreases s1.len(),
{
    if s1.len() > 0 {
        assert forall|j: int| 0 <= j < s1.skip(1).len()
            implies (#[trigger] s1.skip(1)[j]).index == s2.skip(1)[j].index
                && s1.skip(1)[j].delta_liquidity == s2.skip(1)[j].delta_liquidity by {
            assert(s1.skip(1)[j] == s1[j + 1]);
            assert(s2.skip(1)[j] == s2[j + 1]);
        }
        lemma_delta_sum_congruence(s1.skip(1), s2.skip(1), bound);
    }
}

/// In a sorted store, the delta sum below a bound that cuts between
/// positions `n - 1` and `n` equals the prefix sum of the first `n` ticks.
pub proof fn lemma_delta_sum_is_prefix(
    ticks: Seq<crate::tick_store::Tick>,
    bound: int,
    n: int,
)
    requires
        forall|a: int, b: int|
            0 <= a < b < ticks.len()
                ==> (#[trigger] ticks[a]).index < (#[trigger] ticks[b]).index,
        0 <= n <= ticks.len(),
        forall|j: int| 0 <= j < n ==> (#[trigger] ticks[j]).index <= bound,
        forall|j: int| n <= j < ticks.len() ==> (#[trigger] ticks[j]).index > bound,
    ensures
        delta_sum_at_or_below(ticks, bound) == delta_prefix_sum(ticks, n),
    decreases ticks.len(),
{
    if ticks.len() == 0 {
    } else {
        let rest = ticks.skip(1);
        assert forall|a: int, b: int| 0 <= a < b < rest.len()
            implies (#[trigger] rest[a]).index < (#[trigger] rest[b]).index by {
            assert(rest[a] == ticks[a + 1] && rest[b] == ticks[b + 1]);
        }
        if n == 0 {
            assert(ticks[0].index > bound);
            assert forall|j: int| 0 <= j < rest.len()
                implies (#[trigger] rest[j]).index > bound by {
                assert(rest[j] == ticks[j + 1]);
            }
            lemma_delta_sum_is_prefix(rest, bound, 0);
        } else {
            assert(ticks[0].index <= bound);
            assert forall|j: int| 0 <= j < n - 1
                implies (#[trigger] rest[j]).index <= bound by {
                assert(rest[j] == ticks[j + 1]);
            }
            assert forall|j: int| n - 1 <= j < rest.len()
                implies (#[trigger] rest[j]).index > bound by {
                assert(rest[j] == ticks[j + 1]);
            }
            lemma_delta_sum_is_prefix(rest, bound, n - 1);
        }
    }
}

/// One more tick in the prefix adds exactly its delta.
pub proof fn lemma_delta_prefix_sum_step(ticks: Seq<crate::tick_store::Tick>, n: int)
    requires
        0 <= n < ticks.len(),
    ensures
        delta_prefix_sum(ticks, n + 1)
            == delta_prefix_sum(ticks, n) + pd_subunits(ticks[n].delta_liquidity),
    decreases n,
{
    if n > 0 {
        lemma_delta_prefix_sum_step(ticks.skip(1), n - 1);
        assert(ticks.skip(1)[n - 1] == ticks[n]);
    } else {
        assert(delta_prefix_sum(ticks, 0) == 0);
        assert(delta_prefix_sum(ticks, 1)
            == pd_subunits(ticks[0].delta_liquidity) + delta_prefix_sum(ticks.skip(1), 0));
    }
}

/// The lattice invariant of the pool: the active liquidity equals the sum
/// of the signed deltas of all ticks at or below the active tick.
pub open spec fn liquidity_consistent(pool: Pool) -> bool {
    pd_subunits(pool.active_liquidity) == delta_sum_at_or_below(
        pool.ticks.view(),
        active_tick_or_min(pool.active_tick),
    )
}

/// A position removed immediately after it was added claims nothing: the
/// pool state `add_liquidity` leaves behind — the boundary ticks' outside
/// accumulators, the extended pointer and the untouched global fee
/// accumulators — reproduces exactly the checkpoints the position was
/// minted with, so the incremental claim of the auto-claiming removal is
/// zero on both axes.
pub proof fn lemma_immediate_removal_claims_nothing(before: Pool, after: Pool, p: LiquidityPosition)
    requires
        0 <= after.x_divisibility <= 18,
        0 <= after.y_divisibility <= 18,
        MIN_TICK <= p.left_bound < p.right_bound <= MAX_TICK,
        // What add_liquidity ensures of the state it leaves and of the
        // minted position.
        after.ticks.contains_index(p.left_bound as int),
        after.ticks.contains_index(p.right_bound as int),
        after.x_lp_fee == before.x_lp_fee,
        after.y_lp_fee == before.y_lp_fee,
        pd_subunits(after.ticks.spec_get(p.left_bound as int).unwrap().x_fee_outside)
            == before.add_outside_x_subunits(p.left_bound as int),
        pd_subunits(after.ticks.spec_get(p.right_bound as int).unwrap().x_fee_outside)
            == before.add_outside_x_subunits(p.right_bound as int),
        pd_subunits(after.ticks.spec_get(p.left_bound as int).unwrap().y_fee_outside)
            == before.add_outside_y_subunits(p.left_bound as int),
        pd_subunits(after.ticks.spec_get(p.right_bound as int).unwrap().y_fee_outside)
            == before.add_outside_y_subunits(p.right_bound as int),
        active_tick_or_min(after.active_tick)
            == before.extended_active_tick(p.left_bound as int, p.right_bound as int),
        pd_subunits(p.x_fee_checkpoint) == value_in_range_spec(
            pd_subunits(before.x_lp_fee),
            before.add_outside_x_subunits(p.left_bound as int),
            before.add_outside_x_subunits(p.right_bound as int),
            before.extended_active_tick(p.left_bound as int, p.right_bound as int),
            p.left_bound as int,
            p.right_bound as int,
        ),
        pd_subunits(p.y_fee_checkpoint) == value_in_range_spec(
            pd_subunits(before.y_lp_fee),
            before.add_outside_y_subunits(p.left_bound as int),
            before.add_outside_y_subunits(p.right_bound as int),
            before.extended_active_tick(p.left_bound as int, p.right_bound as int),
            p.left_bound as int,
            p.right_bound as int,
        ),
    ensures
        claim_attos(
            x_checkpoint_spec(after, p),
            pd_subunits(p.x_fee_checkpoint),
            pd_subunits(p.liquidity),
            after.x_divisibility as int,
        ) == 0,
        claim_attos(
            y_checkpoint_spec(after, p),
            pd_subunits(p.y_fee_checkpoint),
            pd_subunits(p.liquidity),
            after.y_divisibility as int,
        ) == 0,
{
    assert(x_checkpoint_spec(after, p) == pd_subunits(p.x_fee_checkpoint));
    assert(y_checkpoint_spec(after, p) == pd_subunits(p.y_fee_checkpoint));
    lemma_no_growth_no_claim(
        x_checkpoint_spec(after, p),
        pd_subunits(p.liquidity),
        after.x_divisibility as int,
    );
    lemma_no_growth_no_claim(
        y_checkpoint_spec(after, p),
        pd_subunits(p.liquidity),
        after.y_divisibility as int,
    );
}

/// A claim immediately followed by a query pays nothing the second time:
/// the claim persisted the fresh checkpoints and changed nothing a range
/// checkpoint depends on, so the recomputed checkpoints coincide with the
/// stored ones and the incremental claim is zero on both axes.
pub proof fn lemma_claim_then_query_pays_nothing(before: Pool, after: Pool, position_id: u64)
    requires
        before.wf(),
        after.wf(),
        before.has_position(position_id),
        after.has_position(position_id),
        after.position_index(position_id) == before.position_index(position_id),
        after.ticks.view() == before.ticks.view(),
        after.active_tick == before.active_tick,
        after.x_lp_fee == before.x_lp_fee,
        after.y_lp_fee == before.y_lp_fee,
        after.x_divisibility == before.x_divisibility,
        after.y_divisibility == before.y_divisibility,
        ({
            let pb = before.spec_position(position_id).unwrap();
            let pa = after.spec_position(position_id).unwrap();
            &&& pa.left_bound == pb.left_bound
            &&& pa.right_bound == pb.right_bound
            &&& pa.liquidity == pb.liquidity
            &&& pd_subunits(pa.x_fee_checkpoint) == x_checkpoint_spec(before, pb)
            &&& pd_subunits(pa.y_fee_checkpoint) == y_checkpoint_spec(before, pb)
        }),
        before.ticks.contains_index(
            before.spec_position(position_id).unwrap().left_bound as int,
        ),
        before.ticks.contains_index(
            before.spec_position(position_id).unwrap().right_bound as int,
        ),
    ensures
        ({
            let pa = after.spec_position(position_id).unwrap();
            &&& claim_attos(
                x_checkpoint_spec(after, pa),
                pd_subunits(pa.x_fee_checkpoint),
                pd_subunits(pa.liquidity),
                after.x_divisibility as int,
            ) == 0
            &&& claim_attos(
                y_checkpoint_spec(after, pa),
                pd_subunits(pa.y_fee_checkpoint),
                pd_subunits(pa.liquidity),
                after.y_divisibility as int,
            ) == 0
        }),
{
    let pb = before.spec_position(position_id).unwrap();
    let pa = after.spec_position(position_id).unwrap();
    lemma_same_view_same_tick(before.ticks, after.ticks, pb.left_bound as int);
    lemma_same_view_same_tick(before.ticks, after.ticks, pb.right_bound as int);
    assert(x_checkpoint_spec(after, pa) == x_checkpoint_spec(before, pb));
    assert(y_checkpoint_spec(after, pa) == y_checkpoint_spec(before, pb));
    lemma_no_growth_no_claim(
        x_checkpoint_spec(after, pa),
        pd_subunits(pa.liquidity),
        after.x_divisibility as int,
    );
    lemma_no_growth_no_claim(
        y_checkpoint_spec(after, pa),
        pd_subunits(pa.liquidity),
        after.y_divisibility as int,
    );
}

/// Two sorted stores with the same content agree on every point lookup.
proof fn lemma_same_view_same_tick(
    a: crate::tick_store::TickStore,
    b: crate::tick_store::TickStore,
    tick_index: int,
)
    requires
        a.sorted(),
        a.view() == b.view(),
    ensures
        a.spec_get(tick_index) == b.spec_get(tick_index),
{
    a.lemma_unique_index(tick_index);
    b.lemma_unique_index(tick_index);
    if a.contains_index(tick_index) {
        let i = a.index_position(tick_index);
        assert(b.view()[i].index == tick_index);
        assert(b.contains_index(tick_index));
        assert(i == b.index_position(tick_index));
    } else {
        if b.contains_index(tick_index) {
            let j = b.index_position(tick_index);
            assert(a.view()[j].index == tick_index);
        }
    }
}

/// The pool-level round trip: a position removed immediately after it was
/// added pays out, principal plus auto-claimed fees, no more than the
/// amounts the addition consumed.  The hypotheses are exactly what
/// `add_liquidity`'s contract ensures of the pool it leaves and the
/// position it mints, and the conclusion bounds what `remove_liquidity`'s
/// contract says the removal pays.
pub proof fn lemma_add_then_remove_within_consumed(
    before: Pool,
    mid: Pool,
    p: LiquidityPosition,
    xa: int,
    ya: int,
)
    requires
        0 <= mid.x_divisibility <= 18,
        0 <= mid.y_divisibility <= 18,
        mid.x_divisibility == before.x_divisibility,
        mid.y_divisibility == before.y_divisibility,
        mid.price_sqrt == before.price_sqrt,
        MIN_TICK <= p.left_bound < p.right_bound <= MAX_TICK,
        0 <= xa <= i192_max(),
        0 <= ya <= i192_max(),
        pd_subunits(before.price_sqrt) > 0,
        0 < crate::tick_math::tick_price_sqrt_subunits(p.left_bound as int)
            < crate::tick_math::tick_price_sqrt_subunits(p.right_bound as int),
        crate::tick_math::tick_price_sqrt_subunits(p.right_bound as int) <= i256_max(),
        pd_subunits(p.liquidity) == crate::liquidity_math::allowed_liquidity_subunits(
            xa,
            before.x_divisibility as int,
            ya,
            before.y_divisibility as int,
            pd_subunits(before.price_sqrt),
            crate::tick_math::tick_price_sqrt_subunits(p.left_bound as int),
            crate::tick_math::tick_price_sqrt_subunits(p.right_bound as int),
        ),
        pd_subunits(p.liquidity) >= 1,
        // What add_liquidity ensures of the state it leaves and of the
        // minted position's checkpoints.
        mid.ticks.contains_index(p.left_bound as int),
        mid.ticks.contains_index(p.right_bound as int),
        mid.x_lp_fee == before.x_lp_fee,
        mid.y_lp_fee == before.y_lp_fee,
        pd_subunits(mid.ticks.spec_get(p.left_bound as int).unwrap().x_fee_outside)
            == before.add_outside_x_subunits(p.left_bound as int),
        pd_subunits(mid.ticks.spec_get(p.right_bound as int).unwrap().x_fee_outside)
            == before.add_outside_x_subunits(p.right_bound as int),
        pd_subunits(mid.ticks.spec_get(p.left_bound as int).unwrap().y_fee_outside)
            == before.add_outside_y_subunits(p.left_bound as int),
        pd_subunits(mid.ticks.spec_get(p.right_bound as int).unwrap().y_fee_outside)
            == before.add_outside_y_subunits(p.right_bound as int),
        active_tick_or_min(mid.active_tick)
            == before.extended_active_tick(p.left_bound as int, p.right_bound as int),
        pd_subunits(p.x_fee_checkpoint) == value_in_range_spec(
            pd_subunits(before.x_lp_fee),
            before.add_outside_x_subunits(p.left_bound as int),
            before.add_outside_x_subunits(p.right_bound as int),
            before.extended_active_tick(p.left_bound as int, p.right_bound as int),
            p.left_bound as int,
            p.right_bound as int,
        ),
        pd_subunits(p.y_fee_checkpoint) == value_in_range_spec(
            pd_subunits(before.y_lp_fee),
            before.add_outside_y_subunits(p.left_bound as int),
            before.add_outside_y_subunits(p.right_bound as int),
            before.extended_active_tick(p.left_bound as int, p.right_bound as int),
            p.left_bound as int,
            p.right_bound as int,
        ),
    ensures
        ({
            let xd = mid.x_divisibility as int;
            let yd = mid.y_divisibility as int;
            let ps = pd_subunits(mid.price_sqrt);
            let pl = crate::tick_math::tick_price_sqrt_subunits(p.left_bound as int);
            let pr = crate::tick_math::tick_price_sqrt_subunits(p.right_bound as int);
            let l = pd_subunits(p.liquidity);
            // What remove_liquidity pays: principal plus auto-claim, each
            // within what add_liquidity consumed.
            &&& crate::liquidity_math::removable_x_attos(l, ps, pl, pr, xd) + claim_attos(
                x_checkpoint_spec(mid, p),
                pd_subunits(p.x_fee_checkpoint),
                l,
                xd,
            ) <= crate::liquidity_math::allowed_x_attos(xa, xd, ya, yd, ps, pl, pr) <= xa
            &&& crate::liquidity_math::removable_y_attos(l, ps, pl, pr, yd) + claim_attos(
                y_checkpoint_spec(mid, p),
                pd_subunits(p.y_fee_checkpoint),
                l,
                yd,
            ) <= crate::liquidity_math::allowed_y_attos(xa, xd, ya, yd, ps, pl, pr) <= ya
        }),
{
    lemma_immediate_removal_claims_nothing(before, mid, p);
    crate::liquidity_math::lemma_add_remove_solvent(
        xa,
        mid.x_divisibility as int,
        ya,
        mid.y_divisibility as int,
        pd_subunits(mid.price_sqrt),
        crate::tick_math::tick_price_sqrt_subunits(p.left_bound as int),
        crate::tick_math::tick_price_sqrt_subunits(p.right_bound as int),
    );
}

/// The add/remove round trip at one price returns no more than was
/// deposited: the withdrawable principal stays within the consumed
/// amounts, and with no intervening swap the auto-claimed fee part is
/// exactly zero.
pub proof fn lemma_round_trip_solvent(xa: int, xd: int, ya: int, yd: int, ps: int, pl: int, pr: int, checkpoint: int)
    requires
        0 <= xd <= 18,
        0 <= yd <= 18,
        0 <= xa <= i192_max(),
        0 <= ya <= i192_max(),
        0 < ps,
        0 < pl < pr,
        pr <= i256_max(),
        crate::liquidity_math::allowed_liquidity_subunits(xa, xd, ya, yd, ps, pl, pr) >= 1,
    ensures
        ({
            let l = crate::liquidity_math::allowed_liquidity_subunits(xa, xd, ya, yd, ps, pl, pr);
            &&& crate::liquidity_math::removable_x_attos(l, ps, pl, pr, xd)
                + claim_attos(checkpoint, checkpoint, l, xd)
                <= crate::liquidity_math::allowed_x_attos(xa, xd, ya, yd, ps, pl, pr) <= xa
            &&& crate::liquidity_math::removable_y_attos(l, ps, pl, pr, yd)
                + claim_attos(checkpoint, checkpoint, l, yd)
                <= crate::liquidity_math::allowed_y_attos(xa, xd, ya, yd, ps, pl, pr) <= ya
        }),
{
    crate::liquidity_math::lemma_add_remove_solvent(xa, xd, ya, yd, ps, pl, pr);
    let l = crate::liquidity_math::allowed_liquidity_subunits(xa, xd, ya, yd, ps, pl, pr);
    lemma_no_growth_no_claim(checkpoint, l, xd);
    lemma_no_growth_no_claim(checkpoint, l, yd);
}

impl Pool {
    /// Previews a removal without changing any state: the withdrawable
    /// principal at the current price plus the fees claimable, per token.
    pub fn removable_liquidity(&self, position_id: u64) -> (r: Result<(Decimal, Decimal), PoolError>)
        requires
            self.wf(),
        ensures
            match r {
                Ok((x, y)) => {
                    &&& self.has_position(position_id)
                    &&& ({
                        let p = self.spec_position(position_id).unwrap();
                        let l = pd_subunits(p.liquidity);
                        let ps = pd_subunits(self.price_sqrt);
                        let pl = crate::tick_math::tick_price_sqrt_subunits(p.left_bound as int);
                        let pr = crate::tick_math::tick_price_sqrt_subunits(p.right_bound as int);
                        &&& dec_attos(x) == crate::liquidity_math::removable_x_attos(
                            l, ps, pl, pr, self.x_divisibility as int,
                        ) + claim_attos(
                            x_checkpoint_spec(*self, p),
                            pd_subunits(p.x_fee_checkpoint),
                            l,
                            self.x_divisibility as int,
                        )
                        &&& dec_attos(y) == crate::liquidity_math::removable_y_attos(
                            l, ps, pl, pr, self.y_divisibility as int,
                        ) + claim_attos(
                            y_checkpoint_spec(*self, p),
                            pd_subunits(p.y_fee_checkpoint),
                            l,
                            self.y_divisibility as int,
                        )
                    })
                },
                Err(e) => {
                    &&& (e == PoolError::UnknownPosition || e == PoolError::AmountOverflow)
                    &&& (!self.has_position(position_id) ==> e == PoolError::UnknownPosition)
                },
            },
            r is Ok <==> self.has_position(position_id) && ({
                let p = self.spec_position(position_id).unwrap();
                let l = pd_subunits(p.liquidity);
                let ps = pd_subunits(self.price_sqrt);
                let pl = crate::tick_math::tick_price_sqrt_subunits(p.left_bound as int);
                let pr = crate::tick_math::tick_price_sqrt_subunits(p.right_bound as int);
                let xd = self.x_divisibility as int;
                let yd = self.y_divisibility as int;
                &&& claim_query_fits(*self, p)
                &&& crate::liquidity_math::removable_fits(l, ps, pl, pr, xd, yd)
                &&& in_i192(crate::liquidity_math::removable_x_attos(l, ps, pl, pr, xd)
                    + claim_attos(
                    x_checkpoint_spec(*self, p),
                    pd_subunits(p.x_fee_checkpoint),
                    l,
                    xd,
                ))
                &&& in_i192(crate::liquidity_math::removable_y_attos(l, ps, pl, pr, yd)
                    + claim_attos(
                    y_checkpoint_spec(*self, p),
                    pd_subunits(p.y_fee_checkpoint),
                    l,
                    yd,
                ))
            }),
    {
        let i = match self.find_position(position_id) {
            Some(i) => i,
            None => {
                return Err(PoolError::UnknownPosition);
            },
        };
        let (x_fees, y_fees, _, _) = match self.claimable_fees_internal(i) {
            Ok(v) => v,
            Err(e) => {
                return Err(e);
            },
        };
        proof {
            assert(self.position_wf(self.positions@[i as int]));
        }
        let price_left_sqrt = tick_to_price_sqrt(self.positions[i].left_bound);
        let price_right_sqrt = tick_to_price_sqrt(self.positions[i].right_bound);
        let (x_principal, y_principal) = match remove_amounts(
            self.positions[i].liquidity,
            self.price_sqrt,
            price_left_sqrt,
            price_right_sqrt,
            self.x_divisibility,
            self.y_divisibility,
        ) {
            Ok(v) => v,
            Err(e) => {
                return Err(e);
            },
        };
        let x_total = match dec_checked_add(x_principal, x_fees) {
            Some(v) => v,
            None => {
                return Err(PoolError::AmountOverflow);
            },
        };
        let y_total = match dec_checked_add(y_principal, y_fees) {
            Some(v) => v,
            None => {
                return Err(PoolError::AmountOverflow);
            },
        };
        Ok((x_total, y_total))
    }
}

} // verus!
