//! Core of a concentrated-liquidity automated market maker.
//!
//! Liquidity providers deposit two tokens into discrete price ranges bounded
//! by ticks; traders swap one token for the other against the liquidity that
//! is active at the current price.  The arithmetic is fixed-point throughout:
//! `Decimal` (18 fractional digits) for externally visible amounts and
//! `PreciseDecimal` (36 fractional digits) for prices, liquidity and
//! accumulators.  Every rounding direction is part of the contract: the pool
//! must never pay out more value than it received.

pub mod fixed_point;
pub mod constants;
pub mod errors;
pub mod liquidity_math;
pub mod tick_store;
pub mod swap_math;
pub mod pool;
pub mod tick_math;
