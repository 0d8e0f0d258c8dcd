//! The failure taxonomy of the pool.
//!
//! Every operation either completes fully or fails with one of these errors
//! and leaves no partial state change behind.

use vstd::prelude::*;

verus! {

#[derive(Clone, Copy, Debug, PartialEq, Eq, Structural)]
pub enum PoolError {
    /// Identical, unsorted or non-fungible token identities.
    InvalidTokenPair,
    /// Out-of-range, unordered or degenerate tick bounds after alignment.
    InvalidBounds,
    /// An input, flash-loan or protocol fee outside the configured maxima.
    FeeRateOutOfRange,
    /// An addition of liquidity that would create no usable liquidity.
    ZeroLiquidity,
    /// A tick's gross liquidity would exceed its per-tick cap.
    TickCapacityExceeded,
    /// A hook returned a bucket below the minimum retained fraction.
    HookDrainViolation,
    /// A flash-loan repayment below the amount due.
    InsufficientRepayment,
    /// A flash-loan repayment in the wrong token.
    WrongRepaymentToken,
    /// A flash-loan repayment carrying more than one receipt.
    MultipleLoanReceipts,
    /// A swap whose net input after fees is not positive.
    EmptySwapInput,
    /// An operation on a non-existent or already-burned position.
    UnknownPosition,
    /// A fixed-point intermediate left its 192- or 256-bit range; the
    /// operation aborts with no state change.
    AmountOverflow,
}

} // verus!
