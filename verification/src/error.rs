//! Error kinds surfaced by the vesting engine.
//!
//! Every failure aborts the call that raised it; there are no soft failures.

use vstd::prelude::*;

verus! {

/// The specific condition under which a schedule is rejected at registration.
#[derive(Clone, Copy, Debug, PartialEq, Eq, Structural)]
pub enum ScheduleViolation {
    /// The attached deposit is zero.
    ZeroDeposit,
    /// A linear schedule declares a zero total, or a periodic schedule a zero
    /// per-period amount.
    ZeroVestingAmount,
    /// The schedule starts before the current block time.
    StartBeforeNow,
    /// The schedule ends before it starts.
    EndBeforeStart,
    /// A periodic schedule declares a zero vesting interval.
    ZeroInterval,
    /// A periodic schedule's span is not an exact multiple of its interval.
    SpanNotMultipleOfInterval,
    /// The schedule's own total does not equal the attached deposit.
    DepositMismatch,
    /// A cliff schedule declares no releases.
    EmptyReleases,
    /// A cliff release amount is zero.
    ZeroReleaseAmount,
    /// A cliff release time is earlier than the current block time.
    ReleaseBeforeNow,
}

/// Everything that can make a call to the engine fail.
#[derive(Clone, Copy, Debug, PartialEq, Eq, Structural)]
pub enum Error {
    /// The caller of a master-only operation is not the master.
    Unauthorized,
    /// A vesting account already exists for the (beneficiary, denom) pair.
    AlreadyExists,
    /// No vesting account exists for the (beneficiary, denom) pair.
    NotFound,
    /// The submitted schedule is malformed; carries the violated condition.
    InvalidSchedule(ScheduleViolation),
    /// A checked addition or multiplication exceeded the amount type's range.
    Overflow,
    /// A checked subtraction went below zero.
    Underflow,
}

} // verus!
