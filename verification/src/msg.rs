//! Vesting schedules: the three schedule kinds, their validation against a
//! deposit, and the time-based vested-amount computation.
//!
//! All amount arithmetic is checked: an operation that would leave the
//! `u128` range fails with an arithmetic error instead of wrapping.

use vstd::prelude::*;

use crate::denom::Denom;
use crate::error::{Error, ScheduleViolation};

verus! {

/// Initialization request: the master address, or none to let the caller
/// become master.
pub struct InstantiateMsg {
    pub master_address: Option<String>,
}

/// Answer to the master-address query.
#[derive(Debug, PartialEq)]
pub struct MasterAddressResponse {
    pub master_address: String,
}

/// One entry of a vesting-account listing: the asset, the schedule, and
/// the amounts deposited, vested and still claimable at query time.
#[derive(Debug, PartialEq)]
pub struct VestingData {
    pub vesting_denom: Denom,
    pub vesting_amount: u128,
    pub vested_amount: u128,
    pub vesting_schedule: VestingSchedule,
    pub claimable_amount: u128,
}

/// Answer to the vesting-account query: one entry per stored account of
/// the beneficiary, in ascending asset-key order.
#[derive(Debug, PartialEq)]
pub struct VestingAccountResponse {
    pub address: String,
    pub vestings: Vec<VestingData>,
}

/// One checkpoint of a cliff schedule: `release_amount` becomes vested at
/// `release_time`.
#[derive(Clone, Copy, Debug, PartialEq, Eq, Structural)]
pub struct CliffSchedule {
    pub release_time: u64,
    pub release_amount: u128,
}

/// How a deposit vests over time.
#[derive(Debug, PartialEq)]
pub enum VestingSchedule {
    /// Vests continuously and proportionally between `start_time` and
    /// `end_time`; the whole `vesting_amount` is vested at the end.
    LinearVesting { start_time: u64, end_time: u64, vesting_amount: u128 },
    /// Vests `amount` in a discrete jump every `vesting_interval` seconds,
    /// the first jump at `start_time`, the last at `end_time`.
    PeriodicVesting { start_time: u64, end_time: u64, vesting_interval: u64, amount: u128 },
    /// Vests at a fixed set of checkpoints.
    CliffVesting { schedules: Vec<CliffSchedule> },
}

/// Sum of all release amounts of a cliff schedule.
pub open spec fn cliff_total(schedules: Seq<CliffSchedule>) -> int
    decreases schedules.len(),
{
    if schedules.len() == 0 {
        0
    } else {
        schedules[0].release_amount + cliff_total(schedules.drop_first())
    }
}

/// Sum of the release amounts already due at time `t`.
pub open spec fn cliff_vested(schedules: Seq<CliffSchedule>, t: u64) -> int
    decreases schedules.len(),
{
    if schedules.len() == 0 {
        0
    } else {
        (if schedules[0].release_time <= t {
            schedules[0].release_amount as int
        } else {
            0
        }) + cliff_vested(schedules.drop_first(), t)
    }
}

/// Validation scan over a cliff release list, front to back, carrying the
/// running sum `acc`: the first violated condition decides the error.
pub open spec fn cliff_scan(schedules: Seq<CliffSchedule>, block_time: u64, acc: int) -> Result<
    int,
    Error,
>
    decreases schedules.len(),
{
    if schedules.len() == 0 {
        Ok(acc)
    } else if schedules[0].release_amount == 0 {
        Err(Error::InvalidSchedule(ScheduleViolation::ZeroReleaseAmount))
    } else if schedules[0].release_time < block_time {
        Err(Error::InvalidSchedule(ScheduleViolation::ReleaseBeforeNow))
    } else if acc + schedules[0].release_amount > u128::MAX {
        Err(Error::Overflow)
    } else {
        cliff_scan(schedules.drop_first(), block_time, acc + schedules[0].release_amount)
    }
}

/// The timing parameters of a schedule are consistent: the end does not
/// precede the start, and a periodic schedule has a nonzero interval.
/// Every stored account's schedule satisfies this; it is what
/// `vested_amount` needs to be defined.
pub open spec fn time_wf(s: VestingSchedule) -> bool {
    match s {
        VestingSchedule::LinearVesting { start_time, end_time, .. } => start_time <= end_time,
        VestingSchedule::PeriodicVesting { start_time, end_time, vesting_interval, .. } => {
            start_time <= end_time && vesting_interval > 0
        },
        VestingSchedule::CliffVesting { .. } => true,
    }
}

/// The schedule's own total: what it will have vested once every
/// checkpoint, period or the linear ramp has completed.
pub open spec fn schedule_total(s: VestingSchedule) -> int {
    match s {
        VestingSchedule::LinearVesting { vesting_amount, .. } => vesting_amount as int,
        VestingSchedule::PeriodicVesting { start_time, end_time, vesting_interval, amount } => {
            amount * (1 + (end_time - start_time) / (vesting_interval as int))
        },
        VestingSchedule::CliffVesting { schedules } => cliff_total(schedules@),
    }
}

/// The amount vested at time `t`, as an unbounded integer. Meaningful when
/// `time_wf(s)` holds.
pub open spec fn vested_math(s: VestingSchedule, t: u64) -> int {
    match s {
        VestingSchedule::LinearVesting { start_time, end_time, vesting_amount } => {
            if t <= start_time {
                0
            } else if t >= end_time {
                vesting_amount as int
            } else {
                vesting_amount * (t - start_time) / (end_time - start_time)
            }
        },
        VestingSchedule::PeriodicVesting { start_time, end_time, vesting_interval, amount } => {
            if t < start_time {
                0
            } else if t >= end_time {
                amount * (1 + (end_time - start_time) / (vesting_interval as int))
            } else {
                amount * (1 + (t - start_time) / (vesting_interval as int))
            }
        },
        VestingSchedule::CliffVesting { schedules } => cliff_vested(schedules@, t),
    }
}

/// Whether computing the vested amount at `t` hits an intermediate value
/// outside the `u128` range.
pub open spec fn vested_overflows(s: VestingSchedule, t: u64) -> bool {
    match s {
        VestingSchedule::LinearVesting { start_time, end_time, vesting_amount } => {
            start_time < t < end_time && vesting_amount * (t - start_time) > u128::MAX
        },
        VestingSchedule::PeriodicVesting { start_time, end_time, vesting_interval, amount } => {
            t >= start_time && ({
                let reached = if t >= end_time {
                    end_time
                } else {
                    t
                };
                amount * (1 + (reached - start_time) / (vesting_interval as int)) > u128::MAX
            })
        },
        VestingSchedule::CliffVesting { schedules } => cliff_vested(schedules@, t) > u128::MAX,
    }
}

/// What `vested_amount` returns at time `t`.
pub open spec fn vested_result(s: VestingSchedule, t: u64) -> Result<u128, Error> {
    if vested_overflows(s, t) {
        Err(Error::Overflow)
    } else {
        Ok(vested_math(s, t) as u128)
    }
}

/// What `validate` returns: the first violated condition, in checking
/// order, or success.
pub open spec fn validate_result(
    s: VestingSchedule,
    block_time: u64,
    deposit_amount: u128,
) -> Result<(), Error> {
    if deposit_amount == 0 {
        Err(Error::InvalidSchedule(ScheduleViolation::ZeroDeposit))
    } else {
        match s {
            VestingSchedule::LinearVesting { start_time, end_time, vesting_amount } => {
                if vesting_amount == 0 {
                    Err(Error::InvalidSchedule(ScheduleViolation::ZeroVestingAmount))
                } else if start_time < block_time {
                    Err(Error::InvalidSchedule(ScheduleViolation::StartBeforeNow))
                } else if end_time < start_time {
                    Err(Error::InvalidSchedule(ScheduleViolation::EndBeforeStart))
                } else if vesting_amount != deposit_amount {
                    Err(Error::InvalidSchedule(ScheduleViolation::DepositMismatch))
                } else {
                    Ok(())
                }
            },
            VestingSchedule::PeriodicVesting { start_time, end_time, vesting_interval, amount } => {
                if amount == 0 {
                    Err(Error::InvalidSchedule(ScheduleViolation::ZeroVestingAmount))
                } else if start_time < block_time {
                    Err(Error::InvalidSchedule(ScheduleViolation::StartBeforeNow))
                } else if end_time < start_time {
                    Err(Error::InvalidSchedule(ScheduleViolation::EndBeforeStart))
                } else if vesting_interval == 0 {
                    Err(Error::InvalidSchedule(ScheduleViolation::ZeroInterval))
                } else if (end_time - start_time) % (vesting_interval as int) != 0 {
                    Err(Error::InvalidSchedule(ScheduleViolation::SpanNotMultipleOfInterval))
                } else if amount * (1 + (end_time - start_time) / (vesting_interval as int))
                    > u128::MAX {
                    Err(Error::Overflow)
                } else if amount * (1 + (end_time - start_time) / (vesting_interval as int))
                    != deposit_amount {
                    Err(Error::InvalidSchedule(ScheduleViolation::DepositMismatch))
                } else {
                    Ok(())
                }
            },
            VestingSchedule::CliffVesting { schedules } => {
                if schedules@.len() == 0 {
                    Err(Error::InvalidSchedule(ScheduleViolation::EmptyReleases))
                } else {
                    match cliff_scan(schedules@, block_time, 0) {
                        Ok(sum) => {
                            if deposit_amount != sum {
                                Err(Error::InvalidSchedule(ScheduleViolation::DepositMismatch))
                            } else {
                                Ok(())
                            }
                        },
                        Err(e) => Err(e),
                    }
                }
            },
        }
    }
}

impl VestingSchedule {
    /// Checks the schedule against the deposit attached at registration.
    /// Fails exactly on the first violated condition, in checking order;
    /// on success the deposit equals the schedule's own total.
    pub fn validate(&self, block_time: u64, deposit_amount: u128) -> (r: Result<(), Error>)
        ensures
            r == validate_result(*self, block_time, deposit_amount),
    {
        if deposit_amount == 0 {
            return Err(Error::InvalidSchedule(ScheduleViolation::ZeroDeposit));
        }
        match self {
            VestingSchedule::LinearVesting { start_time, end_time, vesting_amount } => {
                if *vesting_amount == 0 {
                    return Err(Error::InvalidSchedule(ScheduleViolation::ZeroVestingAmount));
                }
                if *start_time < block_time {
                    return Err(Error::InvalidSchedule(ScheduleViolation::StartBeforeNow));
                }
                if *end_time < *start_time {
                    return Err(Error::InvalidSchedule(ScheduleViolation::EndBeforeStart));
                }
                if *vesting_amount != deposit_amount {
                    return Err(Error::InvalidSchedule(ScheduleViolation::DepositMismatch));
                }
                Ok(())
            },
            VestingSchedule::PeriodicVesting { start_time, end_time, vesting_interval, amount } => {
                if *amount == 0 {
                    return Err(Error::InvalidSchedule(ScheduleViolation::ZeroVestingAmount));
                }
                if *start_time < block_time {
                    return Err(Error::InvalidSchedule(ScheduleViolation::StartBeforeNow));
                }
                if *end_time < *start_time {
                    return Err(Error::InvalidSchedule(ScheduleViolation::EndBeforeStart));
                }
                if *vesting_interval == 0 {
                    return Err(Error::InvalidSchedule(ScheduleViolation::ZeroInterval));
                }
                let time_period: u64 = *end_time - *start_time;
                if time_period % *vesting_interval != 0 {
                    return Err(Error::InvalidSchedule(ScheduleViolation::SpanNotMultipleOfInterval));
                }
                let num_interval: u128 = 1 + (time_period as u128) / (*vesting_interval as u128);
                match amount.checked_mul(num_interval) {
                    None => Err(Error::Overflow),
                    Some(total) => {
                        if total != deposit_amount {
                            Err(Error::InvalidSchedule(ScheduleViolation::DepositMismatch))
                        } else {
                            Ok(())
                        }
                    },
                }
            },
            VestingSchedule::CliffVesting { schedules } => {
                if schedules.len() == 0 {
                    return Err(Error::InvalidSchedule(ScheduleViolation::EmptyReleases));
                }
                let mut total: u128 = 0;
                let mut i: usize = 0;
                proof {
                    assert(schedules@.skip(0) =~= schedules@);
                }
                while i < schedules.len()
                    invariant
                        0 <= i <= schedules@.len(),
                        deposit_amount != 0,
                        schedules@.len() != 0,
                        *self == (VestingSchedule::CliffVesting { schedules: *schedules }),
                        cliff_scan(schedules@, block_time, 0) == cliff_scan(
                            schedules@.skip(i as int),
                            block_time,
                            total as int,
                        ),
                    decreases schedules@.len() - i,
                {
                    proof {
                        assert(schedules@.skip(i as int)[0] == schedules@[i as int]);
                    }
                    let s = schedules[i];
                    if s.release_amount == 0 {
                        proof {
                            assert(cliff_scan(schedules@.skip(i as int), block_time, total as int)
                                == Err::<int, Error>(
                                Error::InvalidSchedule(ScheduleViolation::ZeroReleaseAmount),
                            ));
                        }
                        return Err(Error::InvalidSchedule(ScheduleViolation::ZeroReleaseAmount));
                    }
                    if s.release_time < block_time {
                        proof {
                            assert(cliff_scan(schedules@.skip(i as int), block_time, total as int)
                                == Err::<int, Error>(
                                Error::InvalidSchedule(ScheduleViolation::ReleaseBeforeNow),
                            ));
                        }
                        return Err(Error::InvalidSchedule(ScheduleViolation::ReleaseBeforeNow));
                    }
                    match total.checked_add(s.release_amount) {
                        None => {
                            return Err(Error::Overflow);
                        },
                        Some(t2) => {
                            proof {
                                assert(schedules@.skip(i as int).drop_first() =~= schedules@.skip(
                                    i as int + 1,
                                ));
                            }
                            total = t2;
                        },
                    }
                    i = i + 1;
                }
                proof {
                    assert(schedules@.skip(i as int) =~= Seq::<CliffSchedule>::empty());
                }
                if deposit_amount != total {
                    return Err(Error::InvalidSchedule(ScheduleViolation::DepositMismatch));
                }
                Ok(())
            },
        }
    }
}

/// Same schedule contents: same variant, same parameters, and for cliff
/// schedules the same release sequence. This is what a clone preserves.
pub open spec fn sched_eq(a: VestingSchedule, b: VestingSchedule) -> bool {
    match (a, b) {
        (
            VestingSchedule::LinearVesting { start_time: s1, end_time: e1, vesting_amount: v1 },
            VestingSchedule::LinearVesting { start_time: s2, end_time: e2, vesting_amount: v2 },
        ) => s1 == s2 && e1 == e2 && v1 == v2,
        (
            VestingSchedule::PeriodicVesting {
                start_time: s1,
                end_time: e1,
                vesting_interval: i1,
                amount: a1,
            },
            VestingSchedule::PeriodicVesting {
                start_time: s2,
                end_time: e2,
                vesting_interval: i2,
                amount: a2,
            },
        ) => s1 == s2 && e1 == e2 && i1 == i2 && a1 == a2,
        (
            VestingSchedule::CliffVesting { schedules: x },
            VestingSchedule::CliffVesting { schedules: y },
        ) => x@ == y@,
        _ => false,
    }
}

impl Clone for VestingSchedule {
    /// Copies the schedule; the copy has the same contents.
    fn clone(&self) -> (res: Self)
        ensures
            sched_eq(res, *self),
    {
        match self {
            VestingSchedule::LinearVesting { start_time, end_time, vesting_amount } => {
                VestingSchedule::LinearVesting {
                    start_time: *start_time,
                    end_time: *end_time,
                    vesting_amount: *vesting_amount,
                }
            },
            VestingSchedule::PeriodicVesting { start_time, end_time, vesting_interval, amount } => {
                VestingSchedule::PeriodicVesting {
                    start_time: *start_time,
                    end_time: *end_time,
                    vesting_interval: *vesting_interval,
                    amount: *amount,
                }
            },
            VestingSchedule::CliffVesting { schedules } => {
                let mut copy: Vec<CliffSchedule> = Vec::new();
                let mut i: usize = 0;
                while i < schedules.len()
                    invariant
                        0 <= i <= schedules@.len(),
                        copy@ == schedules@.take(i as int),
                    decreases schedules@.len() - i,
                {
                    copy.push(schedules[i]);
                    proof {
                        assert(schedules@.take(i as int).push(schedules@[i as int])
                            =~= schedules@.take(i as int + 1));
                    }
                    i = i + 1;
                }
                proof {
                    assert(schedules@.take(schedules@.len() as int) =~= schedules@);
                }
                VestingSchedule::CliffVesting { schedules: copy }
            },
        }
    }
}

impl VestingSchedule {
    /// The amount vested at `block_time`, or an arithmetic error where an
    /// intermediate value leaves the `u128` range.
    pub fn vested_amount(&self, block_time: u64) -> (r: Result<u128, Error>)
        requires
            time_wf(*self),
        ensures
            r == vested_result(*self, block_time),
    {
        match self {
            VestingSchedule::LinearVesting { start_time, end_time, vesting_amount } => {
                if block_time <= *start_time {
                    return Ok(0);
                }
                if block_time >= *end_time {
                    return Ok(*vesting_amount);
                }
                let elapsed: u128 = (block_time - *start_time) as u128;
                let span: u128 = (*end_time - *start_time) as u128;
                match vesting_amount.checked_mul(elapsed) {
                    None => Err(Error::Overflow),
                    Some(product) => Ok(product / span),
                }
            },
            VestingSchedule::PeriodicVesting { start_time, end_time, vesting_interval, amount } => {
                if block_time < *start_time {
                    return Ok(0);
                }
                let reached: u64 = if block_time >= *end_time {
                    *end_time
                } else {
                    block_time
                };
                let passed: u128 = ((reached - *start_time) / *vesting_interval) as u128 + 1;
                match amount.checked_mul(passed) {
                    None => Err(Error::Overflow),
                    Some(product) => Ok(product),
                }
            },
            VestingSchedule::CliffVesting { schedules } => {
                let mut total: u128 = 0;
                let mut i: usize = 0;
                proof {
                    assert(schedules@.skip(0) =~= schedules@);
                }
                while i < schedules.len()
                    invariant
                        0 <= i <= schedules@.len(),
                        *self == (VestingSchedule::CliffVesting { schedules: *schedules }),
                        cliff_vested(schedules@, block_time) == total + cliff_vested(
                            schedules@.skip(i as int),
                            block_time,
                        ),
                    decreases schedules@.len() - i,
                {
                    proof {
                        assert(schedules@.skip(i as int)[0] == schedules@[i as int]);
                        assert(schedules@.skip(i as int).drop_first() =~= schedules@.skip(
                            i as int + 1,
                        ));
                    }
                    let s = schedules[i];
                    if s.release_time <= block_time {
                        match total.checked_add(s.release_amount) {
                            None => {
                                proof {
                                    lemma_cliff_vested_bounds(
                                        schedules@.skip(i as int).drop_first(),
                                        block_time,
                                    );
                                }
                                return Err(Error::Overflow);
                            },
                            Some(t2) => {
                                total = t2;
                            },
                        }
                    }
                    i = i + 1;
                }
                proof {
                    assert(schedules@.skip(schedules@.len() as int)
                        =~= Seq::<CliffSchedule>::empty());
                }
                Ok(total)
            },
        }
    }
}

/// The vested part of a cliff schedule is never negative and never more
/// than the sum of all its releases.
pub proof fn lemma_cliff_vested_bounds(schedules: Seq<CliffSchedule>, t: u64)
    ensures
        0 <= cliff_vested(schedules, t) <= cliff_total(schedules),
    decreases schedules.len(),
{
    if schedules.len() != 0 {
        lemma_cliff_vested_bounds(schedules.drop_first(), t);
    }
}

/// What a cliff schedule has vested only grows with time.
pub proof fn lemma_cliff_vested_monotonic(schedules: Seq<CliffSchedule>, t1: u64, t2: u64)
    requires
        t1 <= t2,
    ensures
        cliff_vested(schedules, t1) <= cliff_vested(schedules, t2),
    decreases schedules.len(),
{
    if schedules.len() != 0 {
        lemma_cliff_vested_monotonic(schedules.drop_first(), t1, t2);
    }
}

/// The vested amount of a well-timed schedule is never negative and never
/// exceeds the schedule's own total.
pub proof fn lemma_vested_bounds(s: VestingSchedule, t: u64)
    requires
        time_wf(s),
    ensures
        0 <= vested_math(s, t) <= schedule_total(s),
{
    match s {
        VestingSchedule::LinearVesting { start_time, end_time, vesting_amount } => {
            if start_time < t < end_time {
                let span = end_time - start_time;
                let elapsed = t - start_time;
                vstd::arithmetic::mul::lemma_mul_nonnegative(vesting_amount as int, elapsed as int);
                vstd::arithmetic::div_mod::lemma_div_pos_is_pos(
                    vesting_amount * elapsed,
                    span as int,
                );
                vstd::arithmetic::mul::lemma_mul_inequality(
                    elapsed as int,
                    span as int,
                    vesting_amount as int,
                );
                vstd::arithmetic::div_mod::lemma_div_is_ordered(
                    vesting_amount * elapsed,
                    vesting_amount * span,
                    span as int,
                );
                vstd::arithmetic::div_mod::lemma_div_multiples_vanish(
                    vesting_amount as int,
                    span as int,
                );
            }
        },
        VestingSchedule::PeriodicVesting { start_time, end_time, vesting_interval, amount } => {
            let iv = vesting_interval as int;
            let num = 1 + (end_time - start_time) / iv;
            vstd::arithmetic::div_mod::lemma_div_pos_is_pos(end_time - start_time, iv);
            vstd::arithmetic::mul::lemma_mul_nonnegative(amount as int, num);
            if t >= start_time && t < end_time {
                vstd::arithmetic::div_mod::lemma_div_pos_is_pos(t - start_time, iv);
                vstd::arithmetic::div_mod::lemma_div_is_ordered(
                    t - start_time,
                    end_time - start_time,
                    iv,
                );
                let passed = 1 + (t - start_time) / iv;
                vstd::arithmetic::mul::lemma_mul_nonnegative(amount as int, passed);
                vstd::arithmetic::mul::lemma_mul_inequality(passed, num, amount as int);
            }
        },
        VestingSchedule::CliffVesting { schedules } => {
            lemma_cliff_vested_bounds(schedules@, t);
        },
    }
}

/// The vested amount of a well-timed schedule is monotonic non-decreasing
/// in time, for every schedule kind.
pub proof fn lemma_vested_amount_monotonic(s: VestingSchedule, t1: u64, t2: u64)
    requires
        time_wf(s),
        t1 <= t2,
    ensures
        vested_math(s, t1) <= vested_math(s, t2),
{
    match s {
        VestingSchedule::LinearVesting { start_time, end_time, vesting_amount } => {
            if t1 <= start_time || t1 >= end_time {
                lemma_vested_bounds(s, t1);
                lemma_vested_bounds(s, t2);
            } else if t2 < end_time {
                let span = end_time - start_time;
                vstd::arithmetic::mul::lemma_mul_inequality(
                    t1 - start_time,
                    t2 - start_time,
                    vesting_amount as int,
                );
                vstd::arithmetic::div_mod::lemma_div_is_ordered(
                    vesting_amount * (t1 - start_time),
                    vesting_amount * (t2 - start_time),
                    span as int,
                );
            } else {
                lemma_vested_bounds(s, t1);
            }
        },
        VestingSchedule::PeriodicVesting { start_time, end_time, vesting_interval, amount } => {
            if t1 < start_time {
                lemma_vested_bounds(s, t2);
            } else {
                let iv = vesting_interval as int;
                let reached1 = if t1 >= end_time {
                    end_time
                } else {
                    t1
                };
                let reached2 = if t2 >= end_time {
                    end_time
                } else {
                    t2
                };
                vstd::arithmetic::div_mod::lemma_div_is_ordered(
                    reached1 - start_time,
                    reached2 - start_time,
                    iv,
                );
                vstd::arithmetic::mul::lemma_mul_inequality(
                    1 + (reached1 - start_time) / iv,
                    1 + (reached2 - start_time) / iv,
                    amount as int,
                );
            }
        },
        VestingSchedule::CliffVesting { schedules } => {
            lemma_cliff_vested_monotonic(schedules@, t1, t2);
        },
    }
}

/// A schedule that validates against any deposit is well-timed, its own
/// total equals that deposit, and the deposit is positive.
pub proof fn lemma_validate_ok(s: VestingSchedule, block_time: u64, deposit_amount: u128)
    requires
        validate_result(s, block_time, deposit_amount) is Ok,
    ensures
        time_wf(s),
        schedule_total(s) == deposit_amount as int,
        deposit_amount > 0,
{
    match s {
        VestingSchedule::LinearVesting { .. } => {},
        VestingSchedule::PeriodicVesting { .. } => {},
        VestingSchedule::CliffVesting { schedules } => {
            lemma_cliff_scan_ok(schedules@, block_time, 0);
        },
    }
}

/// A successful validation scan returns the accumulator plus the sum of
/// all release amounts.
pub proof fn lemma_cliff_scan_ok(schedules: Seq<CliffSchedule>, block_time: u64, acc: int)
    requires
        cliff_scan(schedules, block_time, acc) is Ok,
    ensures
        cliff_scan(schedules, block_time, acc) == Ok::<int, Error>(acc + cliff_total(schedules)),
    decreases schedules.len(),
{
    if schedules.len() != 0 {
        lemma_cliff_scan_ok(schedules.drop_first(), block_time, acc + schedules[0].release_amount);
    }
}

/// Every schedule kind rejects a zero deposit.
pub proof fn lemma_validate_rejects_zero_deposit(s: VestingSchedule, block_time: u64)
    ensures
        validate_result(s, block_time, 0) == Err::<(), Error>(
            Error::InvalidSchedule(ScheduleViolation::ZeroDeposit),
        ),
{
}

} // verus!
