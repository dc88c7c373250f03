use token_vesting::error::{Error, ScheduleViolation};
use token_vesting::msg::{CliffSchedule, VestingSchedule};

fn linear(start_time: u64, end_time: u64, vesting_amount: u128) -> VestingSchedule {
    VestingSchedule::LinearVesting {
        start_time,
        end_time,
        vesting_amount,
    }
}

fn periodic(start_time: u64, end_time: u64, vesting_interval: u64, amount: u128) -> VestingSchedule {
    VestingSchedule::PeriodicVesting {
        start_time,
        end_time,
        vesting_interval,
        amount,
    }
}

fn cliff(releases: &[(u64, u128)]) -> VestingSchedule {
    VestingSchedule::CliffVesting {
        schedules: releases
            .iter()
            .map(|&(release_time, release_amount)| CliffSchedule {
                release_time,
                release_amount,
            })
            .collect(),
    }
}

#[test]
fn linear_vesting_vested_amount() {
    let schedule = linear(100, 110, 1000000u128);

    assert_eq!(schedule.vested_amount(100).unwrap(), 0u128);
    assert_eq!(schedule.vested_amount(105).unwrap(), 500000u128);
    assert_eq!(schedule.vested_amount(110).unwrap(), 1000000u128);
    assert_eq!(schedule.vested_amount(115).unwrap(), 1000000u128);
}

#[test]
fn periodic_vesting_vested_amount() {
    let schedule = periodic(105, 110, 5, 500000u128);

    assert_eq!(schedule.vested_amount(100).unwrap(), 0u128);
    assert_eq!(schedule.vested_amount(105).unwrap(), 500000u128);
    assert_eq!(schedule.vested_amount(110).unwrap(), 1000000u128);
    assert_eq!(schedule.vested_amount(115).unwrap(), 1000000u128);
}

#[test]
fn cliff_vesting_vested_amount() {
    let schedule = cliff(&[(105, 500000u128), (110, 500000u128)]);

    assert_eq!(schedule.vested_amount(100).unwrap(), 0u128);
    assert_eq!(schedule.vested_amount(105).unwrap(), 500000u128);
    assert_eq!(schedule.vested_amount(110).unwrap(), 1000000u128);
    assert_eq!(schedule.vested_amount(115).unwrap(), 1000000u128);
}

#[test]
fn linear_vesting_truncates_between_boundaries() {
    let schedule = linear(100, 103, 10u128);
    assert_eq!(schedule.vested_amount(101).unwrap(), 3u128);
    assert_eq!(schedule.vested_amount(102).unwrap(), 6u128);
    assert_eq!(schedule.vested_amount(103).unwrap(), 10u128);
}

#[test]
fn linear_vesting_overflow_mid_ramp() {
    let schedule = linear(0, 10, u128::MAX);
    assert_eq!(schedule.vested_amount(5), Err(Error::Overflow));
    // the boundaries still compute exactly
    assert_eq!(schedule.vested_amount(0).unwrap(), 0u128);
    assert_eq!(schedule.vested_amount(10).unwrap(), u128::MAX);
}

#[test]
fn validate_rejects_zero_deposit_every_kind() {
    let zero_deposit = Err(Error::InvalidSchedule(ScheduleViolation::ZeroDeposit));
    assert_eq!(linear(100, 110, 1000u128).validate(100, 0), zero_deposit);
    assert_eq!(periodic(100, 110, 5, 1000u128).validate(100, 0), zero_deposit);
    assert_eq!(cliff(&[(105, 1000u128)]).validate(100, 0), zero_deposit);
}

#[test]
fn validate_linear_conditions() {
    assert_eq!(
        linear(100, 110, 0).validate(100, 1000),
        Err(Error::InvalidSchedule(ScheduleViolation::ZeroVestingAmount))
    );
    assert_eq!(
        linear(99, 110, 1000).validate(100, 1000),
        Err(Error::InvalidSchedule(ScheduleViolation::StartBeforeNow))
    );
    assert_eq!(
        linear(110, 100, 1000).validate(100, 1000),
        Err(Error::InvalidSchedule(ScheduleViolation::EndBeforeStart))
    );
    assert_eq!(
        linear(100, 110, 999).validate(100, 1000),
        Err(Error::InvalidSchedule(ScheduleViolation::DepositMismatch))
    );
    assert_eq!(linear(100, 110, 1000).validate(100, 1000), Ok(()));
}

#[test]
fn validate_periodic_conditions() {
    assert_eq!(
        periodic(100, 110, 5, 0).validate(100, 1000),
        Err(Error::InvalidSchedule(ScheduleViolation::ZeroVestingAmount))
    );
    assert_eq!(
        periodic(99, 110, 5, 100).validate(100, 300),
        Err(Error::InvalidSchedule(ScheduleViolation::StartBeforeNow))
    );
    assert_eq!(
        periodic(110, 100, 5, 100).validate(100, 300),
        Err(Error::InvalidSchedule(ScheduleViolation::EndBeforeStart))
    );
    assert_eq!(
        periodic(100, 110, 0, 100).validate(100, 300),
        Err(Error::InvalidSchedule(ScheduleViolation::ZeroInterval))
    );
    assert_eq!(
        periodic(100, 110, 3, 100).validate(100, 300),
        Err(Error::InvalidSchedule(ScheduleViolation::SpanNotMultipleOfInterval))
    );
    // 3 intervals of 100 each, deposit must be exactly 300
    assert_eq!(
        periodic(100, 110, 5, 100).validate(100, 299),
        Err(Error::InvalidSchedule(ScheduleViolation::DepositMismatch))
    );
    assert_eq!(periodic(100, 110, 5, 100).validate(100, 300), Ok(()));
    // the schedule's own total leaves the amount range
    assert_eq!(
        periodic(0, 1, 1, u128::MAX).validate(0, 1),
        Err(Error::Overflow)
    );
}

#[test]
fn validate_cliff_conditions() {
    assert_eq!(
        cliff(&[]).validate(100, 1000),
        Err(Error::InvalidSchedule(ScheduleViolation::EmptyReleases))
    );
    assert_eq!(
        cliff(&[(105, 0)]).validate(100, 1000),
        Err(Error::InvalidSchedule(ScheduleViolation::ZeroReleaseAmount))
    );
    assert_eq!(
        cliff(&[(99, 1000)]).validate(100, 1000),
        Err(Error::InvalidSchedule(ScheduleViolation::ReleaseBeforeNow))
    );
    assert_eq!(
        cliff(&[(105, 400), (110, 500)]).validate(100, 1000),
        Err(Error::InvalidSchedule(ScheduleViolation::DepositMismatch))
    );
    assert_eq!(cliff(&[(105, 400), (110, 600)]).validate(100, 1000), Ok(()));
    // summing the releases leaves the amount range
    assert_eq!(
        cliff(&[(105, u128::MAX), (110, 1)]).validate(100, 1000),
        Err(Error::Overflow)
    );
}

#[test]
fn cliff_vesting_ignores_release_order() {
    let schedule = cliff(&[(110, 300u128), (105, 200u128)]);
    assert_eq!(schedule.vested_amount(104).unwrap(), 0u128);
    assert_eq!(schedule.vested_amount(105).unwrap(), 200u128);
    assert_eq!(schedule.vested_amount(110).unwrap(), 500u128);
}

#[test]
fn periodic_vesting_caps_after_end() {
    let schedule = periodic(10, 40, 10, 25u128);
    assert_eq!(schedule.vested_amount(9).unwrap(), 0u128);
    assert_eq!(schedule.vested_amount(10).unwrap(), 25u128);
    assert_eq!(schedule.vested_amount(19).unwrap(), 25u128);
    assert_eq!(schedule.vested_amount(20).unwrap(), 50u128);
    assert_eq!(schedule.vested_amount(40).unwrap(), 100u128);
    assert_eq!(schedule.vested_amount(1000).unwrap(), 100u128);
}
