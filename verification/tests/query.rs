use token_vesting::contract::{instantiate, register_vesting_account, vesting_account};
use token_vesting::denom::{denom_to_key, Denom};
use token_vesting::msg::{InstantiateMsg, VestingSchedule};
use token_vesting::state::VestingState;

fn master() -> String {
    "master".to_string()
}

fn setup() -> VestingState {
    instantiate(
        InstantiateMsg {
            master_address: Some(master()),
        },
        "deployer".to_string(),
    )
}

fn linear(start_time: u64, end_time: u64, vesting_amount: u128) -> VestingSchedule {
    VestingSchedule::LinearVesting {
        start_time,
        end_time,
        vesting_amount,
    }
}

fn register_linear(state: &mut VestingState, beneficiary: &str, denom: Denom, total: u128) {
    register_vesting_account(
        state,
        100,
        &master(),
        beneficiary.to_string(),
        denom,
        total,
        linear(100, 110, total),
    )
    .unwrap();
}

#[test]
fn denom_keys_of_the_two_kinds_never_collide() {
    let native_key = denom_to_key(&Denom::Native("same".to_string()));
    let token_key = denom_to_key(&Denom::Cw20("same".to_string()));
    assert_ne!(native_key, token_key);
}

#[test]
fn listing_returns_entries_in_ascending_key_order() {
    let mut state = setup();
    // token-contract keys sort before native keys under the tagged order
    register_linear(&mut state, "alice", Denom::Native("zinc".to_string()), 100);
    register_linear(&mut state, "alice", Denom::Native("coal".to_string()), 200);
    register_linear(&mut state, "alice", Denom::Cw20("ruby".to_string()), 300);
    // another beneficiary never shows up in alice's listing
    register_linear(&mut state, "bob", Denom::Native("coal".to_string()), 999);

    let resp = vesting_account(&state, 105, "alice".to_string(), None, None).unwrap();
    assert_eq!(resp.address, "alice".to_string());
    assert_eq!(resp.vestings.len(), 3);
    assert_eq!(resp.vestings[0].vesting_denom, Denom::Cw20("ruby".to_string()));
    assert_eq!(resp.vestings[1].vesting_denom, Denom::Native("coal".to_string()));
    assert_eq!(resp.vestings[2].vesting_denom, Denom::Native("zinc".to_string()));
    // each entry carries total, vested and claimable at query time
    assert_eq!(resp.vestings[1].vesting_amount, 200);
    assert_eq!(resp.vestings[1].vested_amount, 100);
    assert_eq!(resp.vestings[1].claimable_amount, 100);
}

#[test]
fn listing_starts_strictly_after_the_given_asset() {
    let mut state = setup();
    register_linear(&mut state, "alice", Denom::Native("coal".to_string()), 100);
    register_linear(&mut state, "alice", Denom::Native("iron".to_string()), 200);
    register_linear(&mut state, "alice", Denom::Native("zinc".to_string()), 300);

    let resp = vesting_account(
        &state,
        105,
        "alice".to_string(),
        Some(Denom::Native("iron".to_string())),
        None,
    )
    .unwrap();
    assert_eq!(resp.vestings.len(), 1);
    assert_eq!(resp.vestings[0].vesting_denom, Denom::Native("zinc".to_string()));
}

#[test]
fn listing_respects_the_limit() {
    let mut state = setup();
    register_linear(&mut state, "alice", Denom::Native("coal".to_string()), 100);
    register_linear(&mut state, "alice", Denom::Native("iron".to_string()), 200);
    register_linear(&mut state, "alice", Denom::Native("zinc".to_string()), 300);

    let resp = vesting_account(&state, 105, "alice".to_string(), None, Some(2)).unwrap();
    assert_eq!(resp.vestings.len(), 2);
    assert_eq!(resp.vestings[0].vesting_denom, Denom::Native("coal".to_string()));
    assert_eq!(resp.vestings[1].vesting_denom, Denom::Native("iron".to_string()));
}

#[test]
fn listing_limit_defaults_to_ten_and_caps_at_thirty() {
    let mut state = setup();
    for i in 0..35u32 {
        let name = format!("coin{:02}", i);
        register_linear(&mut state, "alice", Denom::Native(name), 100);
    }
    let resp = vesting_account(&state, 105, "alice".to_string(), None, None).unwrap();
    assert_eq!(resp.vestings.len(), 10);

    let resp = vesting_account(&state, 105, "alice".to_string(), None, Some(50)).unwrap();
    assert_eq!(resp.vestings.len(), 30);
    for (i, data) in resp.vestings.iter().enumerate() {
        let name = format!("coin{:02}", i);
        assert_eq!(data.vesting_denom, Denom::Native(name));
    }
}

#[test]
fn listing_does_not_mutate_the_accounts() {
    let mut state = setup();
    register_linear(&mut state, "alice", Denom::Native("coal".to_string()), 100);
    // even a fully-vested, fully-claimable account stays untouched
    let _ = vesting_account(&state, 200, "alice".to_string(), None, None).unwrap();
    let account = state
        .get_account(&"alice".to_string(), &Denom::Native("coal".to_string()))
        .unwrap();
    assert_eq!(account.claimed_amount, 0);
    assert!(state.has_account(&"alice".to_string(), &Denom::Native("coal".to_string())));
}

#[test]
fn listing_carries_the_schedule_over() {
    let mut state = setup();
    register_linear(&mut state, "alice", Denom::Native("coal".to_string()), 100);
    let resp = vesting_account(&state, 100, "alice".to_string(), None, None).unwrap();
    assert_eq!(resp.vestings[0].vesting_schedule, linear(100, 110, 100));
}
