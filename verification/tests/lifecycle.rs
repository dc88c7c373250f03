use token_vesting::contract::{
    claim, claim_one, deregister_vesting_account, instantiate, master_address,
    register_vesting_account, update_master_address, TransferInstruction,
};
use token_vesting::denom::Denom;
use token_vesting::error::{Error, ScheduleViolation};
use token_vesting::msg::{InstantiateMsg, VestingSchedule};
use token_vesting::state::VestingState;

fn master() -> String {
    "master".to_string()
}

fn setup() -> VestingState {
    instantiate(
        InstantiateMsg {
            master_address: Some(master()),
        },
        "deployer".to_string(),
    )
}

fn linear(start_time: u64, end_time: u64, vesting_amount: u128) -> VestingSchedule {
    VestingSchedule::LinearVesting {
        start_time,
        end_time,
        vesting_amount,
    }
}

fn native(s: &str) -> Denom {
    Denom::Native(s.to_string())
}

fn register_linear(state: &mut VestingState, beneficiary: &str, denom: Denom, total: u128) {
    register_vesting_account(
        state,
        100,
        &master(),
        beneficiary.to_string(),
        denom,
        total,
        linear(100, 110, total),
    )
    .unwrap();
}

#[test]
fn instantiate_uses_sender_when_no_master_given() {
    let state = instantiate(
        InstantiateMsg {
            master_address: None,
        },
        "deployer".to_string(),
    );
    assert_eq!(master_address(&state).master_address, "deployer".to_string());
}

#[test]
fn register_then_register_again_fails_with_already_exists() {
    let mut state = setup();
    register_linear(&mut state, "alice", native("token"), 1000000);
    let r = register_vesting_account(
        &mut state,
        100,
        &master(),
        "alice".to_string(),
        native("token"),
        1000000,
        linear(100, 110, 1000000),
    );
    assert_eq!(r, Err(Error::AlreadyExists));
    // no state change: the account is still there, untouched
    let account = state
        .get_account(&"alice".to_string(), &native("token"))
        .unwrap();
    assert_eq!(account.claimed_amount, 0);
    assert_eq!(account.vesting_amount, 1000000);
}

#[test]
fn register_requires_master() {
    let mut state = setup();
    let r = register_vesting_account(
        &mut state,
        100,
        &"intruder".to_string(),
        "alice".to_string(),
        native("token"),
        1000000,
        linear(100, 110, 1000000),
    );
    assert_eq!(r, Err(Error::Unauthorized));
    assert!(!state.has_account(&"alice".to_string(), &native("token")));
}

#[test]
fn register_validates_schedule() {
    let mut state = setup();
    let r = register_vesting_account(
        &mut state,
        100,
        &master(),
        "alice".to_string(),
        native("token"),
        999,
        linear(100, 110, 1000),
    );
    assert_eq!(
        r,
        Err(Error::InvalidSchedule(ScheduleViolation::DepositMismatch))
    );
}

#[test]
fn claim_unknown_asset_fails_with_not_found() {
    let mut state = setup();
    let r = claim(
        &mut state,
        105,
        &"alice".to_string(),
        vec![native("token")],
        None,
    );
    assert_eq!(r, Err(Error::NotFound));
}

#[test]
fn claim_nothing_claimable_is_a_no_op() {
    let mut state = setup();
    register_linear(&mut state, "alice", native("token"), 1000000);
    // at the start time nothing is vested yet
    let r = claim(
        &mut state,
        100,
        &"alice".to_string(),
        vec![native("token")],
        None,
    )
    .unwrap();
    assert_eq!(r, Vec::<TransferInstruction>::new());
    let account = state
        .get_account(&"alice".to_string(), &native("token"))
        .unwrap();
    assert_eq!(account.claimed_amount, 0);
}

#[test]
fn claim_partial_then_final_deletes_account() {
    let mut state = setup();
    register_linear(&mut state, "alice", native("token"), 1000000);
    let alice = "alice".to_string();

    let r = claim(&mut state, 105, &alice, vec![native("token")], None).unwrap();
    assert_eq!(
        r,
        vec![TransferInstruction {
            denom: native("token"),
            amount: 500000,
            recipient: alice.clone(),
        }]
    );
    let account = state.get_account(&alice, &native("token")).unwrap();
    assert_eq!(account.claimed_amount, 500000);
    assert_eq!(account.vesting_amount, 1000000);

    // claiming the final remainder removes the account
    let r = claim(&mut state, 110, &alice, vec![native("token")], None).unwrap();
    assert_eq!(
        r,
        vec![TransferInstruction {
            denom: native("token"),
            amount: 500000,
            recipient: alice.clone(),
        }]
    );
    assert!(!state.has_account(&alice, &native("token")));
}

#[test]
fn claim_goes_to_explicit_recipient() {
    let mut state = setup();
    register_linear(&mut state, "alice", native("token"), 1000000);
    let r = claim(
        &mut state,
        110,
        &"alice".to_string(),
        vec![native("token")],
        Some("vault".to_string()),
    )
    .unwrap();
    assert_eq!(r.len(), 1);
    assert_eq!(r[0].recipient, "vault".to_string());
    assert_eq!(r[0].amount, 1000000);
}

#[test]
fn claim_one_reports_each_outcome() {
    let mut state = setup();
    register_linear(&mut state, "alice", native("token"), 1000000);
    let alice = "alice".to_string();

    assert_eq!(
        claim_one(&mut state, 105, &alice, &native("other"), &alice),
        Err(Error::NotFound)
    );
    assert_eq!(claim_one(&mut state, 100, &alice, &native("token"), &alice), Ok(None));
    let r = claim_one(&mut state, 105, &alice, &native("token"), &alice).unwrap();
    assert_eq!(
        r,
        Some(TransferInstruction {
            denom: native("token"),
            amount: 500000,
            recipient: alice.clone(),
        })
    );
}

#[test]
fn claim_after_time_went_backwards_fails_with_underflow() {
    let mut state = setup();
    register_linear(&mut state, "alice", native("token"), 1000000);
    let alice = "alice".to_string();
    claim(&mut state, 105, &alice, vec![native("token")], None).unwrap();
    // at an earlier time less is vested than was already claimed
    let r = claim(&mut state, 103, &alice, vec![native("token")], None);
    assert_eq!(r, Err(Error::Underflow));
}

#[test]
fn claim_several_assets_in_order() {
    let mut state = setup();
    register_linear(&mut state, "alice", native("gold"), 1000000);
    register_linear(&mut state, "alice", native("iron"), 2000000);
    let alice = "alice".to_string();
    let r = claim(
        &mut state,
        110,
        &alice,
        vec![native("iron"), native("gold")],
        None,
    )
    .unwrap();
    assert_eq!(r.len(), 2);
    assert_eq!(r[0].denom, native("iron"));
    assert_eq!(r[0].amount, 2000000);
    assert_eq!(r[1].denom, native("gold"));
    assert_eq!(r[1].amount, 1000000);
}

#[test]
fn claim_token_contract_asset() {
    let mut state = setup();
    let token = Denom::Cw20("contract7".to_string());
    register_linear(&mut state, "alice", token.clone(), 1000000);
    let alice = "alice".to_string();
    // the native denomination spelling the same never matches
    assert_eq!(
        claim(&mut state, 110, &alice, vec![native("contract7")], None),
        Err(Error::NotFound)
    );
    let r = claim(&mut state, 110, &alice, vec![token.clone()], None).unwrap();
    assert_eq!(
        r,
        vec![TransferInstruction {
            denom: token,
            amount: 1000000,
            recipient: alice,
        }]
    );
}

#[test]
fn deregister_splits_vested_and_unvested() {
    let mut state = setup();
    register_linear(&mut state, "alice", native("token"), 1000000);
    let r = deregister_vesting_account(
        &mut state,
        105,
        &master(),
        "alice".to_string(),
        native("token"),
        None,
        None,
    )
    .unwrap();
    assert_eq!(
        r,
        vec![
            TransferInstruction {
                denom: native("token"),
                amount: 500000,
                recipient: "alice".to_string(),
            },
            TransferInstruction {
                denom: native("token"),
                amount: 500000,
                recipient: master(),
            },
        ]
    );
    // the two instructions together move exactly total minus claimed
    assert_eq!(r[0].amount + r[1].amount, 1000000);
    assert!(!state.has_account(&"alice".to_string(), &native("token")));
}

#[test]
fn deregister_skips_zero_amounts() {
    let mut state = setup();
    register_linear(&mut state, "alice", native("token"), 1000000);
    // nothing vested yet: only the unvested remainder moves
    let r = deregister_vesting_account(
        &mut state,
        100,
        &master(),
        "alice".to_string(),
        native("token"),
        None,
        None,
    )
    .unwrap();
    assert_eq!(
        r,
        vec![TransferInstruction {
            denom: native("token"),
            amount: 1000000,
            recipient: master(),
        }]
    );
    assert!(!state.has_account(&"alice".to_string(), &native("token")));

    // fully vested: only the claimable part moves
    register_linear(&mut state, "bob", native("token"), 1000000);
    let r = deregister_vesting_account(
        &mut state,
        110,
        &master(),
        "bob".to_string(),
        native("token"),
        None,
        None,
    )
    .unwrap();
    assert_eq!(
        r,
        vec![TransferInstruction {
            denom: native("token"),
            amount: 1000000,
            recipient: "bob".to_string(),
        }]
    );
}

#[test]
fn deregister_honours_explicit_recipients() {
    let mut state = setup();
    register_linear(&mut state, "alice", native("token"), 1000000);
    let r = deregister_vesting_account(
        &mut state,
        105,
        &master(),
        "alice".to_string(),
        native("token"),
        Some("vested-pool".to_string()),
        Some("treasury".to_string()),
    )
    .unwrap();
    assert_eq!(r[0].recipient, "vested-pool".to_string());
    assert_eq!(r[1].recipient, "treasury".to_string());
}

#[test]
fn deregister_unknown_pair_fails_with_not_found() {
    let mut state = setup();
    let r = deregister_vesting_account(
        &mut state,
        100,
        &master(),
        "alice".to_string(),
        native("token"),
        None,
        None,
    );
    assert_eq!(r, Err(Error::NotFound));
}

#[test]
fn deregister_requires_master() {
    let mut state = setup();
    register_linear(&mut state, "alice", native("token"), 1000000);
    let r = deregister_vesting_account(
        &mut state,
        100,
        &"alice".to_string(),
        "alice".to_string(),
        native("token"),
        None,
        None,
    );
    assert_eq!(r, Err(Error::Unauthorized));
    assert!(state.has_account(&"alice".to_string(), &native("token")));
}

#[test]
fn update_master_address_hands_over_the_role() {
    let mut state = setup();
    assert_eq!(
        update_master_address(&mut state, &"intruder".to_string(), "intruder".to_string()),
        Err(Error::Unauthorized)
    );
    assert_eq!(master_address(&state).master_address, master());

    update_master_address(&mut state, &master(), "successor".to_string()).unwrap();
    assert_eq!(master_address(&state).master_address, "successor".to_string());

    // the old master has lost the role
    assert_eq!(
        update_master_address(&mut state, &master(), "master".to_string()),
        Err(Error::Unauthorized)
    );
}
