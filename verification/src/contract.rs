//! The account lifecycle: initialization, master-address changes,
//! register, deregister and claim, and the read-only queries.
//!
//! Mutating operations check authorization against the stored master
//! address, read and write the account store, and return transfer
//! instructions; executing those instructions is the caller's business.

use vstd::prelude::*;

use crate::denom::{denom_compare, denom_key, Denom};
use crate::error::Error;
use crate::msg::{
    sched_eq, validate_result, vested_result, lemma_validate_ok, lemma_vested_bounds,
    InstantiateMsg, MasterAddressResponse, VestingAccountResponse, VestingData, VestingSchedule,
};
use crate::order::{lemma_seq_char_lt_asymmetric, seq_char_lt};
use crate::state::{
    account_key, account_wf, key_lt, lemma_filter_sorted, lemma_map_value_wf, VestingAccount,
    VestingState,
};

verus! {

/// An instruction to move `amount` of `denom` to `recipient`, to be
/// executed by the caller's transfer service.
#[derive(Debug, PartialEq)]
pub struct TransferInstruction {
    pub denom: Denom,
    pub amount: u128,
    pub recipient: String,
}

/// Sets up an empty ledger. The master is the given address, or the
/// caller when none is given.
pub fn instantiate(msg: InstantiateMsg, sender: String) -> (r: VestingState)
    ensures
        r.wf(),
        r.accounts_map() == Map::<(Seq<char>, Seq<char>), VestingAccount>::empty(),
        r.entries() == Seq::<VestingAccount>::empty(),
        r.master_address == (match msg.master_address {
            Some(m) => m,
            None => sender,
        }),
{
    let master_address = match msg.master_address {
        Some(m) => m,
        None => sender,
    };
    let state = VestingState { master_address, accounts: Vec::new() };
    proof {
        assert(state.accounts_map() =~= Map::<(Seq<char>, Seq<char>), VestingAccount>::empty());
    }
    state
}

/// Checks that `sender` is the stored master.
pub fn only_master(state: &VestingState, sender: &String) -> (r: Result<(), Error>)
    ensures
        r is Ok <==> sender@ == state.master_address@,
        r is Err ==> r == Err::<(), Error>(Error::Unauthorized),
{
    if state.master_address.eq(sender) {
        Ok(())
    } else {
        Err(Error::Unauthorized)
    }
}

/// Hands the master role to `master_address`; only the current master may
/// do so. On failure nothing changes.
pub fn update_master_address(
    state: &mut VestingState,
    sender: &String,
    master_address: String,
) -> (r: Result<(), Error>)
    requires
        old(state).wf(),
    ensures
        final(state).wf(),
        sender@ == old(state).master_address@ ==> r is Ok && final(state).master_address
            == master_address && final(state).accounts == old(state).accounts,
        sender@ != old(state).master_address@ ==> r == Err::<(), Error>(Error::Unauthorized)
            && *final(state) == *old(state),
{
    match only_master(state, sender) {
        Err(e) => Err(e),
        Ok(()) => {
            state.master_address = master_address;
            Ok(())
        },
    }
}

/// What registration returns: the first failed check, in checking order,
/// or success.
pub open spec fn register_result(
    st: VestingState,
    block_time: u64,
    sender: Seq<char>,
    k: (Seq<char>, Seq<char>),
    schedule: VestingSchedule,
    deposit_amount: u128,
) -> Result<(), Error> {
    if sender != st.master_address@ {
        Err(Error::Unauthorized)
    } else if st.accounts_map().dom().contains(k) {
        Err(Error::AlreadyExists)
    } else {
        validate_result(schedule, block_time, deposit_amount)
    }
}

/// Registers a vesting account for `(recipient, deposit_denom)`: only the
/// master may register, a pair may only be registered once, and the
/// schedule must validate against the deposit. On success the account is
/// stored with nothing claimed; on failure nothing changes.
pub fn register_vesting_account(
    state: &mut VestingState,
    block_time: u64,
    sender: &String,
    recipient: String,
    deposit_denom: Denom,
    deposit_amount: u128,
    vesting_schedule: VestingSchedule,
) -> (r: Result<(), Error>)
    requires
        old(state).wf(),
    ensures
        final(state).wf(),
        final(state).master_address == old(state).master_address,
        r == register_result(
            *old(state),
            block_time,
            sender@,
            (recipient@, denom_key(deposit_denom)),
            vesting_schedule,
            deposit_amount,
        ),
        r is Ok ==> final(state).accounts_map() == old(state).accounts_map().insert(
            (recipient@, denom_key(deposit_denom)),
            VestingAccount {
                address: recipient,
                vesting_denom: deposit_denom,
                vesting_amount: deposit_amount,
                vesting_schedule: vesting_schedule,
                claimed_amount: 0,
            },
        ),
        r is Err ==> *final(state) == *old(state),
{
    match only_master(state, sender) {
        Err(e) => {
            return Err(e);
        },
        Ok(()) => {},
    }
    if state.has_account(&recipient, &deposit_denom) {
        return Err(Error::AlreadyExists);
    }
    match vesting_schedule.validate(block_time, deposit_amount) {
        Err(e) => Err(e),
        Ok(()) => {
            proof {
                lemma_validate_ok(vesting_schedule, block_time, deposit_amount);
            }
            let account = VestingAccount {
                address: recipient,
                vesting_denom: deposit_denom,
                vesting_amount: deposit_amount,
                vesting_schedule: vesting_schedule,
                claimed_amount: 0,
            };
            state.put_account(account);
            Ok(())
        },
    }
}

/// Deregisters the account for `(address, denom)` early: only the master
/// may do so, and the pair must be registered. The account is removed;
/// what is vested but unclaimed goes to `vested_token_recipient` (default:
/// the beneficiary), the unvested remainder to `left_vesting_token_recipient`
/// (default: the caller). A zero amount produces no instruction, so at
/// most two instructions come back, and together they move exactly the
/// account's total minus what was already claimed.
pub fn deregister_vesting_account(
    state: &mut VestingState,
    block_time: u64,
    sender: &String,
    address: String,
    denom: Denom,
    vested_token_recipient: Option<String>,
    left_vesting_token_recipient: Option<String>,
) -> (r: Result<Vec<TransferInstruction>, Error>)
    requires
        old(state).wf(),
    ensures
        final(state).wf(),
        final(state).master_address == old(state).master_address,
        sender@ != old(state).master_address@ ==> r == Err::<Vec<TransferInstruction>, Error>(
            Error::Unauthorized,
        ) && *final(state) == *old(state),
        sender@ == old(state).master_address@ && !old(state).accounts_map().dom().contains(
            (address@, denom_key(denom)),
        ) ==> r == Err::<Vec<TransferInstruction>, Error>(Error::NotFound) && *final(state)
            == *old(state),
        sender@ == old(state).master_address@ && old(state).accounts_map().dom().contains(
            (address@, denom_key(denom)),
        ) ==> ({
            let k = (address@, denom_key(denom));
            let acct = old(state).accounts_map()[k];
            &&& final(state).accounts_map() == old(state).accounts_map().remove(k)
            &&& match vested_result(acct.vesting_schedule, block_time) {
                Err(e) => r == Err::<Vec<TransferInstruction>, Error>(e),
                Ok(vested) => {
                    if acct.claimed_amount > vested {
                        r == Err::<Vec<TransferInstruction>, Error>(Error::Underflow)
                    } else {
                        let claimable = (vested - acct.claimed_amount) as u128;
                        let remainder = (acct.vesting_amount - vested) as u128;
                        &&& r is Ok
                        &&& r->Ok_0@ == (if claimable > 0 {
                            seq![
                                (TransferInstruction {
                                    denom: acct.vesting_denom,
                                    amount: claimable,
                                    recipient: (match vested_token_recipient {
                                        Some(v) => v,
                                        None => address,
                                    }),
                                }),
                            ]
                        } else {
                            Seq::<TransferInstruction>::empty()
                        }) + (if remainder > 0 {
                            seq![
                                (TransferInstruction {
                                    denom: acct.vesting_denom,
                                    amount: remainder,
                                    recipient: (match left_vesting_token_recipient {
                                        Some(v) => v,
                                        None => *sender,
                                    }),
                                }),
                            ]
                        } else {
                            Seq::<TransferInstruction>::empty()
                        })
                        &&& r->Ok_0@.len() <= 2
                        &&& claimable + remainder == acct.vesting_amount - acct.claimed_amount
                    }
                },
            }
        }),
{
    match only_master(state, sender) {
        Err(e) => {
            return Err(e);
        },
        Ok(()) => {},
    }
    let ghost k = (address@, denom_key(denom));
    let ghost address_spec = address;
    let ghost vested_recipient_spec = vested_token_recipient;
    let ghost left_recipient_spec = left_vesting_token_recipient;
    proof {
        if old(state).accounts_map().dom().contains(k) {
            lemma_map_value_wf(*old(state), k);
        }
    }
    let account = match state.remove_account(&address, &denom) {
        None => {
            return Err(Error::NotFound);
        },
        Some(a) => a,
    };
    let vested = match account.vesting_schedule.vested_amount(block_time) {
        Err(e) => {
            return Err(e);
        },
        Ok(v) => v,
    };
    let claimable = match vested.checked_sub(account.claimed_amount) {
        None => {
            return Err(Error::Underflow);
        },
        Some(c) => c,
    };
    proof {
        lemma_vested_bounds(account.vesting_schedule, block_time);
    }
    let left_vesting = account.vesting_amount - vested;
    let mut messages: Vec<TransferInstruction> = Vec::new();
    if claimable != 0 {
        let recipient = match vested_token_recipient {
            Some(v) => v,
            None => address,
        };
        messages.push(
            TransferInstruction { denom: account.vesting_denom.clone(), amount: claimable, recipient },
        );
    }
    if left_vesting != 0 {
        let recipient = match left_vesting_token_recipient {
            Some(v) => v,
            None => sender.clone(),
        };
        messages.push(
            TransferInstruction {
                denom: account.vesting_denom.clone(),
                amount: left_vesting,
                recipient,
            },
        );
    }
    proof {
        let acct = old(state).accounts_map()[k];
        let claimable_s = (vested - acct.claimed_amount) as u128;
        let remainder_s = (acct.vesting_amount - vested) as u128;
        let head = if claimable_s > 0 {
            seq![
                (TransferInstruction {
                    denom: acct.vesting_denom,
                    amount: claimable_s,
                    recipient: (match vested_recipient_spec {
                        Some(v) => v,
                        None => address_spec,
                    }),
                }),
            ]
        } else {
            Seq::<TransferInstruction>::empty()
        };
        let tail = if remainder_s > 0 {
            seq![
                (TransferInstruction {
                    denom: acct.vesting_denom,
                    amount: remainder_s,
                    recipient: (match left_recipient_spec {
                        Some(v) => v,
                        None => *sender,
                    }),
                }),
            ]
        } else {
            Seq::<TransferInstruction>::empty()
        };
        assert(messages@ =~= head + tail);
    }
    Ok(messages)
}

/// One claim step at the map level: what claiming `k` at `block_time`
/// does to the stored accounts, which instruction it emits, and on which
/// error it stops. A missing account fails with `NotFound`; nothing
/// claimable is a no-op; claiming the final remainder deletes the
/// account.
pub open spec fn claim_step(
    m: Map<(Seq<char>, Seq<char>), VestingAccount>,
    block_time: u64,
    k: (Seq<char>, Seq<char>),
    recipient: String,
) -> (Map<(Seq<char>, Seq<char>), VestingAccount>, Option<TransferInstruction>, Option<Error>) {
    if !m.dom().contains(k) {
        (m, None, Some(Error::NotFound))
    } else {
        let acct = m[k];
        match vested_result(acct.vesting_schedule, block_time) {
            Err(e) => (m, None, Some(e)),
            Ok(vested) => {
                if acct.claimed_amount > vested {
                    (m, None, Some(Error::Underflow))
                } else if vested == acct.claimed_amount {
                    (m, None, None)
                } else {
                    let claimable = (vested - acct.claimed_amount) as u128;
                    let updated = VestingAccount {
                        address: acct.address,
                        vesting_denom: acct.vesting_denom,
                        vesting_amount: acct.vesting_amount,
                        vesting_schedule: acct.vesting_schedule,
                        claimed_amount: vested,
                    };
                    let m2 = if vested == acct.vesting_amount {
                        m.remove(k)
                    } else {
                        m.insert(k, updated)
                    };
                    (
                        m2,
                        Some(
                            TransferInstruction {
                                denom: acct.vesting_denom,
                                amount: claimable,
                                recipient,
                            },
                        ),
                        None,
                    )
                }
            },
        }
    }
}

/// Claims what is vested and unclaimed for `(sender, denom)`, sending it
/// to `recipient`: exactly one `claim_step`. On an error, and on the
/// no-op step, nothing changes.
pub fn claim_one(
    state: &mut VestingState,
    block_time: u64,
    sender: &String,
    denom: &Denom,
    recipient: &String,
) -> (r: Result<Option<TransferInstruction>, Error>)
    requires
        old(state).wf(),
    ensures
        final(state).wf(),
        final(state).master_address == old(state).master_address,
        ({
            let step = claim_step(
                old(state).accounts_map(),
                block_time,
                (sender@, denom_key(*denom)),
                *recipient,
            );
            &&& final(state).accounts_map() == step.0
            &&& match r {
                Ok(o) => step.2 is None && o == step.1,
                Err(e) => step.2 == Some(e),
            }
        }),
        r is Err ==> *final(state) == *old(state),
        (r matches Ok(o) && o is None) ==> *final(state) == *old(state),
{
    let ghost k = (sender@, denom_key(*denom));
    let (vested_r, claimed) = match state.get_account(sender, denom) {
        None => {
            return Err(Error::NotFound);
        },
        Some(account) => {
            proof {
                lemma_map_value_wf(*state, k);
            }
            (account.vesting_schedule.vested_amount(block_time), account.claimed_amount)
        },
    };
    let vested = match vested_r {
        Err(e) => {
            return Err(e);
        },
        Ok(v) => v,
    };
    let claimable = match vested.checked_sub(claimed) {
        None => {
            return Err(Error::Underflow);
        },
        Some(c) => c,
    };
    if claimable == 0 {
        return Ok(None);
    }
    let mut account = match state.remove_account(sender, denom) {
        Some(a) => a,
        None => {
            proof {
                assert(false);
            }
            return Err(Error::NotFound);
        },
    };
    proof {
        lemma_vested_bounds(account.vesting_schedule, block_time);
    }
    account.claimed_amount = vested;
    let instruction = TransferInstruction {
        denom: account.vesting_denom.clone(),
        amount: claimable,
        recipient: recipient.clone(),
    };
    if account.claimed_amount == account.vesting_amount {
        Ok(Some(instruction))
    } else {
        state.put_account(account);
        proof {
            assert(old(state).accounts_map().remove(k).insert(k, account)
                =~= old(state).accounts_map().insert(k, account));
        }
        Ok(Some(instruction))
    }
}

/// Claiming a list of assets, one `claim_step` per asset in order: the
/// resulting accounts, the emitted instructions, and the error the first
/// failing step stops with, if any.
pub open spec fn claim_fold(
    m: Map<(Seq<char>, Seq<char>), VestingAccount>,
    block_time: u64,
    sender: Seq<char>,
    recipient: String,
    denoms: Seq<Denom>,
) -> (Map<(Seq<char>, Seq<char>), VestingAccount>, Seq<TransferInstruction>, Option<Error>)
    decreases denoms.len(),
{
    if denoms.len() == 0 {
        (m, Seq::<TransferInstruction>::empty(), None)
    } else {
        let step = claim_step(m, block_time, (sender, denom_key(denoms[0])), recipient);
        if step.2 is Some {
            (step.0, Seq::<TransferInstruction>::empty(), step.2)
        } else {
            let rest = claim_fold(step.0, block_time, sender, recipient, denoms.drop_first());
            let head = match step.1 {
                Some(t) => seq![t],
                None => Seq::<TransferInstruction>::empty(),
            };
            (rest.0, head + rest.1, rest.2)
        }
    }
}

/// Claims the vested, unclaimed amount of each listed asset of `sender`,
/// in order, sending everything to `recipient` (default: the sender).
/// The first failing asset stops the call with its error; steps already
/// taken remain applied, the caller's transaction boundary being expected
/// to make the whole call atomic.
pub fn claim(
    state: &mut VestingState,
    block_time: u64,
    sender: &String,
    denoms: Vec<Denom>,
    recipient: Option<String>,
) -> (r: Result<Vec<TransferInstruction>, Error>)
    requires
        old(state).wf(),
    ensures
        final(state).wf(),
        final(state).master_address == old(state).master_address,
        ({
            let rec = match recipient {
                Some(rr) => rr,
                None => *sender,
            };
            let fold = claim_fold(old(state).accounts_map(), block_time, sender@, rec, denoms@);
            &&& final(state).accounts_map() == fold.0
            &&& match r {
                Ok(v) => fold.2 is None && v@ == fold.1,
                Err(e) => fold.2 == Some(e),
            }
        }),
{
    let ghost m0 = old(state).accounts_map();
    let ghost rec = (match recipient {
        Some(ref rr) => *rr,
        None => *sender,
    });
    let recipient_address: String = match &recipient {
        Some(rr) => rr.clone(),
        None => sender.clone(),
    };
    let mut messages: Vec<TransferInstruction> = Vec::new();
    let mut i: usize = 0;
    proof {
        assert(denoms@.skip(0) =~= denoms@);
    }
    while i < denoms.len()
        invariant
            0 <= i <= denoms@.len(),
            state.wf(),
            state.master_address == old(state).master_address,
            recipient_address == rec,
            m0 == old(state).accounts_map(),
            rec == (match recipient {
                Some(rr) => rr,
                None => *sender,
            }),
            claim_fold(m0, block_time, sender@, rec, denoms@).0 == claim_fold(
                state.accounts_map(),
                block_time,
                sender@,
                rec,
                denoms@.skip(i as int),
            ).0,
            claim_fold(m0, block_time, sender@, rec, denoms@).1 == messages@ + claim_fold(
                state.accounts_map(),
                block_time,
                sender@,
                rec,
                denoms@.skip(i as int),
            ).1,
            claim_fold(m0, block_time, sender@, rec, denoms@).2 == claim_fold(
                state.accounts_map(),
                block_time,
                sender@,
                rec,
                denoms@.skip(i as int),
            ).2,
        decreases denoms@.len() - i,
    {
        let ghost m_pre = state.accounts_map();
        let ghost rest_pre = denoms@.skip(i as int);
        proof {
            assert(rest_pre[0] == denoms@[i as int]);
            assert(rest_pre.drop_first() =~= denoms@.skip(i as int + 1));
        }
        match claim_one(state, block_time, sender, &denoms[i], &recipient_address) {
            Err(e) => {
                return Err(e);
            },
            Ok(opt) => {
                match opt {
                    Some(t) => {
                        messages.push(t);
                    },
                    None => {},
                }
                i = i + 1;
            },
        }
    }
    proof {
        assert(denoms@.skip(denoms@.len() as int) =~= Seq::<Denom>::empty());
        assert(messages@ + Seq::<TransferInstruction>::empty() =~= messages@);
    }
    Ok(messages)
}

/// Returns the stored master address.
pub fn master_address(state: &VestingState) -> (r: MasterAddressResponse)
    ensures
        r.master_address == state.master_address,
{
    MasterAddressResponse { master_address: state.master_address.clone() }
}

/// Whether a stored account belongs to the listing for `address`: the
/// beneficiary matches, and the asset key lies strictly after
/// `start_after`'s, where one is given.
pub open spec fn list_pred(
    address: Seq<char>,
    start_after: Option<Denom>,
    a: VestingAccount,
) -> bool {
    &&& a.address@ == address
    &&& match start_after {
        Some(d) => seq_char_lt(denom_key(d), denom_key(a.vesting_denom)),
        None => true,
    }
}

/// The listing entry for a stored account, given its vested amount.
pub open spec fn vesting_data_of(a: VestingAccount, vested: u128) -> VestingData {
    VestingData {
        vesting_denom: a.vesting_denom,
        vesting_amount: a.vesting_amount,
        vested_amount: vested,
        vesting_schedule: a.vesting_schedule,
        claimable_amount: (vested - a.claimed_amount) as u128,
    }
}

/// The listing entries for a sequence of accounts, in order, or the error
/// of the first account whose amounts cannot be computed.
pub open spec fn build_vesting_datas(s: Seq<VestingAccount>, block_time: u64) -> Result<
    Seq<VestingData>,
    Error,
>
    decreases s.len(),
{
    if s.len() == 0 {
        Ok(Seq::<VestingData>::empty())
    } else {
        match vested_result(s[0].vesting_schedule, block_time) {
            Err(e) => Err(e),
            Ok(vested) => {
                if s[0].claimed_amount > vested {
                    Err(Error::Underflow)
                } else {
                    match build_vesting_datas(s.drop_first(), block_time) {
                        Err(e) => Err(e),
                        Ok(rest) => Ok(seq![vesting_data_of(s[0], vested)] + rest),
                    }
                }
            },
        }
    }
}

/// Same listing entry up to schedule contents: cloning the schedule into
/// the entry preserves everything the entry states.
pub open spec fn data_matches(d: VestingData, expected: VestingData) -> bool {
    &&& d.vesting_denom == expected.vesting_denom
    &&& d.vesting_amount == expected.vesting_amount
    &&& d.vested_amount == expected.vested_amount
    &&& d.claimable_amount == expected.claimable_amount
    &&& sched_eq(d.vesting_schedule, expected.vesting_schedule)
}

/// Building entries for a concatenation: the first part's entries, then
/// the second's, stopping at the first error.
pub proof fn lemma_build_vesting_datas_append(
    x: Seq<VestingAccount>,
    y: Seq<VestingAccount>,
    block_time: u64,
)
    ensures
        build_vesting_datas(x + y, block_time) == (match build_vesting_datas(x, block_time) {
            Err(e) => Err::<Seq<VestingData>, Error>(e),
            Ok(dx) => (match build_vesting_datas(y, block_time) {
                Err(e) => Err::<Seq<VestingData>, Error>(e),
                Ok(dy) => Ok::<Seq<VestingData>, Error>(dx + dy),
            }),
        }),
    decreases x.len(),
{
    if x.len() == 0 {
        assert(x + y =~= y);
        if build_vesting_datas(y, block_time) is Ok {
            assert(Seq::<VestingData>::empty() + build_vesting_datas(y, block_time)->Ok_0
                =~= build_vesting_datas(y, block_time)->Ok_0);
        }
    } else {
        assert((x + y)[0] == x[0]);
        assert((x + y).drop_first() =~= x.drop_first() + y);
        lemma_build_vesting_datas_append(x.drop_first(), y, block_time);
        match vested_result(x[0].vesting_schedule, block_time) {
            Err(_) => {},
            Ok(vested) => {
                if x[0].claimed_amount <= vested {
                    match build_vesting_datas(x.drop_first(), block_time) {
                        Err(_) => {},
                        Ok(dx1) => {
                            match build_vesting_datas(y, block_time) {
                                Err(_) => {},
                                Ok(dy) => {
                                    assert(seq![vesting_data_of(x[0], vested)] + (dx1 + dy) =~= (
                                    seq![vesting_data_of(x[0], vested)] + dx1) + dy);
                                },
                            }
                        },
                    }
                }
            },
        }
    }
}

/// A successful build has one entry per account, in order, each entry
/// carrying its account's asset and amounts.
pub proof fn lemma_build_vesting_datas_ok(s: Seq<VestingAccount>, block_time: u64)
    requires
        build_vesting_datas(s, block_time) is Ok,
    ensures
        build_vesting_datas(s, block_time)->Ok_0.len() == s.len(),
        forall|p: int|
            0 <= p < s.len() ==> vested_result(#[trigger] s[p].vesting_schedule, block_time) is Ok
                && build_vesting_datas(s, block_time)->Ok_0[p] == vesting_data_of(
                s[p],
                vested_result(s[p].vesting_schedule, block_time)->Ok_0,
            ),
    decreases s.len(),
{
    if s.len() != 0 {
        lemma_build_vesting_datas_ok(s.drop_first(), block_time);
        let rest = build_vesting_datas(s.drop_first(), block_time)->Ok_0;
        let vested = vested_result(s[0].vesting_schedule, block_time)->Ok_0;
        assert forall|p: int|
            0 <= p < s.len() implies vested_result(
            #[trigger] s[p].vesting_schedule,
            block_time,
        ) is Ok && build_vesting_datas(s, block_time)->Ok_0[p] == vesting_data_of(
            s[p],
            vested_result(s[p].vesting_schedule, block_time)->Ok_0,
        ) by {
            if p > 0 {
                assert(s[p] == s.drop_first()[p - 1]);
                assert((seq![vesting_data_of(s[0], vested)] + rest)[p] == rest[p - 1]);
            }
        }
    }
}

/// Lists the vesting positions of `address` in ascending asset-key order:
/// at most `limit` entries (capped at 30, default 10), strictly after
/// `start_after` where one is given. Read-only: computing a listing
/// changes nothing.
pub fn vesting_account(
    state: &VestingState,
    block_time: u64,
    address: String,
    start_after: Option<Denom>,
    limit: Option<u32>,
) -> (r: Result<VestingAccountResponse, Error>)
    requires
        state.wf(),
    ensures
        ({
            let lim = match limit {
                Some(l) => if l > 30 {
                    30int
                } else {
                    l as int
                },
                None => 10int,
            };
            let filtered = state.entries().filter(
                |a: VestingAccount| list_pred(address@, start_after, a),
            );
            let lim2 = if lim <= filtered.len() {
                lim
            } else {
                filtered.len() as int
            };
            let taken = filtered.take(lim2);
            match r {
                Ok(resp) => {
                    &&& resp.address == address
                    &&& match build_vesting_datas(taken, block_time) {
                        Ok(ds) => resp.vestings@.len() == ds.len() && (forall|p: int|
                            0 <= p < ds.len() ==> data_matches(#[trigger] resp.vestings@[p], ds[p])),
                        Err(_) => false,
                    }
                },
                Err(e) => build_vesting_datas(taken, block_time) == Err::<Seq<VestingData>, Error>(
                    e,
                ),
            }
        }),
        r matches Ok(resp) ==> resp.vestings@.len() <= (match limit {
            Some(l) => if l > 30 {
                30int
            } else {
                l as int
            },
            None => 10int,
        }),
        r matches Ok(resp) ==> (forall|p: int, q: int|
            0 <= p < q < resp.vestings@.len() ==> seq_char_lt(
                denom_key(#[trigger] resp.vestings@[p].vesting_denom),
                denom_key(#[trigger] resp.vestings@[q].vesting_denom),
            )),
        r matches Ok(resp) ==> (start_after matches Some(d) ==> (forall|p: int|
            0 <= p < resp.vestings@.len() ==> seq_char_lt(
                denom_key(d),
                denom_key(#[trigger] resp.vestings@[p].vesting_denom),
            ))),
{
    let ghost sa = start_after;
    let ghost pred = |a: VestingAccount| list_pred(address@, sa, a);
    let lim: usize = match &limit {
        Some(l) => if *l > 30 {
            30
        } else {
            *l as usize
        },
        None => 10,
    };
    let mut datas: Vec<VestingData> = Vec::new();
    let mut j: usize = 0;
    proof {
        reveal(Seq::filter);
        assert(state.entries().take(0) =~= Seq::<VestingAccount>::empty());
        assert(Seq::<VestingAccount>::empty().filter(pred) =~= Seq::<VestingAccount>::empty());
    }
    while j < state.accounts.len() && datas.len() < lim
        invariant
            state.wf(),
            sa == start_after,
            pred == (|a: VestingAccount| list_pred(address@, sa, a)),
            lim == (match limit {
                Some(l) => if l > 30 {
                    30int
                } else {
                    l as int
                },
                None => 10int,
            }),
            0 <= j <= state.entries().len(),
            datas@.len() <= lim,
            datas@.len() == state.entries().take(j as int).filter(pred).len(),
            build_vesting_datas(state.entries().take(j as int).filter(pred), block_time) is Ok,
            ({
                let ds = build_vesting_datas(
                    state.entries().take(j as int).filter(pred),
                    block_time,
                )->Ok_0;
                &&& ds.len() == datas@.len()
                &&& forall|p: int|
                    0 <= p < ds.len() ==> data_matches(#[trigger] datas@[p], ds[p])
            }),
        decreases state.entries().len() - j,
    {
        let ghost prefix = state.entries().take(j as int);
        let ghost fj = prefix.filter(pred);
        let a = &state.accounts[j];
        proof {
            assert(account_wf(state.entries()[j as int]));
        }
        let mut is_match = a.address.eq(&address);
        if is_match {
            match &start_after {
                Some(d) => {
                    let c = denom_compare(d, &a.vesting_denom);
                    proof {
                        lemma_seq_char_lt_asymmetric(
                            denom_key(*d),
                            denom_key(a.vesting_denom),
                        );
                        lemma_seq_char_lt_asymmetric(
                            denom_key(a.vesting_denom),
                            denom_key(*d),
                        );
                    }
                    if c != -1 {
                        is_match = false;
                    }
                },
                None => {},
            }
        }
        proof {
            assert(is_match == pred(state.entries()[j as int]));
            reveal(Seq::filter);
            assert(state.entries().take(j as int + 1).drop_last() =~= prefix);
            assert(state.entries().take(j as int + 1).last() == state.entries()[j as int]);
        }
        if is_match {
            let ghost acct = state.entries()[j as int];
            let ghost p = datas@.len() as int;
            proof {
                assert(state.entries().take(j as int + 1).filter(pred) == fj.push(acct));
                assert(fj.push(acct) =~= fj + seq![acct]);
                // where the taken selection still reaches this account, an
                // error here is the error of the whole listing
                lemma_build_vesting_datas_append(fj, seq![acct], block_time);
                assert(seq![acct][0] == acct);
                assert(seq![acct].drop_first() =~= Seq::<VestingAccount>::empty());
            }
            let vested = match a.vesting_schedule.vested_amount(block_time) {
                Err(e) => {
                    proof {
                        lemma_error_propagates(*state, pred, j as int, block_time, lim as int);
                    }
                    return Err(e);
                },
                Ok(v) => v,
            };
            let claimable = match vested.checked_sub(a.claimed_amount) {
                None => {
                    proof {
                        lemma_error_propagates(*state, pred, j as int, block_time, lim as int);
                    }
                    return Err(Error::Underflow);
                },
                Some(c) => c,
            };
            datas.push(
                VestingData {
                    vesting_denom: a.vesting_denom.clone(),
                    vesting_amount: a.vesting_amount,
                    vested_amount: vested,
                    vesting_schedule: a.vesting_schedule.clone(),
                    claimable_amount: claimable,
                },
            );
            proof {
                let f2 = state.entries().take(j as int + 1).filter(pred);
                assert(seq![vesting_data_of(acct, vested)] + Seq::<VestingData>::empty()
                    =~= seq![vesting_data_of(acct, vested)]);
                assert(seq![acct].len() == 1 && seq![acct][0] == acct);
                assert(vested_result(acct.vesting_schedule, block_time) == Ok::<u128, Error>(
                    vested,
                ));
                assert(acct.claimed_amount <= vested);
                assert(seq![acct].drop_first() =~= Seq::<VestingAccount>::empty());
                assert(build_vesting_datas(Seq::<VestingAccount>::empty(), block_time)
                    == Ok::<Seq<VestingData>, Error>(Seq::<VestingData>::empty()));
                assert(build_vesting_datas(seq![acct], block_time) == Ok::<Seq<VestingData>, Error>(
                    seq![vesting_data_of(acct, vested)],
                ));
                let ds_old = build_vesting_datas(fj, block_time)->Ok_0;
                let ds_new = build_vesting_datas(f2, block_time)->Ok_0;
                assert(ds_new =~= ds_old + seq![vesting_data_of(acct, vested)]);
                assert(data_matches(datas@[p], vesting_data_of(acct, vested)));
                assert forall|q: int| 0 <= q < ds_new.len() implies data_matches(
                    #[trigger] datas@[q],
                    ds_new[q],
                ) by {
                    if q < p {
                        assert(datas@[q] == datas@.subrange(0, p)[q]);
                        assert(ds_new[q] == ds_old[q]);
                    }
                }
            }
        } else {
            proof {
                assert(state.entries().take(j as int + 1).filter(pred) == fj);
            }
        }
        j = j + 1;
    }
    proof {
        let full = state.entries();
        let filtered = full.filter(pred);
        let fj = full.take(j as int).filter(pred);
        assert(full =~= full.take(j as int) + full.skip(j as int));
        Seq::<VestingAccount>::filter_distributes_over_add(
            full.take(j as int),
            full.skip(j as int),
            pred,
        );
        assert(filtered == fj + full.skip(j as int).filter(pred));
        let lim_i = lim as int;
        let lim2 = if lim_i <= filtered.len() {
            lim_i
        } else {
            filtered.len() as int
        };
        if j == state.accounts.len() && datas.len() < lim {
            assert(full.take(j as int) =~= full);
            assert(full.skip(j as int) =~= Seq::<VestingAccount>::empty());
            assert(Seq::<VestingAccount>::empty().filter(pred)
                =~= Seq::<VestingAccount>::empty()) by {
                reveal(Seq::filter);
            }
            assert(filtered =~= fj);
            assert(lim2 == filtered.len());
            assert(filtered.take(lim2) =~= filtered);
            assert(filtered.take(lim2) =~= fj);
        } else {
            assert(datas@.len() == lim_i);
            assert(fj.len() == lim_i);
            assert(filtered.len() >= lim_i);
            assert(lim2 == lim_i);
            assert(filtered.take(lim2) =~= fj);
        }
        // order and bound clauses, from the sortedness of the store
        let taken = filtered.take(lim2);
        assert(taken == fj);
        lemma_filter_sorted(full, pred);
        lemma_build_vesting_datas_ok(taken, block_time);
        let ds = build_vesting_datas(taken, block_time)->Ok_0;
        assert(ds.len() == datas@.len());
        assert forall|p: int| 0 <= p < datas@.len() implies #[trigger] datas@[p].vesting_denom
            == taken[p].vesting_denom && list_pred(address@, sa, taken[p]) by {
            assert(data_matches(datas@[p], ds[p]));
            assert(ds[p] == vesting_data_of(
                taken[p],
                vested_result(taken[p].vesting_schedule, block_time)->Ok_0,
            ));
            assert(taken[p] == filtered[p]);
            Seq::<VestingAccount>::lemma_filter_pred(full, pred, p);
            assert(list_pred(address@, sa, filtered[p]));
        }
        assert forall|p: int, q: int| 0 <= p < q < datas@.len() implies seq_char_lt(
            denom_key(#[trigger] datas@[p].vesting_denom),
            denom_key(#[trigger] datas@[q].vesting_denom),
        ) by {
            assert(datas@[p].vesting_denom == taken[p].vesting_denom);
            assert(datas@[q].vesting_denom == taken[q].vesting_denom);
            assert(list_pred(address@, sa, taken[p]));
            assert(list_pred(address@, sa, taken[q]));
            assert(taken[p] == filtered[p]);
            assert(taken[q] == filtered[q]);
            assert(key_lt(account_key(filtered[p]), account_key(filtered[q])));
            lemma_seq_char_lt_asymmetric(filtered[p].address@, filtered[q].address@);
        }
        assert forall|p: int|
            0 <= p < datas@.len() implies (match sa {
            Some(d) => seq_char_lt(denom_key(d), denom_key(#[trigger] datas@[p].vesting_denom)),
            None => true,
        }) by {
            assert(datas@[p].vesting_denom == taken[p].vesting_denom);
            assert(list_pred(address@, sa, taken[p]));
        }
    }
    Ok(VestingAccountResponse { address, vestings: datas })
}

/// Where the account at `j` is the next of the listing and its amounts
/// fail to compute, the whole listing fails with that error.
proof fn lemma_error_propagates(
    st: VestingState,
    pred: spec_fn(VestingAccount) -> bool,
    j: int,
    block_time: u64,
    lim: int,
)
    requires
        0 <= j < st.entries().len(),
        pred(st.entries()[j]),
        build_vesting_datas(st.entries().take(j).filter(pred), block_time) is Ok,
        st.entries().take(j).filter(pred).len() < lim,
        build_vesting_datas(
            st.entries().take(j).filter(pred) + seq![st.entries()[j]],
            block_time,
        ) is Err,
    ensures
        ({
            let filtered = st.entries().filter(pred);
            let lim2 = if lim <= filtered.len() {
                lim
            } else {
                filtered.len() as int
            };
            build_vesting_datas(filtered.take(lim2), block_time) == build_vesting_datas(
                st.entries().take(j).filter(pred) + seq![st.entries()[j]],
                block_time,
            )
        }),
{
    let full = st.entries();
    let fj = full.take(j).filter(pred);
    let acct = full[j];
    let filtered = full.filter(pred);
    assert(full =~= full.take(j + 1) + full.skip(j + 1));
    Seq::<VestingAccount>::filter_distributes_over_add(
        full.take(j + 1),
        full.skip(j + 1),
        pred,
    );
    reveal(Seq::filter);
    assert(full.take(j + 1).drop_last() =~= full.take(j));
    assert(full.take(j + 1).last() == acct);
    assert(full.take(j + 1).filter(pred) == fj.push(acct));
    assert(fj.push(acct) =~= fj + seq![acct]);
    assert(filtered == (fj + seq![acct]) + full.skip(j + 1).filter(pred));
    let p = fj.len();
    assert(filtered.len() >= p + 1);
    let lim2 = if lim <= filtered.len() {
        lim
    } else {
        filtered.len() as int
    };
    assert(lim2 >= p + 1);
    let tail_len = lim2 - p - 1;
    let rest = full.skip(j + 1).filter(pred);
    assert(filtered.take(lim2) =~= (fj + seq![acct]) + rest.take(tail_len));
    lemma_build_vesting_datas_append(fj + seq![acct], rest.take(tail_len), block_time);
    lemma_build_vesting_datas_append(fj, seq![acct], block_time);
}

} // verus!
