//! Persistent state of the vesting ledger: the master address and the
//! vesting accounts, keyed by beneficiary address and asset.
//!
//! The store keeps its accounts strictly sorted by (address, asset key),
//! so keys are unique and range listings come out in ascending key order.
//! Its abstract view is a map from keys to accounts.

use vstd::prelude::*;

use crate::denom::{denom_compare, denom_eq, denom_key, Denom};
use crate::msg::{schedule_total, time_wf, VestingSchedule};
use crate::order::{
    lemma_seq_char_lt_asymmetric, lemma_seq_char_lt_transitive, seq_char_lt, str_compare,
};

verus! {

/// One beneficiary's vesting position in one asset.
#[derive(Debug, PartialEq)]
pub struct VestingAccount {
    /// The beneficiary.
    pub address: String,
    /// The vested asset.
    pub vesting_denom: Denom,
    /// Total deposited amount; fixed at registration.
    pub vesting_amount: u128,
    /// How the deposit vests over time.
    pub vesting_schedule: VestingSchedule,
    /// How much has been claimed so far; never decreases.
    pub claimed_amount: u128,
}

/// The storage key of an account: beneficiary address, then asset key.
pub open spec fn account_key(a: VestingAccount) -> (Seq<char>, Seq<char>) {
    (a.address@, denom_key(a.vesting_denom))
}

/// Strict order on storage keys: by address first, then by asset key.
pub open spec fn key_lt(k1: (Seq<char>, Seq<char>), k2: (Seq<char>, Seq<char>)) -> bool {
    seq_char_lt(k1.0, k2.0) || (k1.0 == k2.0 && seq_char_lt(k1.1, k2.1))
}

/// The key order is strict: no key is below itself, and two keys cannot
/// each be below the other.
pub proof fn lemma_key_lt_asymmetric(k1: (Seq<char>, Seq<char>), k2: (Seq<char>, Seq<char>))
    ensures
        !(key_lt(k1, k2) && key_lt(k2, k1)),
        key_lt(k1, k2) ==> k1 != k2,
{
    lemma_seq_char_lt_asymmetric(k1.0, k2.0);
    lemma_seq_char_lt_asymmetric(k2.0, k1.0);
    lemma_seq_char_lt_asymmetric(k1.1, k2.1);
    lemma_seq_char_lt_asymmetric(k2.1, k1.1);
}

/// The key order is transitive.
pub proof fn lemma_key_lt_transitive(
    k1: (Seq<char>, Seq<char>),
    k2: (Seq<char>, Seq<char>),
    k3: (Seq<char>, Seq<char>),
)
    requires
        key_lt(k1, k2),
        key_lt(k2, k3),
    ensures
        key_lt(k1, k3),
{
    if seq_char_lt(k1.0, k2.0) && seq_char_lt(k2.0, k3.0) {
        lemma_seq_char_lt_transitive(k1.0, k2.0, k3.0);
    } else if k1.0 == k2.0 && k2.0 == k3.0 {
        lemma_seq_char_lt_transitive(k1.1, k2.1, k3.1);
    }
}

/// A stored account is internally consistent: its schedule is well-timed,
/// the deposited total equals the schedule's own total, and no more than
/// the total has been claimed.
pub open spec fn account_wf(a: VestingAccount) -> bool {
    &&& time_wf(a.vesting_schedule)
    &&& schedule_total(a.vesting_schedule) == a.vesting_amount as int
    &&& a.claimed_amount <= a.vesting_amount
}

/// The accounts are strictly sorted by storage key.
pub open spec fn sorted_by_key(s: Seq<VestingAccount>) -> bool {
    forall|i: int, j: int|
        0 <= i < j < s.len() ==> key_lt(#[trigger] account_key(s[i]), #[trigger] account_key(s[j]))
}

/// No two accounts share a storage key.
pub open spec fn keys_unique(s: Seq<VestingAccount>) -> bool {
    forall|i: int, j: int|
        0 <= i < j < s.len() ==> #[trigger] account_key(s[i]) != #[trigger] account_key(s[j])
}

/// Strictly sorted accounts have pairwise distinct keys.
pub proof fn lemma_sorted_unique(s: Seq<VestingAccount>)
    requires
        sorted_by_key(s),
    ensures
        keys_unique(s),
{
    assert forall|i: int, j: int| 0 <= i < j < s.len() implies #[trigger] account_key(s[i])
        != #[trigger] account_key(s[j]) by {
        lemma_key_lt_asymmetric(account_key(s[i]), account_key(s[j]));
    }
}

/// Whether some account in `s` has key `k`.
pub open spec fn seq_contains_key(s: Seq<VestingAccount>, k: (Seq<char>, Seq<char>)) -> bool {
    exists|i: int| 0 <= i < s.len() && account_key(#[trigger] s[i]) == k
}

/// The index of the account with key `k`, where one exists.
pub open spec fn seq_key_index(s: Seq<VestingAccount>, k: (Seq<char>, Seq<char>)) -> int {
    choose|i: int| 0 <= i < s.len() && account_key(#[trigger] s[i]) == k
}

/// The accounts as a map from storage key to account.
pub open spec fn map_of(s: Seq<VestingAccount>) -> Map<(Seq<char>, Seq<char>), VestingAccount> {
    Map::new(|k: (Seq<char>, Seq<char>)| seq_contains_key(s, k), |k| s[seq_key_index(s, k)])
}

/// With unique keys, the map sends each account's key to that account.
pub proof fn lemma_map_of_lookup(s: Seq<VestingAccount>, i: int)
    requires
        keys_unique(s),
        0 <= i < s.len(),
    ensures
        map_of(s).dom().contains(account_key(s[i])),
        map_of(s)[account_key(s[i])] == s[i],
        seq_key_index(s, account_key(s[i])) == i,
{
    let k = account_key(s[i]);
    assert(seq_contains_key(s, k));
    let j = seq_key_index(s, k);
    assert(0 <= j < s.len() && account_key(s[j]) == k);
    if i < j {
        assert(account_key(s[i]) != account_key(s[j]));
    } else if j < i {
        assert(account_key(s[j]) != account_key(s[i]));
    }
}

/// Overwriting the account at `i` with one of the same key updates the
/// map at that key and changes nothing else.
pub proof fn lemma_map_of_update(s: Seq<VestingAccount>, i: int, a: VestingAccount)
    requires
        keys_unique(s),
        0 <= i < s.len(),
        account_key(a) == account_key(s[i]),
    ensures
        keys_unique(s.update(i, a)),
        map_of(s.update(i, a)) == map_of(s).insert(account_key(a), a),
{
    let s2 = s.update(i, a);
    let k0 = account_key(a);
    assert forall|j: int| 0 <= j < s2.len() implies #[trigger] account_key(s2[j]) == account_key(
        s[j],
    ) by {}
    assert(keys_unique(s2));
    assert forall|k: (Seq<char>, Seq<char>)|
        map_of(s2).dom().contains(k) == map_of(s).insert(k0, a).dom().contains(k) by {
        if seq_contains_key(s2, k) {
            let j = seq_key_index(s2, k);
            assert(account_key(s[j]) == k);
        }
        if seq_contains_key(s, k) {
            let j = seq_key_index(s, k);
            assert(account_key(s2[j]) == k);
        }
    }
    assert(map_of(s2).dom() =~= map_of(s).insert(k0, a).dom());
    assert forall|k: (Seq<char>, Seq<char>)| map_of(s2).dom().contains(k) implies map_of(s2)[k]
        == map_of(s).insert(k0, a)[k] by {
        if k == k0 {
            lemma_map_of_lookup(s2, i);
        } else {
            let j = seq_key_index(s2, k);
            assert(0 <= j < s2.len() && account_key(s2[j]) == k);
            assert(j != i);
            lemma_map_of_lookup(s2, j);
            lemma_map_of_lookup(s, j);
        }
    }
    assert(map_of(s2) =~= map_of(s).insert(k0, a));
}

/// Inserting an account with a fresh key at position `p` adds exactly
/// that key to the map.
pub proof fn lemma_map_of_insert(s: Seq<VestingAccount>, p: int, a: VestingAccount)
    requires
        keys_unique(s),
        !seq_contains_key(s, account_key(a)),
        0 <= p <= s.len(),
    ensures
        keys_unique(s.insert(p, a)),
        map_of(s.insert(p, a)) == map_of(s).insert(account_key(a), a),
{
    s.insert_ensures(p, a);
    let s2 = s.insert(p, a);
    let k0 = account_key(a);
    assert forall|j: int| 0 <= j < s.len() implies #[trigger] account_key(s[j]) != k0 by {
        if account_key(s[j]) == k0 {
            assert(seq_contains_key(s, k0));
        }
    }
    assert forall|i: int, j: int| 0 <= i < j < s2.len() implies #[trigger] account_key(s2[i])
        != #[trigger] account_key(s2[j]) by {
        let oi = if i < p {
            i
        } else {
            i - 1
        };
        let oj = if j < p {
            j
        } else {
            j - 1
        };
        if i != p && j != p {
            assert(account_key(s2[i]) == account_key(s[oi]));
            assert(account_key(s2[j]) == account_key(s[oj]));
        } else if i == p {
            assert(account_key(s2[j]) == account_key(s[oj]));
        } else {
            assert(account_key(s2[i]) == account_key(s[oi]));
        }
    }
    assert(keys_unique(s2));
    assert forall|k: (Seq<char>, Seq<char>)|
        map_of(s2).dom().contains(k) == map_of(s).insert(k0, a).dom().contains(k) by {
        if seq_contains_key(s2, k) {
            let j = seq_key_index(s2, k);
            if j == p {
                assert(k == k0);
            } else if j < p {
                assert(account_key(s[j]) == k);
            } else {
                assert(s2[(j - 1) + 1] == s[j - 1]);
                assert(account_key(s[j - 1]) == k);
            }
        }
        if k == k0 {
            assert(account_key(s2[p]) == k0);
            assert(seq_contains_key(s2, k0));
        }
        if seq_contains_key(s, k) {
            let j = seq_key_index(s, k);
            if j < p {
                assert(account_key(s2[j]) == k);
            } else {
                assert(s2[j + 1] == s[j]);
                assert(account_key(s2[j + 1]) == k);
            }
            assert(seq_contains_key(s2, k));
        }
    }
    assert(map_of(s2).dom() =~= map_of(s).insert(k0, a).dom());
    assert forall|k: (Seq<char>, Seq<char>)| map_of(s2).dom().contains(k) implies map_of(s2)[k]
        == map_of(s).insert(k0, a)[k] by {
        if k == k0 {
            lemma_map_of_lookup(s2, p);
        } else {
            assert(seq_contains_key(s, k));
            let j = seq_key_index(s, k);
            assert(0 <= j < s.len() && account_key(s[j]) == k);
            if j < p {
                assert(s2[j] == s[j]);
                lemma_map_of_lookup(s2, j);
            } else {
                assert(s2[j + 1] == s[j]);
                lemma_map_of_lookup(s2, j + 1);
            }
            lemma_map_of_lookup(s, j);
        }
    }
    assert(map_of(s2) =~= map_of(s).insert(k0, a));
}

/// Removing the account at `i` removes exactly its key from the map.
pub proof fn lemma_map_of_remove(s: Seq<VestingAccount>, i: int)
    requires
        keys_unique(s),
        0 <= i < s.len(),
    ensures
        keys_unique(s.remove(i)),
        map_of(s.remove(i)) == map_of(s).remove(account_key(s[i])),
{
    s.remove_ensures(i);
    let s2 = s.remove(i);
    let k0 = account_key(s[i]);
    assert forall|p: int, q: int| 0 <= p < q < s2.len() implies #[trigger] account_key(s2[p])
        != #[trigger] account_key(s2[q]) by {
        let op = if p < i {
            p
        } else {
            p + 1
        };
        let oq = if q < i {
            q
        } else {
            q + 1
        };
        assert(account_key(s2[p]) == account_key(s[op]));
        assert(account_key(s2[q]) == account_key(s[oq]));
    }
    assert(keys_unique(s2));
    assert forall|k: (Seq<char>, Seq<char>)|
        map_of(s2).dom().contains(k) == map_of(s).remove(k0).dom().contains(k) by {
        if seq_contains_key(s2, k) {
            let j = seq_key_index(s2, k);
            let oj = if j < i {
                j
            } else {
                j + 1
            };
            assert(account_key(s[oj]) == k);
            assert(seq_contains_key(s, k));
            if k == k0 {
                lemma_map_of_lookup(s, i);
                assert(oj == i);
                assert(false);
            }
        }
        if seq_contains_key(s, k) && k != k0 {
            let j = seq_key_index(s, k);
            assert(0 <= j < s.len() && account_key(s[j]) == k);
            assert(j != i);
            if j < i {
                assert(s2[j] == s[j]);
                assert(account_key(s2[j]) == k);
            } else {
                assert(s2[j - 1] == s[j]);
                assert(account_key(s2[j - 1]) == k);
            }
            assert(seq_contains_key(s2, k));
        }
    }
    assert(map_of(s2).dom() =~= map_of(s).remove(k0).dom());
    assert forall|k: (Seq<char>, Seq<char>)| map_of(s2).dom().contains(k) implies map_of(s2)[k]
        == map_of(s).remove(k0)[k] by {
        let j = seq_key_index(s2, k);
        assert(0 <= j < s2.len() && account_key(s2[j]) == k);
        let oj = if j < i {
            j
        } else {
            j + 1
        };
        assert(s2[j] == s[oj]);
        lemma_map_of_lookup(s2, j);
        lemma_map_of_lookup(s, oj);
    }
    assert(map_of(s2) =~= map_of(s).remove(k0));
}

/// Filtering keeps accounts in order: a filtered selection of a strictly
/// sorted account sequence is itself strictly sorted, and holds only
/// accounts of the original.
pub proof fn lemma_filter_sorted(s: Seq<VestingAccount>, pred: spec_fn(VestingAccount) -> bool)
    requires
        sorted_by_key(s),
    ensures
        sorted_by_key(s.filter(pred)),
        forall|p: int| 0 <= p < s.filter(pred).len() ==> s.contains(#[trigger] s.filter(pred)[p]),
    decreases s.len(),
{
    reveal(Seq::filter);
    if s.len() > 0 {
        let butlast = s.drop_last();
        assert forall|i: int, j: int| 0 <= i < j < butlast.len() implies key_lt(
            #[trigger] account_key(butlast[i]),
            #[trigger] account_key(butlast[j]),
        ) by {
            assert(butlast[i] == s[i]);
            assert(butlast[j] == s[j]);
        }
        lemma_filter_sorted(butlast, pred);
        let f = butlast.filter(pred);
        assert forall|p: int| 0 <= p < f.len() implies s.contains(f[p]) by {
            assert(butlast.contains(f[p]));
            let w = choose|w: int| 0 <= w < butlast.len() && butlast[w] == f[p];
            assert(s[w] == f[p]);
        }
        if pred(s.last()) {
            let out = f.push(s.last());
            assert(s.filter(pred) == out);
            assert forall|p: int, q: int| 0 <= p < q < out.len() implies key_lt(
                #[trigger] account_key(out[p]),
                #[trigger] account_key(out[q]),
            ) by {
                if q < f.len() {
                    assert(out[p] == f[p]);
                    assert(out[q] == f[q]);
                } else {
                    assert(out[q] == s.last());
                    assert(out[p] == f[p]);
                    assert(s.contains(f[p]));
                    let w = choose|w: int| 0 <= w < s.len() && s[w] == f[p];
                    assert(butlast.contains(f[p]));
                    let wb = choose|w: int| 0 <= w < butlast.len() && butlast[w] == f[p];
                    assert(s[wb] == f[p]);
                    assert(key_lt(account_key(s[wb]), account_key(s[s.len() - 1])));
                }
            }
            assert forall|p: int| 0 <= p < out.len() implies s.contains(out[p]) by {
                if p < f.len() {
                    assert(s.contains(f[p]));
                } else {
                    assert(out[p] == s[s.len() - 1]);
                }
            }
        }
    }
}

/// In a well-formed state, every account the map holds is internally
/// consistent and sits under its own key.
pub proof fn lemma_map_value_wf(st: VestingState, k: (Seq<char>, Seq<char>))
    requires
        st.wf(),
        st.accounts_map().dom().contains(k),
    ensures
        account_wf(st.accounts_map()[k]),
        account_key(st.accounts_map()[k]) == k,
{
    let j = seq_key_index(st.entries(), k);
    assert(0 <= j < st.entries().len() && account_key(st.entries()[j]) == k);
}

/// The whole persistent state: the master address and the stored vesting
/// accounts, strictly sorted by storage key.
#[derive(Debug, PartialEq)]
pub struct VestingState {
    /// The single authority allowed to register and deregister accounts.
    pub master_address: String,
    /// The stored accounts, strictly sorted by (address, asset key).
    pub accounts: Vec<VestingAccount>,
}

impl VestingState {
    /// The stored accounts, in storage-key order.
    pub open spec fn entries(self) -> Seq<VestingAccount> {
        self.accounts@
    }

    /// Well-formedness: accounts strictly sorted by key (hence unique),
    /// and each account internally consistent.
    pub open spec fn wf(self) -> bool {
        &&& sorted_by_key(self.entries())
        &&& forall|i: int| 0 <= i < self.entries().len() ==> account_wf(#[trigger] self.entries()[i])
    }

    /// The accounts as a map from storage key to account.
    pub open spec fn accounts_map(self) -> Map<(Seq<char>, Seq<char>), VestingAccount> {
        map_of(self.entries())
    }

    /// Looks up the position of the account for `(address, denom)`.
    pub fn find_account(&self, address: &String, denom: &Denom) -> (r: Option<usize>)
        requires
            self.wf(),
        ensures
            match r {
                Some(i) => 0 <= i < self.entries().len() && account_key(self.entries()[i as int])
                    == (address@, denom_key(*denom)),
                None => !seq_contains_key(self.entries(), (address@, denom_key(*denom))),
            },
    {
        let ghost k = (address@, denom_key(*denom));
        let mut j: usize = 0;
        while j < self.accounts.len()
            invariant
                0 <= j <= self.entries().len(),
                forall|m: int| 0 <= m < j ==> account_key(#[trigger] self.entries()[m]) != k,
                k == (address@, denom_key(*denom)),
            decreases self.entries().len() - j,
        {
            let same_address = self.accounts[j].address.eq(address);
            if same_address && denom_eq(&self.accounts[j].vesting_denom, denom) {
                return Some(j);
            }
            j = j + 1;
        }
        proof {
            if seq_contains_key(self.entries(), k) {
                let w = seq_key_index(self.entries(), k);
                assert(account_key(self.entries()[w]) != k);
            }
        }
        None
    }

    /// Compares a stored account's key with the key `(address, denom)`.
    fn account_key_compare(a: &VestingAccount, address: &String, denom: &Denom) -> (r: i8)
        ensures
            r == -1i8 || r == 0i8 || r == 1i8,
            r == -1i8 ==> key_lt(account_key(*a), (address@, denom_key(*denom))),
            r == 0i8 ==> account_key(*a) == (address@, denom_key(*denom)),
            r == 1i8 ==> key_lt((address@, denom_key(*denom)), account_key(*a)),
    {
        let c0 = str_compare(a.address.as_str(), address.as_str());
        if c0 == -1 {
            return -1;
        }
        if c0 == 1 {
            return 1;
        }
        denom_compare(&a.vesting_denom, denom)
    }

    /// Stores `acct` under its key: overwrites the account with the same
    /// key, or inserts at the position that keeps the store sorted.
    pub fn put_account(&mut self, acct: VestingAccount)
        requires
            old(self).wf(),
            account_wf(acct),
        ensures
            final(self).wf(),
            final(self).master_address == old(self).master_address,
            final(self).accounts_map() == old(self).accounts_map().insert(
                account_key(acct),
                acct,
            ),
    {
        proof {
            lemma_sorted_unique(self.entries());
        }
        let ghost k = account_key(acct);
        let mut i: usize = 0;
        while i < self.accounts.len()
            invariant
                *self == *old(self),
                old(self).wf(),
                keys_unique(old(self).entries()),
                account_wf(acct),
                k == account_key(acct),
                0 <= i <= self.entries().len(),
                forall|m: int| 0 <= m < i ==> key_lt(account_key(#[trigger] self.entries()[m]), k),
            decreases self.entries().len() - i,
        {
            let c = Self::account_key_compare(&self.accounts[i], &acct.address, &acct.vesting_denom);
            if c == 0 {
                let ghost pre = self.entries();
                proof {
                    lemma_map_of_update(pre, i as int, acct);
                }
                self.accounts.set(i, acct);
                proof {
                    let s2 = self.entries();
                    assert forall|p: int, q: int| 0 <= p < q < s2.len() implies key_lt(
                        #[trigger] account_key(s2[p]),
                        #[trigger] account_key(s2[q]),
                    ) by {
                        assert(account_key(s2[p]) == account_key(pre[p]));
                        assert(account_key(s2[q]) == account_key(pre[q]));
                    }
                }
                return;
            }
            if c == 1 {
                let ghost pre = self.entries();
                proof {
                    assert forall|m: int| 0 <= m < pre.len() implies #[trigger] account_key(pre[m])
                        != k by {
                        if m < i {
                            lemma_key_lt_asymmetric(account_key(pre[m]), k);
                        } else {
                            if m > i {
                                lemma_key_lt_transitive(
                                    k,
                                    account_key(pre[i as int]),
                                    account_key(pre[m]),
                                );
                            }
                            lemma_key_lt_asymmetric(k, account_key(pre[m]));
                        }
                    }
                    if seq_contains_key(pre, k) {
                        let w = seq_key_index(pre, k);
                        assert(account_key(pre[w]) != k);
                    }
                    lemma_map_of_insert(pre, i as int, acct);
                    pre.insert_ensures(i as int, acct);
                }
                self.accounts.insert(i, acct);
                proof {
                    let s2 = self.entries();
                    assert forall|p: int, q: int| 0 <= p < q < s2.len() implies key_lt(
                        #[trigger] account_key(s2[p]),
                        #[trigger] account_key(s2[q]),
                    ) by {
                        let ip = i as int;
                        if p != ip && q != ip {
                            let op = if p < ip {
                                p
                            } else {
                                p - 1
                            };
                            let oq = if q < ip {
                                q
                            } else {
                                q - 1
                            };
                            assert(s2[p] == pre[op]);
                            assert(s2[q] == pre[oq]);
                        } else if p == ip {
                            let oq = q - 1;
                            assert(s2[q] == pre[oq]);
                            if oq > ip {
                                lemma_key_lt_transitive(
                                    k,
                                    account_key(pre[ip]),
                                    account_key(pre[oq]),
                                );
                            }
                        } else {
                            assert(s2[p] == pre[p]);
                        }
                    }
                    assert forall|m: int| 0 <= m < s2.len() implies account_wf(
                        #[trigger] s2[m],
                    ) by {
                        let ip = i as int;
                        if m < ip {
                            assert(s2[m] == pre[m]);
                        } else if m > ip {
                            assert(s2[m] == pre[m - 1]);
                        }
                    }
                }
                return;
            }
            i = i + 1;
        }
        let ghost pre = self.entries();
        proof {
            assert forall|m: int| 0 <= m < pre.len() implies #[trigger] account_key(pre[m])
                != k by {
                lemma_key_lt_asymmetric(account_key(pre[m]), k);
            }
            if seq_contains_key(pre, k) {
                let w = seq_key_index(pre, k);
                assert(account_key(pre[w]) != k);
            }
            lemma_map_of_insert(pre, pre.len() as int, acct);
            pre.insert_ensures(pre.len() as int, acct);
        }
        self.accounts.push(acct);
        proof {
            assert(self.entries() =~= pre.insert(pre.len() as int, acct));
            let s2 = self.entries();
            assert forall|p: int, q: int| 0 <= p < q < s2.len() implies key_lt(
                #[trigger] account_key(s2[p]),
                #[trigger] account_key(s2[q]),
            ) by {
                assert(s2[p] == pre[p]);
                if q < pre.len() {
                    assert(s2[q] == pre[q]);
                }
            }
        }
    }

    /// Deletes and returns the account stored for `(address, denom)`.
    pub fn remove_account(&mut self, address: &String, denom: &Denom) -> (r: Option<
        VestingAccount,
    >)
        requires
            old(self).wf(),
        ensures
            final(self).wf(),
            final(self).master_address == old(self).master_address,
            match r {
                Some(a) => {
                    &&& old(self).accounts_map().dom().contains((address@, denom_key(*denom)))
                    &&& a == old(self).accounts_map()[(address@, denom_key(*denom))]
                    &&& final(self).accounts_map() == old(self).accounts_map().remove(
                        (address@, denom_key(*denom)),
                    )
                },
                None => {
                    &&& !old(self).accounts_map().dom().contains((address@, denom_key(*denom)))
                    &&& *final(self) == *old(self)
                },
            },
    {
        proof {
            lemma_sorted_unique(self.entries());
        }
        match self.find_account(address, denom) {
            Some(i) => {
                let ghost pre = self.entries();
                proof {
                    lemma_map_of_lookup(pre, i as int);
                    lemma_map_of_remove(pre, i as int);
                    pre.remove_ensures(i as int);
                }
                let a = self.accounts.remove(i);
                proof {
                    let s2 = self.entries();
                    assert forall|p: int, q: int| 0 <= p < q < s2.len() implies key_lt(
                        #[trigger] account_key(s2[p]),
                        #[trigger] account_key(s2[q]),
                    ) by {
                        let ip = i as int;
                        let op = if p < ip {
                            p
                        } else {
                            p + 1
                        };
                        let oq = if q < ip {
                            q
                        } else {
                            q + 1
                        };
                        assert(s2[p] == pre[op]);
                        assert(s2[q] == pre[oq]);
                    }
                    assert forall|m: int| 0 <= m < s2.len() implies account_wf(
                        #[trigger] s2[m],
                    ) by {
                        let ip = i as int;
                        if m < ip {
                            assert(s2[m] == pre[m]);
                        } else {
                            assert(s2[m] == pre[m + 1]);
                        }
                    }
                }
                Some(a)
            },
            None => None,
        }
    }

    /// Whether an account exists for `(address, denom)`.
    pub fn has_account(&self, address: &String, denom: &Denom) -> (r: bool)
        requires
            self.wf(),
        ensures
            r == self.accounts_map().dom().contains((address@, denom_key(*denom))),
    {
        proof {
            lemma_sorted_unique(self.entries());
        }
        match self.find_account(address, denom) {
            Some(i) => {
                proof {
                    lemma_map_of_lookup(self.entries(), i as int);
                }
                true
            },
            None => false,
        }
    }

    /// The account stored for `(address, denom)`, if any.
    pub fn get_account(&self, address: &String, denom: &Denom) -> (r: Option<&VestingAccount>)
        requires
            self.wf(),
        ensures
            match r {
                Some(a) => self.accounts_map().dom().contains((address@, denom_key(*denom)))
                    && *a == self.accounts_map()[(address@, denom_key(*denom))],
                None => !self.accounts_map().dom().contains((address@, denom_key(*denom))),
            },
    {
        proof {
            lemma_sorted_unique(self.entries());
        }
        match self.find_account(address, denom) {
            Some(i) => {
                proof {
                    lemma_map_of_lookup(self.entries(), i as int);
                }
                Some(&self.accounts[i])
            },
            None => None,
        }
    }
}

} // verus!
