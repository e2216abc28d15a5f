//! Ledger state: balances and nonces, the validator set, the unbonding queue,
//! tokenomics parameters and governance.
use vstd::prelude::*;
use crate::core_types::address::Address;
use crate::core_types::addr_map::{AddressMap, entry_views, sorted_entries, has_listing, keys_sorted, entries_map, key_of, has_key, lemma_remove_entry, lemma_sorted_entries_of, lemma_entries_map_at};
use crate::core_types::governance::Governance;
use crate::core_types::hash::{hash_fields_bytes, spec_hash_fields, field_views, le_bytes, str_bytes, u64_le_bytes};
use crate::core_types::hex::{hex_encode, spec_hex_encode};
use crate::core_types::merkle::{merkle_root, merkle_root_of, leaf_views};
use crate::tokenomics::{TimedBurnState, TokenomicsParams, VestingSchedule, spec_default_tokenomics, spec_unlocked_at};

verus! {

/// Epochs an unstaked amount waits in the unbonding queue before release.
pub const UNBONDING_EPOCHS: u64 = 7;

#[derive(Debug, Clone, Copy, PartialEq, Eq, Structural)]
pub struct Account {
    pub balance: u64,
    pub nonce: u64,
}

#[derive(Debug, Clone, Copy, PartialEq, Eq, Structural)]
pub struct Validator {
    pub stake: u64,
    pub active: bool,
    pub slashed: bool,
    pub jailed: bool,
    pub jail_until: u64,
    pub votes_for: u64,
    pub votes_against: u64,
}

/// Stake leaving the validator set, released at `release_epoch`.
#[derive(Debug, Clone, Copy)]
pub struct UnbondingEntry {
    pub address: Address,
    pub amount: u64,
    pub release_epoch: u64,
}

/// A newly registered, active validator with `stake`.
pub open spec fn fresh_validator(stake: u64) -> Validator {
    Validator {
        stake,
        active: true,
        slashed: false,
        jailed: false,
        jail_until: 0,
        votes_for: 0,
        votes_against: 0,
    }
}

pub open spec fn empty_account() -> Account {
    Account { balance: 0, nonce: 0 }
}

pub open spec fn sat_add_u64(a: u64, b: u64) -> u64 {
    if a + b > u64::MAX {
        u64::MAX
    } else {
        (a + b) as u64
    }
}

pub open spec fn sat_sub_u64(a: u64, b: u64) -> u64 {
    if a < b {
        0
    } else {
        (a - b) as u64
    }
}

pub open spec fn sat_add_u128(a: u128, b: u128) -> u128 {
    if a + b > u128::MAX {
        u128::MAX
    } else {
        (a + b) as u128
    }
}

/// The balance held at `a` (zero for an unknown address).
pub open spec fn balance_in(m: Map<Seq<u8>, Account>, a: Seq<u8>) -> u64 {
    if m.contains_key(a) {
        m[a].balance
    } else {
        0
    }
}

/// The accounts with `a` present (added empty if it was not).
pub open spec fn touched(m: Map<Seq<u8>, Account>, a: Seq<u8>) -> Map<Seq<u8>, Account> {
    if m.contains_key(a) {
        m
    } else {
        m.insert(a, empty_account())
    }
}

/// `a` pays `amount` (saturating) and its nonce advances.
pub open spec fn debited(m: Map<Seq<u8>, Account>, a: Seq<u8>, amount: u64) -> Map<Seq<u8>, Account> {
    m.insert(a, Account { balance: sat_sub_u64(m[a].balance, amount), nonce: sat_add_u64(m[a].nonce, 1) })
}

/// `a` receives `amount` (saturating), created if needed.
pub open spec fn credited(m: Map<Seq<u8>, Account>, a: Seq<u8>, amount: u64) -> Map<Seq<u8>, Account> {
    touched(m, a).insert(a, Account { balance: sat_add_u64(balance_in(m, a), amount), ..touched(m, a)[a] })
}

/// Saturating sum of the balances of a list of entries.
pub open spec fn balance_sum(s: Seq<(Seq<u8>, Account)>) -> u128
    decreases s.len(),
{
    if s.len() == 0 {
        0
    } else {
        sat_add_u128(balance_sum(s.drop_last()), s.last().1.balance as u128)
    }
}

/// The total of the balances of a list of entries, without saturation.
pub open spec fn balance_total(s: Seq<(Seq<u8>, Account)>) -> int
    decreases s.len(),
{
    if s.len() == 0 {
        0
    } else {
        balance_total(s.drop_last()) + s.last().1.balance
    }
}

proof fn lemma_total_remove(t: Seq<(Seq<u8>, Account)>, i: int)
    requires
        0 <= i < t.len(),
    ensures
        balance_total(t) == t[i].1.balance + balance_total(t.remove(i)),
    decreases t.len(),
{
    if i == t.len() - 1 {
        assert(t.remove(i) =~= t.drop_last());
    } else {
        lemma_total_remove(t.drop_last(), i);
        assert(t.remove(i).drop_last() =~= t.drop_last().remove(i));
        assert(t.remove(i).last() == t.last());
    }
}

/// The total of a map's balances is one account's balance plus the total of
/// the others.
pub proof fn lemma_total_split(m: Map<Seq<u8>, Account>, k: Seq<u8>)
    requires
        has_listing(m),
    ensures
        has_listing(m.remove(k)),
        balance_total(sorted_entries(m)) == balance_in(m, k) + balance_total(sorted_entries(m.remove(k))),
{
    let s = choose|s: Seq<(Address, Account)>| keys_sorted(s) && entries_map(s) == m;
    lemma_sorted_entries_of(s);
    if m.contains_key(k) {
        assert(has_key(s, k));
        let i = choose|i: int| 0 <= i < s.len() && key_of(s[i]) == k;
        lemma_entries_map_at(s, i);
        lemma_remove_entry(s, i);
        lemma_sorted_entries_of(s.remove(i));
        assert(entry_views(s.remove(i)) =~= entry_views(s).remove(i));
        lemma_total_remove(entry_views(s), i);
    } else {
        assert(m.remove(k) =~= m);
    }
}

/// Saturating sum of the stakes of a list of entries.
pub open spec fn stake_sum(s: Seq<(Seq<u8>, Validator)>) -> u128
    decreases s.len(),
{
    if s.len() == 0 {
        0
    } else {
        sat_add_u128(stake_sum(s.drop_last()), s.last().1.stake as u128)
    }
}

/// The commitment leaf of an account.
pub open spec fn account_leaf(e: (Seq<u8>, Account)) -> Seq<u8> {
    spec_hash_fields(
        seq![
            str_bytes("BDLM_ACCOUNT_LEAF_V1"),
            e.0,
            le_bytes(e.1.balance as nat, 8),
            le_bytes(e.1.nonce as nat, 8),
        ],
    )
}

pub open spec fn flag_byte(b: bool) -> u8 {
    if b {
        1
    } else {
        0
    }
}

/// The commitment leaf of a validator.
pub open spec fn validator_leaf(e: (Seq<u8>, Validator)) -> Seq<u8> {
    spec_hash_fields(
        seq![
            str_bytes("BDLM_VALIDATOR_LEAF_V1"),
            e.0,
            le_bytes(e.1.stake as nat, 8),
            seq![flag_byte(e.1.active), flag_byte(e.1.slashed), flag_byte(e.1.jailed)],
            le_bytes(e.1.jail_until as nat, 8),
            le_bytes(e.1.votes_for as nat, 8),
            le_bytes(e.1.votes_against as nat, 8),
        ],
    )
}

/// The state root: lowercase hex of the Merkle root over one leaf per
/// account, then one per validator, each in ascending address order.
pub open spec fn spec_state_root(accounts: Seq<(Seq<u8>, Account)>, validators: Seq<(Seq<u8>, Validator)>) -> Seq<char> {
    spec_hex_encode(merkle_root(accounts.map_values(|e: (Seq<u8>, Account)| account_leaf(e)) + validators.map_values(|e: (Seq<u8>, Validator)| validator_leaf(e))))
}

/// All balances plus all stakes, saturating at `u128::MAX`.
pub open spec fn supply_of(accounts: Map<Seq<u8>, Account>, validators: Map<Seq<u8>, Validator>) -> u128 {
    sat_add_u128(balance_sum(sorted_entries(accounts)), stake_sum(sorted_entries(validators)))
}

#[derive(Debug, Clone)]
pub struct AccountState {
    pub accounts: AddressMap<Account>,
    pub validators: AddressMap<Validator>,
    pub unbonding_queue: Vec<UnbondingEntry>,
    pub epoch_index: u64,
    pub base_fee: u64,
    pub tokenomics: TokenomicsParams,
    pub burn_reserve_address: Option<Address>,
    pub team_vesting: Option<(Address, VestingSchedule)>,
    pub governance: Governance,
    pub timed_burn: TimedBurnState,
    pub last_epoch_time: u64,
    pub bridge_root: [u8; 32],
    pub message_root: [u8; 32],
    pub settlement_root: [u8; 32],
    pub global_header_summary: [u8; 32],
}

/// The consensus bookkeeping that account and validator updates leave alone.
pub open spec fn same_extras(a: AccountState, b: AccountState) -> bool {
    &&& a.timed_burn == b.timed_burn
    &&& a.last_epoch_time == b.last_epoch_time
    &&& a.bridge_root == b.bridge_root
    &&& a.message_root == b.message_root
    &&& a.settlement_root == b.settlement_root
    &&& a.global_header_summary == b.global_header_summary
}

/// What `a` may spend: its balance, less what is still locked if it is the
/// vesting team account.
pub open spec fn spendable_in(
    accounts: Map<Seq<u8>, Account>,
    team_vesting: Option<(Address, VestingSchedule)>,
    epoch: u64,
    a: Seq<u8>,
) -> u64 {
    match team_vesting {
        Some((team, v)) => if team.0@ == a {
            sat_sub_u64(balance_in(accounts, a), (v.total - spec_unlocked_at(v, epoch)) as u64)
        } else {
            balance_in(accounts, a)
        },
        None => balance_in(accounts, a),
    }
}

impl AccountState {
    pub open spec fn wf(&self) -> bool {
        &&& self.accounts.wf()
        &&& self.validators.wf()
        &&& self.governance.wf()
    }

    /// Tokens held: all balances plus all stakes (saturating).
    pub open spec fn spec_supply(&self) -> u128 {
        supply_of(self.accounts@, self.validators@)
    }

    /// The state root of this ledger.
    pub open spec fn spec_root(&self) -> Seq<char> {
        spec_state_root(sorted_entries(self.accounts@), sorted_entries(self.validators@))
    }

    /// An empty ledger with the default tokenomics.
    pub fn new() -> (s: Self)
        ensures
            s.wf(),
            s.accounts@ == Map::<Seq<u8>, Account>::empty(),
            s.validators@ == Map::<Seq<u8>, Validator>::empty(),
            s.unbonding_queue@.len() == 0,
            s.epoch_index == 0,
            s.base_fee == 1,
            s.tokenomics == spec_default_tokenomics(),
            s.burn_reserve_address is None,
            s.team_vesting is None,
            s.governance.proposals@.len() == 0,
            s.governance.ballots@.len() == 0,
            s.governance.next_proposal_id == 0,
            s.timed_burn == (TimedBurnState { years_burned: 0, total_burned: 0 }),
            s.last_epoch_time == 0,
    {
        AccountState {
            accounts: AddressMap::new(),
            validators: AddressMap::new(),
            unbonding_queue: Vec::new(),
            epoch_index: 0,
            base_fee: 1,
            tokenomics: TokenomicsParams::defaults(),
            burn_reserve_address: None,
            team_vesting: None,
            governance: Governance::new(),
            timed_burn: TimedBurnState { years_burned: 0, total_burned: 0 },
            last_epoch_time: 0,
            bridge_root: [0u8; 32],
            message_root: [0u8; 32],
            settlement_root: [0u8; 32],
            global_header_summary: [0u8; 32],
        }
    }

    pub fn get_balance(&self, a: &Address) -> (r: u64)
        requires
            self.wf(),
        ensures
            r == balance_in(self.accounts@, a.0@),
    {
        match self.accounts.get(a) {
            Some(acct) => acct.balance,
            None => 0,
        }
    }

    pub fn get_nonce(&self, a: &Address) -> (r: u64)
        requires
            self.wf(),
        ensures
            r == (if self.accounts@.contains_key(a.0@) { self.accounts@[a.0@].nonce } else { 0 }),
    {
        match self.accounts.get(a) {
            Some(acct) => acct.nonce,
            None => 0,
        }
    }

    /// The account at `a`, created empty if it does not exist yet.
    pub fn get_or_create(&mut self, a: &Address) -> (acct: Account)
        requires
            old(self).wf(),
        ensures
            final(self).wf(),
            final(self).accounts@ == touched(old(self).accounts@, a.0@),
            acct == final(self).accounts@[a.0@],
            final(self).validators == old(self).validators,
            final(self).unbonding_queue == old(self).unbonding_queue,
            final(self).epoch_index == old(self).epoch_index,
            final(self).base_fee == old(self).base_fee,
            final(self).tokenomics == old(self).tokenomics,
            final(self).burn_reserve_address == old(self).burn_reserve_address,
            final(self).team_vesting == old(self).team_vesting,
            final(self).governance == old(self).governance,
            same_extras(*final(self), *old(self)),
    {
        match self.accounts.get(a) {
            Some(acct) => acct,
            None => {
                let acct = Account { balance: 0, nonce: 0 };
                self.accounts.insert(*a, acct);
                acct
            },
        }
    }

    /// Replace the account at `a`.
    pub fn set_account(&mut self, a: &Address, acct: Account)
        requires
            old(self).wf(),
        ensures
            final(self).wf(),
            final(self).accounts@ == old(self).accounts@.insert(a.0@, acct),
            final(self).validators == old(self).validators,
            final(self).unbonding_queue == old(self).unbonding_queue,
            final(self).epoch_index == old(self).epoch_index,
            final(self).base_fee == old(self).base_fee,
            final(self).tokenomics == old(self).tokenomics,
            final(self).burn_reserve_address == old(self).burn_reserve_address,
            final(self).team_vesting == old(self).team_vesting,
            final(self).governance == old(self).governance,
            same_extras(*final(self), *old(self)),
    {
        self.accounts.insert(*a, acct);
    }

    /// Credit `amount` to `a` (saturating), creating the account if needed.
    pub fn add_balance(&mut self, a: &Address, amount: u64)
        requires
            old(self).wf(),
        ensures
            final(self).wf(),
            final(self).accounts@ == credited(old(self).accounts@, a.0@, amount),
            final(self).validators == old(self).validators,
            final(self).unbonding_queue == old(self).unbonding_queue,
            final(self).epoch_index == old(self).epoch_index,
            final(self).base_fee == old(self).base_fee,
            final(self).tokenomics == old(self).tokenomics,
            final(self).burn_reserve_address == old(self).burn_reserve_address,
            final(self).team_vesting == old(self).team_vesting,
            final(self).governance == old(self).governance,
            same_extras(*final(self), *old(self)),
    {
        let acct = self.get_or_create(a);
        self.set_account(a, Account { balance: acct.balance.saturating_add(amount), ..acct });
    }

    pub fn get_validator(&self, a: &Address) -> (r: Option<Validator>)
        requires
            self.wf(),
        ensures
            r == (if self.validators@.contains_key(a.0@) { Some(self.validators@[a.0@]) } else { None::<Validator> }),
    {
        self.validators.get(a)
    }

    /// Replace the validator record at `a`.
    pub fn set_validator(&mut self, a: &Address, v: Validator)
        requires
            old(self).wf(),
        ensures
            final(self).wf(),
            final(self).validators@ == old(self).validators@.insert(a.0@, v),
            final(self).accounts == old(self).accounts,
            final(self).unbonding_queue == old(self).unbonding_queue,
            final(self).epoch_index == old(self).epoch_index,
            final(self).base_fee == old(self).base_fee,
            final(self).tokenomics == old(self).tokenomics,
            final(self).burn_reserve_address == old(self).burn_reserve_address,
            final(self).team_vesting == old(self).team_vesting,
            final(self).governance == old(self).governance,
            same_extras(*final(self), *old(self)),
    {
        self.validators.insert(*a, v);
    }

    /// Register `a` as an active validator with `stake`.
    pub fn add_validator(&mut self, a: Address, stake: u64)
        requires
            old(self).wf(),
        ensures
            final(self).wf(),
            final(self).validators@ == old(self).validators@.insert(a.0@, fresh_validator(stake)),
            final(self).accounts == old(self).accounts,
            final(self).unbonding_queue == old(self).unbonding_queue,
            final(self).epoch_index == old(self).epoch_index,
            final(self).base_fee == old(self).base_fee,
            final(self).tokenomics == old(self).tokenomics,
            final(self).burn_reserve_address == old(self).burn_reserve_address,
            final(self).team_vesting == old(self).team_vesting,
            final(self).governance == old(self).governance,
            same_extras(*final(self), *old(self)),
    {
        self.set_validator(
            &a,
            Validator {
                stake,
                active: true,
                slashed: false,
                jailed: false,
                jail_until: 0,
                votes_for: 0,
                votes_against: 0,
            },
        );
    }

    /// What `a` may spend now: the team account's locked vesting is held back.
    pub fn spendable_balance(&self, a: &Address) -> (r: u64)
        requires
            self.wf(),
        ensures
            r == spendable_in(self.accounts@, self.team_vesting, self.epoch_index, a.0@),
    {
        let balance: u64 = self.get_balance(a);
        match self.team_vesting {
            Some((team, v)) => {
                if team == *a {
                    balance.saturating_sub(v.locked_at(self.epoch_index))
                } else {
                    balance
                }
            },
            None => balance,
        }
    }

    /// Every account's balance, in ascending address order.
    pub fn get_all_balances(&self) -> (v: Vec<(Address, u64)>)
        requires
            self.wf(),
        ensures
            v@.map_values(|e: (Address, u64)| (e.0.0@, e.1)) == sorted_entries(self.accounts@).map_values(
                |e: (Seq<u8>, Account)| (e.0, e.1.balance),
            ),
    {
        proof {
            self.accounts.lemma_canonical();
        }
        let ghost es = entry_views(self.accounts.entries_seq());
        let mut v: Vec<(Address, u64)> = Vec::new();
        let n: usize = self.accounts.len();
        let mut i: usize = 0;
        while i < n
            invariant
                0 <= i <= n,
                n == es.len(),
                es == entry_views(self.accounts.entries_seq()),
                v@.map_values(|e: (Address, u64)| (e.0.0@, e.1)) == es.subrange(0, i as int).map_values(
                    |e: (Seq<u8>, Account)| (e.0, e.1.balance),
                ),
            decreases n - i,
        {
            let (a, acct) = self.accounts.entry(i);
            let ghost prev = v@;
            v.push((a, acct.balance));
            proof {
                assert(es[i as int] == (a.0@, acct));
                assert(v@.map_values(|e: (Address, u64)| (e.0.0@, e.1)) =~= prev.map_values(|e: (Address, u64)| (e.0.0@, e.1)).push((a.0@, acct.balance)));
                assert(es.subrange(0, i + 1).map_values(|e: (Seq<u8>, Account)| (e.0, e.1.balance)) =~= es.subrange(0, i as int).map_values(|e: (Seq<u8>, Account)| (e.0, e.1.balance)).push((a.0@, acct.balance)));
                assert(v@.map_values(|e: (Address, u64)| (e.0.0@, e.1)) =~= es.subrange(0, i + 1).map_values(
                    |e: (Seq<u8>, Account)| (e.0, e.1.balance),
                ));
            }
            i = i + 1;
        }
        assert(es.subrange(0, n as int) =~= es);
        v
    }

    /// Every account's nonce, in ascending address order.
    pub fn get_all_nonces(&self) -> (v: Vec<(Address, u64)>)
        requires
            self.wf(),
        ensures
            v@.map_values(|e: (Address, u64)| (e.0.0@, e.1)) == sorted_entries(self.accounts@).map_values(
                |e: (Seq<u8>, Account)| (e.0, e.1.nonce),
            ),
    {
        proof {
            self.accounts.lemma_canonical();
        }
        let ghost es = entry_views(self.accounts.entries_seq());
        let mut v: Vec<(Address, u64)> = Vec::new();
        let n: usize = self.accounts.len();
        let mut i: usize = 0;
        while i < n
            invariant
                0 <= i <= n,
                n == es.len(),
                es == entry_views(self.accounts.entries_seq()),
                v@.map_values(|e: (Address, u64)| (e.0.0@, e.1)) == es.subrange(0, i as int).map_values(
                    |e: (Seq<u8>, Account)| (e.0, e.1.nonce),
                ),
            decreases n - i,
        {
            let (a, acct) = self.accounts.entry(i);
            let ghost prev = v@;
            v.push((a, acct.nonce));
            proof {
                assert(es[i as int] == (a.0@, acct));
                assert(v@.map_values(|e: (Address, u64)| (e.0.0@, e.1)) =~= prev.map_values(|e: (Address, u64)| (e.0.0@, e.1)).push((a.0@, acct.nonce)));
                assert(es.subrange(0, i + 1).map_values(|e: (Seq<u8>, Account)| (e.0, e.1.nonce)) =~= es.subrange(0, i as int).map_values(|e: (Seq<u8>, Account)| (e.0, e.1.nonce)).push((a.0@, acct.nonce)));
                assert(v@.map_values(|e: (Address, u64)| (e.0.0@, e.1)) =~= es.subrange(0, i + 1).map_values(
                    |e: (Seq<u8>, Account)| (e.0, e.1.nonce),
                ));
            }
            i = i + 1;
        }
        assert(es.subrange(0, n as int) =~= es);
        v
    }

    /// Every validator, in ascending address order.
    pub fn get_all_validators(&self) -> (v: Vec<(Address, Validator)>)
        requires
            self.wf(),
        ensures
            v@.map_values(|e: (Address, Validator)| (e.0.0@, e.1)) == sorted_entries(self.validators@),
    {
        proof {
            self.validators.lemma_canonical();
        }
        let ghost es = entry_views(self.validators.entries_seq());
        let mut v: Vec<(Address, Validator)> = Vec::new();
        let n: usize = self.validators.len();
        let mut i: usize = 0;
        while i < n
            invariant
                0 <= i <= n,
                n == es.len(),
                es == entry_views(self.validators.entries_seq()),
                v@.map_values(|e: (Address, Validator)| (e.0.0@, e.1)) == es.subrange(0, i as int),
            decreases n - i,
        {
            let (a, val) = self.validators.entry(i);
            let ghost prev = v@;
            v.push((a, val));
            proof {
                assert(es[i as int] == (a.0@, val));
                assert(v@.map_values(|e: (Address, Validator)| (e.0.0@, e.1)) =~= prev.map_values(|e: (Address, Validator)| (e.0.0@, e.1)).push((a.0@, val)));
                assert(es.subrange(0, i + 1) =~= es.subrange(0, i as int).push((a.0@, val)));
                assert(v@.map_values(|e: (Address, Validator)| (e.0.0@, e.1)) =~= es.subrange(0, i + 1));
            }
            i = i + 1;
        }
        assert(es.subrange(0, n as int) =~= es);
        v
    }

    /// All balances plus all stakes, saturating at `u128::MAX`.
    pub fn circulating_supply(&self) -> (r: u128)
        requires
            self.wf(),
        ensures
            r == self.spec_supply(),
    {
        proof {
            self.accounts.lemma_canonical();
            self.validators.lemma_canonical();
        }
        let mut total: u128 = 0;
        let n: usize = self.accounts.len();
        let mut i: usize = 0;
        while i < n
            invariant
                0 <= i <= n,
                n == self.accounts.entries_seq().len(),
                total == balance_sum(entry_views(self.accounts.entries_seq()).subrange(0, i as int)),
            decreases n - i,
        {
            let e = self.accounts.entry(i);
            proof {
                let ev = entry_views(self.accounts.entries_seq());
                assert(ev.subrange(0, i + 1).drop_last() =~= ev.subrange(0, i as int));
                assert(ev.subrange(0, i + 1).last() == (e.0.0@, e.1));
            }
            total = total.saturating_add(e.1.balance as u128);
            i = i + 1;
        }
        assert(entry_views(self.accounts.entries_seq()).subrange(0, n as int) =~= entry_views(self.accounts.entries_seq()));
        let mut staked: u128 = 0;
        let m: usize = self.validators.len();
        let mut j: usize = 0;
        while j < m
            invariant
                0 <= j <= m,
                m == self.validators.entries_seq().len(),
                staked == stake_sum(entry_views(self.validators.entries_seq()).subrange(0, j as int)),
            decreases m - j,
        {
            let e = self.validators.entry(j);
            proof {
                let ev = entry_views(self.validators.entries_seq());
                assert(ev.subrange(0, j + 1).drop_last() =~= ev.subrange(0, j as int));
                assert(ev.subrange(0, j + 1).last() == (e.0.0@, e.1));
            }
            staked = staked.saturating_add(e.1.stake as u128);
            j = j + 1;
        }
        assert(entry_views(self.validators.entries_seq()).subrange(0, m as int) =~= entry_views(self.validators.entries_seq()));
        total.saturating_add(staked)
    }

    /// The state root over accounts and validators (see `spec_state_root`).
    pub fn calculate_state_root(&self) -> (r: String)
        requires
            self.wf(),
        ensures
            r@ == self.spec_root(),
    {
        proof {
            self.accounts.lemma_canonical();
            self.validators.lemma_canonical();
        }
        let ghost acc = entry_views(self.accounts.entries_seq());
        let ghost vals = entry_views(self.validators.entries_seq());
        let mut leaves: Vec<[u8; 32]> = Vec::new();
        let n: usize = self.accounts.len();
        let mut i: usize = 0;
        while i < n
            invariant
                0 <= i <= n,
                n == acc.len(),
                acc == entry_views(self.accounts.entries_seq()),
                leaf_views(leaves@) == acc.subrange(0, i as int).map_values(|e: (Seq<u8>, Account)| account_leaf(e)),
            decreases n - i,
        {
            let (addr, acct) = self.accounts.entry(i);
            let tag: &[u8] = "BDLM_ACCOUNT_LEAF_V1".as_bytes();
            let bal = u64_le_bytes(acct.balance);
            let non = u64_le_bytes(acct.nonce);
            let fields: [&[u8]; 4] = [tag, addr.as_bytes(), bal.as_slice(), non.as_slice()];
            let h = hash_fields_bytes(&fields);
            proof {
                assert(field_views(fields@) =~= seq![
                    str_bytes("BDLM_ACCOUNT_LEAF_V1"),
                    addr.0@,
                    le_bytes(acct.balance as nat, 8),
                    le_bytes(acct.nonce as nat, 8),
                ]);
                assert(acc[i as int] == (addr.0@, acct));
            }
            let ghost prev = leaves@;
            leaves.push(h);
            proof {
                assert(leaf_views(leaves@) =~= leaf_views(prev).push(h@));
                assert(acc.subrange(0, i + 1).map_values(|e: (Seq<u8>, Account)| account_leaf(e)) =~= acc.subrange(0, i as int).map_values(|e: (Seq<u8>, Account)| account_leaf(e)).push(account_leaf(acc[i as int])));
            }
            i = i + 1;
        }
        assert(acc.subrange(0, n as int) =~= acc);
        let m: usize = self.validators.len();
        let mut j: usize = 0;
        while j < m
            invariant
                0 <= j <= m,
                m == vals.len(),
                vals == entry_views(self.validators.entries_seq()),
                leaf_views(leaves@) == acc.map_values(|e: (Seq<u8>, Account)| account_leaf(e)) + vals.subrange(0, j as int).map_values(|e: (Seq<u8>, Validator)| validator_leaf(e)),
            decreases m - j,
        {
            let (addr, v) = self.validators.entry(j);
            let tag: &[u8] = "BDLM_VALIDATOR_LEAF_V1".as_bytes();
            let stake = u64_le_bytes(v.stake);
            let flags: [u8; 3] = [
                if v.active { 1u8 } else { 0u8 },
                if v.slashed { 1u8 } else { 0u8 },
                if v.jailed { 1u8 } else { 0u8 },
            ];
            let jail = u64_le_bytes(v.jail_until);
            let vf = u64_le_bytes(v.votes_for);
            let va = u64_le_bytes(v.votes_against);
            let fields: [&[u8]; 7] = [tag, addr.as_bytes(), stake.as_slice(), flags.as_slice(), jail.as_slice(), vf.as_slice(), va.as_slice()];
            let h = hash_fields_bytes(&fields);
            proof {
                assert(flags@ =~= seq![flag_byte(v.active), flag_byte(v.slashed), flag_byte(v.jailed)]);
                assert(field_views(fields@) =~= seq![
                    str_bytes("BDLM_VALIDATOR_LEAF_V1"),
                    addr.0@,
                    le_bytes(v.stake as nat, 8),
                    seq![flag_byte(v.active), flag_byte(v.slashed), flag_byte(v.jailed)],
                    le_bytes(v.jail_until as nat, 8),
                    le_bytes(v.votes_for as nat, 8),
                    le_bytes(v.votes_against as nat, 8),
                ]);
                assert(vals[j as int] == (addr.0@, v));
            }
            let ghost prev = leaves@;
            leaves.push(h);
            proof {
                assert(leaf_views(leaves@) =~= leaf_views(prev).push(h@));
                assert(vals.subrange(0, j + 1).map_values(|e: (Seq<u8>, Validator)| validator_leaf(e)) =~= vals.subrange(0, j as int).map_values(|e: (Seq<u8>, Validator)| validator_leaf(e)).push(validator_leaf(vals[j as int])));
            }
            j = j + 1;
        }
        assert(vals.subrange(0, m as int) =~= vals);
        let root = merkle_root_of(leaves);
        hex_encode(&root)
    }
}

impl Default for AccountState {
    fn default() -> (s: Self)
        ensures
            s.wf(),
            s.accounts@ == Map::<Seq<u8>, Account>::empty(),
            s.validators@ == Map::<Seq<u8>, Validator>::empty(),
            s.epoch_index == 0,
            s.tokenomics == spec_default_tokenomics(),
    {
        Self::new()
    }
}

/// The state root depends only on what the ledger holds, not on the order in
/// which accounts and validators were added: two ledgers with the same
/// accounts and validators have the same root.
pub proof fn law_state_root_order_independent(a: &AccountState, b: &AccountState)
    requires
        a.wf(),
        b.wf(),
        a.accounts@ == b.accounts@,
        a.validators@ == b.validators@,
    ensures
        a.spec_root() == b.spec_root(),
{
}

} // verus!
