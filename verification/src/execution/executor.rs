//! Applying transactions and blocks to the ledger.
//!
//! Contract calls are checked and decoded here; the BudZKVM run itself is
//! performed by the caller, which hands its outcome in.
use vstd::prelude::*;
use crate::core_types::address::Address;
use crate::core_types::addr_map::{has_listing, sorted_entries};
use crate::core_types::account::{
    balance_total, lemma_total_split, AccountState, Account, Validator, UnbondingEntry, UNBONDING_EPOCHS, fresh_validator, touched, balance_in,
    spendable_in, sat_add_u64, sat_sub_u64, supply_of, debited, credited, same_extras,
};
use crate::core_types::governance::{Proposal, find_index, has_voted, tallied, already_voted_error, sat_add};
use crate::core_types::transaction::{Transaction, TransactionType};
use crate::core_types::error::{BudlumError, decimal, spec_decimal};
use crate::core_types::hash::{le_value, u64_from_le};
use crate::execution::zkvm::{ZkVmExecutor, bytecode_error};
use crate::tokenomics::{TokenomicsParams, VestingSchedule, BUD_TOTAL_SUPPLY};
use crate::core_types::chain_config::FIXED_POINT_SCALE;

verus! {

/// The part of the ledger that transactions change.
pub struct Ledger {
    pub accounts: Map<Seq<u8>, Account>,
    pub validators: Map<Seq<u8>, Validator>,
    pub unbonding: Seq<UnbondingEntry>,
    pub proposals: Seq<Proposal>,
    pub payloads: Seq<Seq<u8>>,
    pub ballots: Seq<(u64, Address)>,
    pub next_proposal_id: u64,
}

pub open spec fn ledger_of(s: AccountState) -> Ledger {
    Ledger {
        accounts: s.accounts@,
        validators: s.validators@,
        unbonding: s.unbonding_queue@,
        proposals: s.governance.proposals@,
        payloads: s.governance.payloads@.map_values(|v: Vec<u8>| v@),
        ballots: s.governance.ballots@,
        next_proposal_id: s.governance.next_proposal_id,
    }
}

/// The fields no transaction changes.
pub open spec fn same_params(a: AccountState, b: AccountState) -> bool {
    &&& a.epoch_index == b.epoch_index
    &&& a.base_fee == b.base_fee
    &&& a.tokenomics == b.tokenomics
    &&& a.burn_reserve_address == b.burn_reserve_address
    &&& a.team_vesting == b.team_vesting
    &&& same_extras(a, b)
}

/// An error as (code, message).
pub type TxError = (Seq<char>, Seq<char>);

pub open spec fn fail(l: Ledger, code: Seq<char>, msg: Seq<char>) -> (Ledger, Result<(), TxError>) {
    (l, Err((code, msg)))
}

pub open spec fn zero_address() -> Seq<u8> {
    Seq::new(32, |i: int| 0u8)
}

pub open spec fn vesting_message(have: u64, need: u64) -> Seq<char> {
    "Transfer exceeds spendable balance: have "@ + spec_decimal(have as nat) + ", need "@ + spec_decimal(need as nat)
}

/// Why `serde_json` refuses a proposal body, or `None` if it accepts it.
pub uninterp spec fn spec_json_error(body: Seq<u8>) -> Option<Seq<char>>;

/// `serde_json::from_slice` into a JSON value: whether the proposal body is
/// well-formed JSON, and the parser's message when it is not. The contract
/// names the outcome and says nothing more of it.
#[verifier::external_body]
fn json_check(body: &[u8]) -> (r: Result<(), String>)
    ensures
        r is Ok <==> spec_json_error(body@) is None,
        r matches Err(m) ==> spec_json_error(body@) == Some(m@),
{
    match serde_json::from_slice::<serde_json::Value>(body) {
        Ok(_) => Ok(()),
        Err(e) => Err(e.to_string()),
    }
}

pub open spec fn spec_transfer(l: Ledger, epoch: u64, vesting: Option<(Address, VestingSchedule)>, tx: Transaction) -> (Ledger, Result<(), TxError>) {
    let from = tx.from.0@;
    let total = sat_add_u64(tx.amount, tx.fee);
    let spendable = spendable_in(l.accounts, vesting, epoch, from);
    if total > spendable {
        fail(l, "vesting_locked"@, vesting_message(spendable, total))
    } else {
        (Ledger { accounts: credited(debited(l.accounts, from, total), tx.to.0@, tx.amount), ..l }, Ok(()))
    }
}

pub open spec fn spec_stake(l: Ledger, tx: Transaction) -> (Ledger, Result<(), TxError>) {
    let from = tx.from.0@;
    let vals = if l.validators.contains_key(from) {
        let v = l.validators[from];
        l.validators.insert(from, Validator { stake: sat_add_u64(v.stake, tx.amount), active: true, ..v })
    } else {
        l.validators.insert(from, fresh_validator(tx.amount))
    };
    (Ledger { accounts: debited(l.accounts, from, sat_add_u64(tx.amount, tx.fee)), validators: vals, ..l }, Ok(()))
}

pub open spec fn spec_unstake(l: Ledger, epoch: u64, tx: Transaction) -> (Ledger, Result<(), TxError>) {
    let from = tx.from.0@;
    if balance_in(l.accounts, from) < tx.fee {
        fail(l, "insufficient_fee_balance"@, "Insufficient balance for fee"@)
    } else if !l.validators.contains_key(from) {
        fail(l, "not_validator"@, "Not a validator"@)
    } else if l.validators[from].stake < tx.amount {
        fail(l, "insufficient_stake"@, "Insufficient stake"@)
    } else {
        let v = l.validators[from];
        let left = (v.stake - tx.amount) as u64;
        let v2 = Validator { stake: left, active: if left == 0 { false } else { v.active }, ..v };
        (
            Ledger {
                accounts: debited(l.accounts, from, tx.fee),
                validators: l.validators.insert(from, v2),
                unbonding: l.unbonding.push(
                    UnbondingEntry { address: tx.from, amount: tx.amount, release_epoch: (epoch + UNBONDING_EPOCHS) as u64 },
                ),
                ..l
            },
            Ok(()),
        )
    }
}

/// A ballot on a validator: `amount > 0` is a vote for, zero a vote against.
pub open spec fn voted_on(v: Validator, amount: u64) -> Validator {
    if amount > 0 {
        Validator { votes_for: (v.votes_for + 1) as u64, ..v }
    } else {
        Validator { votes_against: (v.votes_against + 1) as u64, ..v }
    }
}

/// The vote branch after the fee is paid: a ballot on a validator (`to` set),
/// a governance ballot (9 data bytes: flag, proposal id) or a new proposal
/// by a validator (more data: duration, then the JSON body).
pub open spec fn spec_vote_effect(l: Ledger, epoch: u64, tx: Transaction) -> (Ledger, Result<(), TxError>) {
    let from = tx.from.0@;
    let data = tx.data@;
    if tx.to.0@ != zero_address() {
        if l.validators.contains_key(tx.to.0@) {
            (Ledger { validators: l.validators.insert(tx.to.0@, voted_on(l.validators[tx.to.0@], tx.amount)), ..l }, Ok(()))
        } else {
            (l, Ok(()))
        }
    } else if data.len() < 9 {
        (l, Ok(()))
    } else if data.len() == 9 {
        let vote_for = data[0] != 0;
        let pid = le_value(data.subrange(1, 9)) as u64;
        let stake: u64 = if l.validators.contains_key(from) { l.validators[from].stake } else { 0 };
        if stake == 0 {
            fail(l, "governance_voter_not_validator"@, "Only validators can vote in governance"@)
        } else {
            match find_index(l.proposals, pid) {
                None => fail(l, "proposal_not_found"@, "Proposal not found"@),
                Some(i) => if has_voted(l.ballots, pid, from) {
                    fail(l, "governance_vote_failed"@, already_voted_error())
                } else {
                    (
                        Ledger {
                            proposals: l.proposals.update(i, tallied(l.proposals[i], stake, vote_for)),
                            ballots: l.ballots.push((pid, tx.from)),
                            ..l
                        },
                        Ok(()),
                    )
                },
            }
        }
    } else if !(l.validators.contains_key(from) && l.validators[from].stake > 0) {
        fail(l, "governance_proposer_not_validator"@, "Only validators can create governance proposals"@)
    } else {
        let duration = le_value(data.subrange(0, 8)) as u64;
        let body = data.subrange(8, data.len() as int);
        match spec_json_error(body) {
            Some(e) => fail(l, "invalid_proposal_data"@, "Invalid proposal data: "@ + e),
            None => (
                Ledger {
                    proposals: l.proposals.push(
                        Proposal {
                            id: l.next_proposal_id,
                            proposer: tx.from,
                            created_epoch: epoch,
                            end_epoch: sat_add(epoch, duration),
                            votes_for: 0,
                            votes_against: 0,
                        },
                    ),
                    payloads: l.payloads.push(body),
                    next_proposal_id: sat_add(l.next_proposal_id, 1),
                    ..l
                },
                Ok(()),
            ),
        }
    }
}

pub open spec fn spec_vote(l: Ledger, epoch: u64, tx: Transaction) -> (Ledger, Result<(), TxError>) {
    spec_vote_effect(Ledger { accounts: debited(l.accounts, tx.from.0@, tx.fee), ..l }, epoch, tx)
}

/// A contract call: bytecode checks, then the VM's outcome decides.
pub open spec fn spec_contract_call(l: Ledger, tx: Transaction, vm: Result<(), Seq<char>>) -> (Ledger, Result<(), TxError>) {
    match bytecode_error(tx.data@) {
        Some(e) => fail(l, "contract_execution_failed"@, e),
        None => match vm {
            Err(e) => fail(l, "contract_execution_failed"@, e),
            Ok(_) => (Ledger { accounts: debited(l.accounts, tx.from.0@, tx.fee), ..l }, Ok(())),
        },
    }
}

/// One transaction applied to the ledger: the new ledger and the verdict.
/// System transactions (from the zero address) change nothing; zero-amount
/// or zero-fee unstakes and zero-fee votes are refused before anything is
/// touched; otherwise the sender's account is created if missing and must
/// cover amount plus fee.
pub open spec fn spec_apply_tx(
    l: Ledger,
    epoch: u64,
    vesting: Option<(Address, VestingSchedule)>,
    tx: Transaction,
    vm: Result<(), Seq<char>>,
) -> (Ledger, Result<(), TxError>) {
    let from = tx.from.0@;
    if from == zero_address() {
        (l, Ok(()))
    } else if tx.tx_type == TransactionType::Unstake && tx.amount == 0 {
        fail(l, "unstake_amount_zero"@, "Unstake amount cannot be 0"@)
    } else if tx.tx_type == TransactionType::Unstake && tx.fee == 0 {
        fail(l, "unstake_fee_zero"@, "Unstake fee cannot be 0 (consensus cost-floor)"@)
    } else if tx.tx_type == TransactionType::Vote && tx.fee == 0 {
        fail(l, "vote_fee_zero"@, "Vote fee cannot be 0 (consensus cost-floor)"@)
    } else {
        let l1 = Ledger { accounts: touched(l.accounts, from), ..l };
        if l1.accounts[from].balance < sat_add_u64(tx.amount, tx.fee) {
            fail(l1, "insufficient_balance"@, "Insufficient balance"@)
        } else {
            match tx.tx_type {
                TransactionType::Transfer => spec_transfer(l1, epoch, vesting, tx),
                TransactionType::Stake => spec_stake(l1, tx),
                TransactionType::Unstake => spec_unstake(l1, epoch, tx),
                TransactionType::Vote => spec_vote(l1, epoch, tx),
                TransactionType::ContractCall => spec_contract_call(l1, tx, vm),
            }
        }
    }
}

/// Whether a transaction gets past the checks that refuse it before it
/// touches anything: a real sender, the cost floor, and a balance that covers
/// amount and fee.
pub open spec fn reaches_effect(l: Ledger, tx: Transaction) -> bool {
    let from = tx.from.0@;
    &&& from != zero_address()
    &&& !(tx.tx_type == TransactionType::Unstake && (tx.amount == 0 || tx.fee == 0))
    &&& !(tx.tx_type == TransactionType::Vote && tx.fee == 0)
    &&& balance_in(l.accounts, from) >= sat_add_u64(tx.amount, tx.fee)
}

/// The arithmetic a transaction does without saturation stays in range, on
/// the branches that do it: an unstake that releases its amount computes the
/// release epoch, and a ballot on a validator raises one of its counters.
pub open spec fn tx_fits(l: Ledger, epoch: u64, tx: Transaction) -> bool {
    let from = tx.from.0@;
    &&& (tx.tx_type == TransactionType::Unstake && reaches_effect(l, tx) && l.validators.contains_key(from)
        && l.validators[from].stake >= tx.amount) ==> epoch + UNBONDING_EPOCHS <= u64::MAX
    &&& (tx.tx_type == TransactionType::Vote && reaches_effect(l, tx) && tx.to.0@ != zero_address()
        && l.validators.contains_key(tx.to.0@)) ==> (if tx.amount > 0 {
        l.validators[tx.to.0@].votes_for < u64::MAX
    } else {
        l.validators[tx.to.0@].votes_against < u64::MAX
    })
}

pub open spec fn outcome_view(o: Result<(), String>) -> Result<(), Seq<char>> {
    match o {
        Ok(_) => Ok(()),
        Err(s) => Err(s@),
    }
}

/// The executed result agrees with the specified one.
pub open spec fn result_matches(r: Result<(), BudlumError>, s: Result<(), TxError>) -> bool {
    match (r, s) {
        (Ok(_), Ok(_)) => true,
        (Err(e), Err(v)) => e.code@ == v.0 && e.message@ == v.1,
        _ => false,
    }
}

pub open spec fn ledger_eq(a: Ledger, b: Ledger) -> bool {
    &&& a.accounts == b.accounts
    &&& a.validators == b.validators
    &&& a.unbonding == b.unbonding
    &&& a.proposals == b.proposals
    &&& a.payloads == b.payloads
    &&& a.ballots == b.ballots
    &&& a.next_proposal_id == b.next_proposal_id
}

proof fn lemma_ledger_ext(a: Ledger, b: Ledger)
    requires
        ledger_eq(a, b),
    ensures
        a == b,
{
}

/// `after` and `r` are what `spec` says.
pub open spec fn lands(after: Ledger, r: Result<(), BudlumError>, spec: (Ledger, Result<(), TxError>)) -> bool {
    ledger_eq(after, spec.0) && result_matches(r, spec.1)
}

/// A transaction failure as reported for the whole block.
pub open spec fn wrap_block_error(e: TxError) -> TxError {
    ("transaction_apply_failed"@, "TX apply failed: "@ + e.1)
}

/// The ledger after the first `n` transactions of a block, stopping at the
/// first failure; transactions from the zero address are skipped.
pub open spec fn spec_run(
    l: Ledger,
    epoch: u64,
    vesting: Option<(Address, VestingSchedule)>,
    txs: Seq<Transaction>,
    outs: Seq<Result<(), Seq<char>>>,
    n: nat,
) -> (Ledger, Result<(), TxError>)
    decreases n,
{
    if n == 0 {
        (l, Ok(()))
    } else {
        let prev = spec_run(l, epoch, vesting, txs, outs, (n - 1) as nat);
        if prev.1 is Err {
            prev
        } else if txs[n - 1].from.0@ == zero_address() {
            prev
        } else {
            let step = spec_apply_tx(prev.0, epoch, vesting, txs[n - 1], outs[n - 1]);
            match step.1 {
                Ok(_) => step,
                Err(e) => (step.0, Err(wrap_block_error(e))),
            }
        }
    }
}

/// Saturating sum of the fees of the transactions not from the zero address.
pub open spec fn fee_sum(txs: Seq<Transaction>) -> u64
    decreases txs.len(),
{
    if txs.len() == 0 {
        0
    } else if txs.last().from.0@ == zero_address() {
        fee_sum(txs.drop_last())
    } else {
        sat_add_u64(fee_sum(txs.drop_last()), txs.last().fee)
    }
}

pub open spec fn spec_metabolic_burn(p: TokenomicsParams, fee: u64) -> u64 {
    ((fee * p.tx_fee_burn_ratio_fixed) / FIXED_POINT_SCALE as int) as u64
}

/// Saturating sum of the metabolic burns of those fees.
pub open spec fn burn_sum(p: TokenomicsParams, txs: Seq<Transaction>) -> u64
    decreases txs.len(),
{
    if txs.len() == 0 {
        0
    } else if txs.last().from.0@ == zero_address() {
        burn_sum(p, txs.drop_last())
    } else {
        sat_add_u64(burn_sum(p, txs.drop_last()), spec_metabolic_burn(p, txs.last().fee))
    }
}

/// Room left under the supply cap.
pub open spec fn cap_room_of(l: Ledger) -> u128 {
    let supply = supply_of(l.accounts, l.validators);
    if supply >= BUD_TOTAL_SUPPLY as u128 {
        0
    } else {
        (BUD_TOTAL_SUPPLY as u128 - supply) as u128
    }
}

/// The part of the block reward that fits under the cap.
pub open spec fn block_reward_paid(cap_room: u128, block_reward: u64) -> u64 {
    if cap_room >= block_reward as u128 {
        block_reward
    } else {
        cap_room as u64
    }
}

/// The fee share paid to the producer: all of it while the whole block
/// reward fits, else what room is left after the clamped block reward.
pub open spec fn fee_paid(cap_room: u128, block_reward: u64, fee_remainder: u64) -> u64 {
    if cap_room >= block_reward as u128 {
        fee_remainder
    } else {
        let paid = block_reward_paid(cap_room, block_reward);
        let room_after: u128 = if cap_room >= paid as u128 { (cap_room - paid) as u128 } else { 0 };
        if fee_remainder as u128 <= room_after {
            fee_remainder
        } else {
            room_after as u64
        }
    }
}

/// What the producer is credited: clamped block reward plus fee share,
/// where the fee share is the fees less the metabolic burn.
pub open spec fn producer_reward(cap_room: u128, block_reward: u64, fees: u64, burn: u64) -> u64 {
    sat_add_u64(block_reward_paid(cap_room, block_reward), fee_paid(cap_room, block_reward, sat_sub_u64(fees, burn)))
}

/// The block's fixed-width arithmetic stays in range: each transaction the
/// block reaches fits on the ledger the transactions before it left.
pub open spec fn block_fits(
    l: Ledger,
    epoch: u64,
    vesting: Option<(Address, VestingSchedule)>,
    txs: Seq<Transaction>,
    outs: Seq<Result<(), Seq<char>>>,
) -> bool {
    forall|i: int|
        0 <= i < txs.len() && #[trigger] spec_run(l, epoch, vesting, txs, outs, i as nat).1 is Ok ==> tx_fits(
            spec_run(l, epoch, vesting, txs, outs, i as nat).0,
            epoch,
            txs[i],
        )
}

/// The whole block: its transactions in order, then, if a producer is named
/// and every transaction applied, the producer's reward.
pub open spec fn spec_apply_block(
    l: Ledger,
    epoch: u64,
    vesting: Option<(Address, VestingSchedule)>,
    tokenomics: TokenomicsParams,
    txs: Seq<Transaction>,
    outs: Seq<Result<(), Seq<char>>>,
    producer: Option<Seq<u8>>,
) -> (Ledger, Result<(), TxError>) {
    let run = spec_run(l, epoch, vesting, txs, outs, txs.len());
    if run.1 is Err {
        run
    } else {
        match producer {
            None => run,
            Some(p) => {
                let reward = producer_reward(
                    cap_room_of(run.0),
                    tokenomics.block_reward,
                    fee_sum(txs),
                    burn_sum(tokenomics, txs),
                );
                if reward > 0 {
                    (Ledger { accounts: credited(run.0.accounts, p, reward), ..run.0 }, Ok(()))
                } else {
                    run
                }
            },
        }
    }
}

pub open spec fn outcome_views(o: Seq<Result<(), String>>) -> Seq<Result<(), Seq<char>>> {
    o.map_values(|x: Result<(), String>| outcome_view(x))
}

/// Once a run has failed, later transactions change nothing.
proof fn lemma_run_stops(
    l: Ledger,
    epoch: u64,
    vesting: Option<(Address, VestingSchedule)>,
    txs: Seq<Transaction>,
    outs: Seq<Result<(), Seq<char>>>,
    k: nat,
    m: nat,
)
    requires
        k <= m,
        spec_run(l, epoch, vesting, txs, outs, k).1 is Err,
    ensures
        spec_run(l, epoch, vesting, txs, outs, m) == spec_run(l, epoch, vesting, txs, outs, k),
    decreases m - k,
{
    if k < m {
        lemma_run_stops(l, epoch, vesting, txs, outs, k, (m - 1) as nat);
    }
}


fn err(code: &str, msg: &str) -> (r: Result<(), BudlumError>)
    ensures
        r matches Err(e) && e.code@ == code@ && e.message@ == msg@,
{
    Err(BudlumError::validation(code, msg.to_owned()))
}

/// `a` pays `amount` (saturating) and its nonce advances.
fn charge(state: &mut AccountState, a: &Address, amount: u64)
    requires
        old(state).wf(),
        old(state).accounts@.contains_key(a.0@),
    ensures
        final(state).wf(),
        same_params(*final(state), *old(state)),
        ledger_eq(ledger_of(*final(state)), Ledger { accounts: debited(old(state).accounts@, a.0@, amount), ..ledger_of(*old(state)) }),
{
    let acct = state.get_or_create(a);
    state.set_account(a, Account { balance: acct.balance.saturating_sub(amount), nonce: acct.nonce.saturating_add(1) });
}

/// The little-endian `u64` in `data[start..start + 8]`.
fn read_le_u64(data: &Vec<u8>, start: usize) -> (r: u64)
    requires
        start + 8 <= data@.len(),
    ensures
        r == le_value(data@.subrange(start as int, start + 8)),
{
    let n: usize = data.len();
    let mut word: Vec<u8> = Vec::new();
    let mut k: usize = 0;
    while k < 8
        invariant
            0 <= k <= 8,
            n == data@.len(),
            start + 8 <= data@.len(),
            word@ == data@.subrange(start as int, start + k),
        decreases 8 - k,
    {
        word.push(data[start + k]);
        k = k + 1;
        assert(word@ =~= data@.subrange(start as int, start + k));
    }
    u64_from_le(word.as_slice())
}

pub struct Executor;

impl Executor {
    fn apply_transfer(state: &mut AccountState, tx: &Transaction, total_cost: u64) -> (r: Result<(), BudlumError>)
        requires
            old(state).wf(),
            old(state).accounts@.contains_key(tx.from.0@),
            total_cost == sat_add_u64(tx.amount, tx.fee),
        ensures
            final(state).wf(),
            same_params(*final(state), *old(state)),
            lands(ledger_of(*final(state)), r, spec_transfer(ledger_of(*old(state)), old(state).epoch_index, old(state).team_vesting, *tx)),
    {
        let spendable: u64 = state.spendable_balance(&tx.from);
        if total_cost > spendable {
            let mut msg: String = "Transfer exceeds spendable balance: have ".to_owned();
            msg.append(decimal(spendable).as_str());
            msg.append(", need ");
            msg.append(decimal(total_cost).as_str());
            return Err(BudlumError::validation("vesting_locked", msg));
        }
        charge(state, &tx.from, total_cost);
        state.add_balance(&tx.to, tx.amount);
        Ok(())
    }

    fn apply_stake(state: &mut AccountState, tx: &Transaction, total_cost: u64) -> (r: Result<(), BudlumError>)
        requires
            old(state).wf(),
            old(state).accounts@.contains_key(tx.from.0@),
            total_cost == sat_add_u64(tx.amount, tx.fee),
        ensures
            final(state).wf(),
            same_params(*final(state), *old(state)),
            lands(ledger_of(*final(state)), r, spec_stake(ledger_of(*old(state)), *tx)),
    {
        charge(state, &tx.from, total_cost);
        match state.get_validator(&tx.from) {
            Some(v) => {
                state.set_validator(&tx.from, Validator { stake: v.stake.saturating_add(tx.amount), active: true, ..v });
            },
            None => {
                state.add_validator(tx.from, tx.amount);
            },
        }
        Ok(())
    }

    fn apply_unstake(state: &mut AccountState, tx: &Transaction) -> (r: Result<(), BudlumError>)
        requires
            old(state).wf(),
            old(state).accounts@.contains_key(tx.from.0@),
            (ledger_of(*old(state)).validators.contains_key(tx.from.0@)
                && ledger_of(*old(state)).validators[tx.from.0@].stake >= tx.amount)
                ==> old(state).epoch_index + UNBONDING_EPOCHS <= u64::MAX,
        ensures
            final(state).wf(),
            same_params(*final(state), *old(state)),
            lands(ledger_of(*final(state)), r, spec_unstake(ledger_of(*old(state)), old(state).epoch_index, *tx)),
    {
        let sender_start_balance: u64 = state.get_balance(&tx.from);
        if sender_start_balance < tx.fee {
            return err("insufficient_fee_balance", "Insufficient balance for fee");
        }
        match state.get_validator(&tx.from) {
            Some(v) => {
                if v.stake < tx.amount {
                    return err("insufficient_stake", "Insufficient stake");
                }
                let left: u64 = v.stake - tx.amount;
                state.set_validator(&tx.from, Validator { stake: left, active: if left == 0 { false } else { v.active }, ..v });
            },
            None => {
                return err("not_validator", "Not a validator");
            },
        }
        state.unbonding_queue.push(
            UnbondingEntry { address: tx.from, amount: tx.amount, release_epoch: state.epoch_index + UNBONDING_EPOCHS },
        );
        charge(state, &tx.from, tx.fee);
        Ok(())
    }

    fn apply_vote(state: &mut AccountState, tx: &Transaction) -> (r: Result<(), BudlumError>)
        requires
            old(state).wf(),
            old(state).accounts@.contains_key(tx.from.0@),
            tx_fits(ledger_of(*old(state)), old(state).epoch_index, *tx),
            reaches_effect(ledger_of(*old(state)), *tx),
            tx.tx_type == TransactionType::Vote,
        ensures
            final(state).wf(),
            same_params(*final(state), *old(state)),
            lands(ledger_of(*final(state)), r, spec_vote(ledger_of(*old(state)), old(state).epoch_index, *tx)),
    {
        charge(state, &tx.from, tx.fee);
        let ghost l2 = ledger_of(*state);
        if !tx.to.is_zero() {
            match state.get_validator(&tx.to) {
                Some(target) => {
                    let updated = if tx.amount > 0 {
                        Validator { votes_for: target.votes_for + 1, ..target }
                    } else {
                        Validator { votes_against: target.votes_against + 1, ..target }
                    };
                    assert(updated == voted_on(target, tx.amount));
                    state.set_validator(&tx.to, updated);
                },
                None => {},
            }
            return Ok(());
        }
        if tx.data.len() < 9 {
            return Ok(());
        }
        if tx.data.len() == 9 {
            let vote_for: bool = tx.data[0] != 0;
            let proposal_id: u64 = read_le_u64(&tx.data, 1);
            let voter_stake: u64 = match state.get_validator(&tx.from) {
                Some(v) => v.stake,
                None => 0,
            };
            if voter_stake == 0 {
                return err("governance_voter_not_validator", "Only validators can vote in governance");
            }
            match state.governance.find_proposal(proposal_id) {
                Some(i) => {
                    let ghost g0 = state.governance;
                    match state.governance.add_vote(i, tx.from, voter_stake, vote_for) {
                        Ok(()) => {
                            assert(ledger_of(*state).payloads =~= l2.payloads);
                            Ok(())
                        },
                        Err(e) => Err(BudlumError::validation("governance_vote_failed", e)),
                    }
                },
                None => err("proposal_not_found", "Proposal not found"),
            }
        } else {
            let proposer_stake: u64 = match state.get_validator(&tx.from) {
                Some(v) => v.stake,
                None => 0,
            };
            if proposer_stake == 0 {
                return err(
                    "governance_proposer_not_validator",
                    "Only validators can create governance proposals",
                );
            }
            let duration: u64 = read_le_u64(&tx.data, 0);
            let n: usize = tx.data.len();
            let mut payload: Vec<u8> = Vec::new();
            let mut k: usize = 8;
            while k < n
                invariant
                    8 <= k <= n,
                    n == tx.data@.len(),
                    payload@ == tx.data@.subrange(8, k as int),
                decreases n - k,
            {
                payload.push(tx.data[k]);
                k = k + 1;
                assert(payload@ =~= tx.data@.subrange(8, k as int));
            }
            match json_check(payload.as_slice()) {
                Err(e) => {
                    let mut msg: String = "Invalid proposal data: ".to_owned();
                    msg.append(e.as_str());
                    Err(BudlumError::validation("invalid_proposal_data", msg))
                },
                Ok(()) => {
                    let epoch: u64 = state.epoch_index;
                    let ghost body = payload@;
                    state.governance.create_proposal(tx.from, payload, epoch, duration);
                    assert(ledger_of(*state).payloads =~= l2.payloads.push(body));
                    Ok(())
                },
            }
        }
    }

    fn apply_contract_call(state: &mut AccountState, tx: &Transaction, contract_outcome: &Result<(), String>) -> (r: Result<(), BudlumError>)
        requires
            old(state).wf(),
            old(state).accounts@.contains_key(tx.from.0@),
        ensures
            final(state).wf(),
            same_params(*final(state), *old(state)),
            lands(ledger_of(*final(state)), r, spec_contract_call(ledger_of(*old(state)), *tx, outcome_view(*contract_outcome))),
    {
        match ZkVmExecutor::load_program(tx.data.as_slice()) {
            Err(e) => {
                return Err(BudlumError::validation("contract_execution_failed", e));
            },
            Ok(_) => {},
        }
        match contract_outcome {
            Err(e) => {
                return Err(BudlumError::validation("contract_execution_failed", e.clone()));
            },
            Ok(()) => {},
        }
        charge(state, &tx.from, tx.fee);
        Ok(())
    }

    /// Apply one transaction. `contract_outcome` is the BudZKVM verdict on
    /// the transaction's bytecode; only a contract call with well-formed
    /// bytecode consults it.
    pub fn apply_transaction_checked(state: &mut AccountState, tx: &Transaction, contract_outcome: &Result<(), String>) -> (r: Result<(), BudlumError>)
        requires
            old(state).wf(),
            tx_fits(ledger_of(*old(state)), old(state).epoch_index, *tx),
        ensures
            final(state).wf(),
            same_params(*final(state), *old(state)),
            lands(
                ledger_of(*final(state)),
                r,
                spec_apply_tx(ledger_of(*old(state)), old(state).epoch_index, old(state).team_vesting, *tx, outcome_view(*contract_outcome)),
            ),
    {
        if tx.from.is_zero() {
            return Ok(());
        }
        match tx.tx_type {
            TransactionType::Unstake => {
                if tx.amount == 0 {
                    return err("unstake_amount_zero", "Unstake amount cannot be 0");
                }
                if tx.fee == 0 {
                    return err("unstake_fee_zero", "Unstake fee cannot be 0 (consensus cost-floor)");
                }
            },
            TransactionType::Vote => {
                if tx.fee == 0 {
                    return err("vote_fee_zero", "Vote fee cannot be 0 (consensus cost-floor)");
                }
            },
            _ => {},
        }
        let total_cost: u64 = tx.total_cost();
        let sender: Account = state.get_or_create(&tx.from);
        if sender.balance < total_cost {
            return err("insufficient_balance", "Insufficient balance");
        }
        match tx.tx_type {
            TransactionType::Transfer => Self::apply_transfer(state, tx, total_cost),
            TransactionType::Stake => Self::apply_stake(state, tx, total_cost),
            TransactionType::Unstake => Self::apply_unstake(state, tx),
            TransactionType::Vote => Self::apply_vote(state, tx),
            TransactionType::ContractCall => Self::apply_contract_call(state, tx, contract_outcome),
        }
    }

    /// `apply_transaction_checked` with the error reduced to its message.
    pub fn apply_transaction(state: &mut AccountState, tx: &Transaction, contract_outcome: &Result<(), String>) -> (r: Result<(), String>)
        requires
            old(state).wf(),
            tx_fits(ledger_of(*old(state)), old(state).epoch_index, *tx),
        ensures
            final(state).wf(),
            same_params(*final(state), *old(state)),
            ({
                let s = spec_apply_tx(ledger_of(*old(state)), old(state).epoch_index, old(state).team_vesting, *tx, outcome_view(*contract_outcome));
                &&& ledger_eq(ledger_of(*final(state)), s.0)
                &&& (r is Ok <==> s.1 is Ok)
                &&& (r matches Err(m) ==> s.1 matches Err(e) && m@ == e.1)
            }),
    {
        match Self::apply_transaction_checked(state, tx, contract_outcome) {
            Ok(()) => Ok(()),
            Err(e) => Err(e.message),
        }
    }
    /// Apply a block's transactions in order, stopping at the first failure,
    /// then credit the producer: the block reward clamped to the room under
    /// the supply cap, plus the fees less their metabolic burn (also clamped
    /// when the block reward was). `contract_outcomes[i]` is the BudZKVM
    /// verdict for `transactions[i]`.
    pub fn apply_block_checked(
        state: &mut AccountState,
        transactions: &[Transaction],
        block_producer: Option<&Address>,
        contract_outcomes: &[Result<(), String>],
    ) -> (r: Result<(), BudlumError>)
        requires
            old(state).wf(),
            contract_outcomes@.len() == transactions@.len(),
            block_fits(
                ledger_of(*old(state)),
                old(state).epoch_index,
                old(state).team_vesting,
                transactions@,
                outcome_views(contract_outcomes@),
            ),
        ensures
            final(state).wf(),
            same_params(*final(state), *old(state)),
            lands(
                ledger_of(*final(state)),
                r,
                spec_apply_block(
                    ledger_of(*old(state)),
                    old(state).epoch_index,
                    old(state).team_vesting,
                    old(state).tokenomics,
                    transactions@,
                    outcome_views(contract_outcomes@),
                    match block_producer {
                        Some(p) => Some(p.0@),
                        None => None,
                    },
                ),
            ),
    {
        let ghost l0 = ledger_of(*state);
        let ghost s0 = *state;
        let ghost epoch = state.epoch_index;
        let ghost vesting = state.team_vesting;
        let ghost txs = transactions@;
        let ghost outs = outcome_views(contract_outcomes@);
        let n: usize = transactions.len();
        let mut total_fees: u64 = 0;
        let mut i: usize = 0;
        while i < n
            invariant
                0 <= i <= n,
                n == txs.len(),
                txs == transactions@,
                outs == outcome_views(contract_outcomes@),
                contract_outcomes@.len() == n,
                state.wf(),
                same_params(*state, s0),
                s0 == *old(state),
                epoch == s0.epoch_index,
                vesting == s0.team_vesting,
                l0 == ledger_of(s0),
                spec_run(l0, epoch, vesting, txs, outs, i as nat).1 is Ok,
                ledger_of(*state) == spec_run(l0, epoch, vesting, txs, outs, i as nat).0,
                total_fees == fee_sum(txs.subrange(0, i as int)),
                block_fits(l0, epoch, vesting, txs, outs),
            decreases n - i,
        {
            let tx: &Transaction = &transactions[i];
            proof {
                assert(txs.subrange(0, i + 1).drop_last() =~= txs.subrange(0, i as int));
                assert(txs.subrange(0, i + 1).last() == txs[i as int]);
            }
            if !tx.from.is_zero() {
                proof {
                    assert(spec_run(l0, epoch, vesting, txs, outs, i as nat).1 is Ok);
                    assert(tx_fits(ledger_of(*state), epoch, *tx));
                    assert(outcome_view(contract_outcomes@[i as int]) == outs[i as int]);
                }
                let ghost before = ledger_of(*state);
                let res = Self::apply_transaction_checked(state, tx, &contract_outcomes[i]);
                proof {
                    lemma_ledger_ext(ledger_of(*state), spec_apply_tx(before, epoch, vesting, *tx, outs[i as int]).0);
                }
                match res {
                    Err(e) => {
                        let mut msg: String = "TX apply failed: ".to_owned();
                        msg.append(e.message.as_str());
                        proof {
                            lemma_run_stops(l0, epoch, vesting, txs, outs, (i + 1) as nat, n as nat);
                        }
                        return Err(BudlumError::validation("transaction_apply_failed", msg));
                    },
                    Ok(()) => {
                        total_fees = total_fees.saturating_add(tx.fee);
                    },
                }
            }
            i = i + 1;
        }
        assert(txs.subrange(0, n as int) =~= txs);
        let tokenomics: TokenomicsParams = state.tokenomics;
        let block_reward: u64 = tokenomics.block_reward;
        let mut total_burn: u64 = 0;
        let mut j: usize = 0;
        while j < n
            invariant
                0 <= j <= n,
                n == txs.len(),
                txs == transactions@,
                total_burn == burn_sum(tokenomics, txs.subrange(0, j as int)),
            decreases n - j,
        {
            proof {
                assert(txs.subrange(0, j + 1).drop_last() =~= txs.subrange(0, j as int));
                assert(txs.subrange(0, j + 1).last() == txs[j as int]);
            }
            if !transactions[j].from.is_zero() {
                total_burn = total_burn.saturating_add(tokenomics.metabolic_burn(transactions[j].fee));
            }
            j = j + 1;
        }
        match block_producer {
            Some(producer) => {
                let max_supply: u128 = 100_000_000_000_000u128;
                let current_supply: u128 = state.circulating_supply();
                let cap_room: u128 = max_supply.saturating_sub(current_supply);
                let block_reward_paid: u64 = if cap_room >= block_reward as u128 {
                    block_reward
                } else {
                    cap_room as u64
                };
                let fee_remainder: u64 = total_fees.saturating_sub(total_burn);
                let fee_paid: u64 = if cap_room >= block_reward as u128 {
                    fee_remainder
                } else {
                    let room_after_block: u128 = cap_room.saturating_sub(block_reward_paid as u128);
                    if (fee_remainder as u128) <= room_after_block {
                        fee_remainder
                    } else {
                        room_after_block as u64
                    }
                };
                let reward: u64 = block_reward_paid.saturating_add(fee_paid);
                if reward > 0 {
                    state.add_balance(producer, reward);
                }
                Ok(())
            },
            None => Ok(()),
        }
    }

    /// `apply_block_checked` with the error reduced to its message.
    pub fn apply_block(
        state: &mut AccountState,
        transactions: &[Transaction],
        block_producer: Option<&Address>,
        contract_outcomes: &[Result<(), String>],
    ) -> (r: Result<(), String>)
        requires
            old(state).wf(),
            contract_outcomes@.len() == transactions@.len(),
            block_fits(
                ledger_of(*old(state)),
                old(state).epoch_index,
                old(state).team_vesting,
                transactions@,
                outcome_views(contract_outcomes@),
            ),
        ensures
            final(state).wf(),
            same_params(*final(state), *old(state)),
            ({
                let s = spec_apply_block(
                    ledger_of(*old(state)),
                    old(state).epoch_index,
                    old(state).team_vesting,
                    old(state).tokenomics,
                    transactions@,
                    outcome_views(contract_outcomes@),
                    match block_producer {
                        Some(p) => Some(p.0@),
                        None => None,
                    },
                );
                &&& ledger_eq(ledger_of(*final(state)), s.0)
                &&& (r is Ok <==> s.1 is Ok)
                &&& (r matches Err(m) ==> s.1 matches Err(e) && m@ == e.1)
            }),
    {
        match Self::apply_block_checked(state, transactions, block_producer, contract_outcomes) {
            Ok(()) => Ok(()),
            Err(e) => Err(e.message),
        }
    }
}

/// Consensus cost floor: a zero-fee unstake or vote (or a zero-amount
/// unstake) from a real sender is refused, and the ledger is left exactly as
/// it was; nothing is created or charged.
pub proof fn law_cost_floor_refusals_touch_nothing(
    l: Ledger,
    epoch: u64,
    vesting: Option<(Address, VestingSchedule)>,
    tx: Transaction,
    vm: Result<(), Seq<char>>,
)
    requires
        tx.from.0@ != zero_address(),
        (tx.tx_type == TransactionType::Unstake && (tx.amount == 0 || tx.fee == 0)) || (tx.tx_type
            == TransactionType::Vote && tx.fee == 0),
    ensures
        spec_apply_tx(l, epoch, vesting, tx, vm).0 == l,
        spec_apply_tx(l, epoch, vesting, tx, vm).1 is Err,
{
}

/// A transaction touches no account but its sender's and its recipient's:
/// every other account is present or absent as before, with the same balance
/// and nonce.
pub proof fn law_transaction_touches_only_its_parties(
    l: Ledger,
    epoch: u64,
    vesting: Option<(Address, VestingSchedule)>,
    tx: Transaction,
    vm: Result<(), Seq<char>>,
    k: Seq<u8>,
)
    requires
        k != tx.from.0@,
        k != tx.to.0@,
    ensures
        ({
            let r = spec_apply_tx(l, epoch, vesting, tx, vm).0;
            &&& r.accounts.contains_key(k) == l.accounts.contains_key(k)
            &&& l.accounts.contains_key(k) ==> r.accounts[k] == l.accounts[k]
        }),
{
}

/// Whether `k` is the sender or the recipient of one of the first `n`
/// transactions.
pub open spec fn is_party(txs: Seq<Transaction>, n: nat, k: Seq<u8>) -> bool {
    exists|i: int| 0 <= i < n && (txs[i].from.0@ == k || txs[i].to.0@ == k)
}

/// Account `k` is the same in both maps: present in both with the same
/// value, or absent from both.
pub open spec fn same_account(a: Map<Seq<u8>, Account>, b: Map<Seq<u8>, Account>, k: Seq<u8>) -> bool {
    &&& a.contains_key(k) == b.contains_key(k)
    &&& b.contains_key(k) ==> a[k] == b[k]
}

proof fn lemma_run_touches_only_parties(
    l: Ledger,
    epoch: u64,
    vesting: Option<(Address, VestingSchedule)>,
    txs: Seq<Transaction>,
    outs: Seq<Result<(), Seq<char>>>,
    n: nat,
    k: Seq<u8>,
)
    requires
        !is_party(txs, n, k),
    ensures
        same_account(spec_run(l, epoch, vesting, txs, outs, n).0.accounts, l.accounts, k),
    decreases n,
{
    if n > 0 {
        assert(!is_party(txs, (n - 1) as nat, k)) by {
            if is_party(txs, (n - 1) as nat, k) {
                let i = choose|i: int| 0 <= i < n - 1 && (txs[i].from.0@ == k || txs[i].to.0@ == k);
                assert(0 <= i < n && (txs[i].from.0@ == k || txs[i].to.0@ == k));
            }
        }
        lemma_run_touches_only_parties(l, epoch, vesting, txs, outs, (n - 1) as nat, k);
        let prev = spec_run(l, epoch, vesting, txs, outs, (n - 1) as nat);
        assert(!(txs[n - 1].from.0@ == k || txs[n - 1].to.0@ == k)) by {
            if txs[n - 1].from.0@ == k || txs[n - 1].to.0@ == k {
                assert(0 <= n - 1 < n && (txs[n - 1].from.0@ == k || txs[n - 1].to.0@ == k));
            }
        }
        law_transaction_touches_only_its_parties(prev.0, epoch, vesting, txs[n - 1], outs[n - 1], k);
    }
}

/// A block touches no account but those of its transactions' senders and
/// recipients and of its producer, whatever its outcome.
pub proof fn law_block_touches_only_its_parties(
    l: Ledger,
    epoch: u64,
    vesting: Option<(Address, VestingSchedule)>,
    tokenomics: TokenomicsParams,
    txs: Seq<Transaction>,
    outs: Seq<Result<(), Seq<char>>>,
    producer: Option<Seq<u8>>,
    k: Seq<u8>,
)
    requires
        !is_party(txs, txs.len(), k),
        producer != Some(k),
    ensures
        same_account(spec_apply_block(l, epoch, vesting, tokenomics, txs, outs, producer).0.accounts, l.accounts, k),
{
    lemma_run_touches_only_parties(l, epoch, vesting, txs, outs, txs.len(), k);
}

/// A successful transfer between two accounts conserves value: what the
/// sender and the recipient hold together drops by exactly the fee (when
/// neither the cost nor the recipient's new balance would overflow).
pub proof fn law_transfer_conserves_value(
    l: Ledger,
    epoch: u64,
    vesting: Option<(Address, VestingSchedule)>,
    tx: Transaction,
    vm: Result<(), Seq<char>>,
)
    requires
        tx.tx_type == TransactionType::Transfer,
        tx.from.0@ != zero_address(),
        tx.from.0@ != tx.to.0@,
        tx.amount + tx.fee <= u64::MAX,
        balance_in(l.accounts, tx.to.0@) + tx.amount <= u64::MAX,
        spec_apply_tx(l, epoch, vesting, tx, vm).1 is Ok,
    ensures
        ({
            let r = spec_apply_tx(l, epoch, vesting, tx, vm).0;
            balance_in(r.accounts, tx.from.0@) + balance_in(r.accounts, tx.to.0@) + tx.fee == balance_in(
                l.accounts,
                tx.from.0@,
            ) + balance_in(l.accounts, tx.to.0@)
        }),
{
}

/// The stake a ledger records for `a` (0 for a non-validator).
pub open spec fn stake_in(v: Map<Seq<u8>, Validator>, a: Seq<u8>) -> u64 {
    if v.contains_key(a) {
        v[a].stake
    } else {
        0
    }
}

/// A successful stake moves the amount from the sender's balance into its
/// stake: balance plus stake drops by exactly the fee (when neither the cost
/// nor the new stake would overflow).
pub proof fn law_stake_conserves_value(
    l: Ledger,
    epoch: u64,
    vesting: Option<(Address, VestingSchedule)>,
    tx: Transaction,
    vm: Result<(), Seq<char>>,
)
    requires
        tx.tx_type == TransactionType::Stake,
        tx.from.0@ != zero_address(),
        tx.amount + tx.fee <= u64::MAX,
        stake_in(l.validators, tx.from.0@) + tx.amount <= u64::MAX,
        spec_apply_tx(l, epoch, vesting, tx, vm).1 is Ok,
    ensures
        ({
            let r = spec_apply_tx(l, epoch, vesting, tx, vm).0;
            balance_in(r.accounts, tx.from.0@) + stake_in(r.validators, tx.from.0@) + tx.fee == balance_in(
                l.accounts,
                tx.from.0@,
            ) + stake_in(l.validators, tx.from.0@)
        }),
{
}

/// A successful unstake moves the amount from the stake into the unbonding
/// queue and charges only the fee: balance plus stake plus queued amounts
/// drops by exactly the fee.
pub proof fn law_unstake_conserves_value(
    l: Ledger,
    epoch: u64,
    vesting: Option<(Address, VestingSchedule)>,
    tx: Transaction,
    vm: Result<(), Seq<char>>,
)
    requires
        tx.tx_type == TransactionType::Unstake,
        tx.from.0@ != zero_address(),
        spec_apply_tx(l, epoch, vesting, tx, vm).1 is Ok,
    ensures
        ({
            let r = spec_apply_tx(l, epoch, vesting, tx, vm).0;
            &&& r.unbonding == l.unbonding.push(
                UnbondingEntry { address: tx.from, amount: tx.amount, release_epoch: (epoch + UNBONDING_EPOCHS) as u64 },
            )
            &&& balance_in(r.accounts, tx.from.0@) + stake_in(r.validators, tx.from.0@) + tx.amount + tx.fee
                == balance_in(l.accounts, tx.from.0@) + stake_in(l.validators, tx.from.0@)
        }),
{
}

/// A successful transfer between two accounts takes exactly its fee out of
/// the total of all balances: whatever the sender gives up beyond the fee,
/// the recipient holds, and no one else's balance moves (when neither the
/// cost nor the recipient's new balance would overflow, and both ledgers are
/// well formed).
pub proof fn law_transfer_removes_only_its_fee(
    l: Ledger,
    epoch: u64,
    vesting: Option<(Address, VestingSchedule)>,
    tx: Transaction,
    vm: Result<(), Seq<char>>,
)
    requires
        tx.tx_type == TransactionType::Transfer,
        tx.from.0@ != zero_address(),
        tx.from.0@ != tx.to.0@,
        tx.amount + tx.fee <= u64::MAX,
        balance_in(l.accounts, tx.to.0@) + tx.amount <= u64::MAX,
        spec_apply_tx(l, epoch, vesting, tx, vm).1 is Ok,
        has_listing(l.accounts),
        has_listing(spec_apply_tx(l, epoch, vesting, tx, vm).0.accounts),
    ensures
        balance_total(sorted_entries(spec_apply_tx(l, epoch, vesting, tx, vm).0.accounts)) + tx.fee
            == balance_total(sorted_entries(l.accounts)),
{
    let m = l.accounts;
    let r = spec_apply_tx(l, epoch, vesting, tx, vm).0.accounts;
    let from = tx.from.0@;
    let to = tx.to.0@;
    law_transfer_conserves_value(l, epoch, vesting, tx, vm);
    lemma_total_split(m, from);
    lemma_total_split(m.remove(from), to);
    lemma_total_split(r, from);
    lemma_total_split(r.remove(from), to);
    assert(balance_in(m.remove(from), to) == balance_in(m, to));
    assert(balance_in(r.remove(from), to) == balance_in(r, to));
    assert forall|k: Seq<u8>| k != from && k != to implies same_account(r, m, k) by {
        law_transaction_touches_only_its_parties(l, epoch, vesting, tx, vm, k);
    }
    assert(r.remove(from).remove(to) =~= m.remove(from).remove(to)) by {
        assert forall|k: Seq<u8>| #[trigger] r.remove(from).remove(to).contains_key(k) == m.remove(from).remove(
            to,
        ).contains_key(k) by {
            if k != from && k != to {
                assert(same_account(r, m, k));
            }
        }
        assert forall|k: Seq<u8>| #[trigger] r.remove(from).remove(to).contains_key(k) implies r.remove(from).remove(
            to,
        )[k] == m.remove(from).remove(to)[k] by {
            assert(same_account(r, m, k));
        }
    }
}

/// System transactions (from the zero address) are accepted and change
/// nothing.
pub proof fn law_system_transactions_are_inert(
    l: Ledger,
    epoch: u64,
    vesting: Option<(Address, VestingSchedule)>,
    tx: Transaction,
    vm: Result<(), Seq<char>>,
)
    requires
        tx.from.0@ == zero_address(),
    ensures
        spec_apply_tx(l, epoch, vesting, tx, vm) == (l, Ok::<(), TxError>(())),
{
}

/// Supply cap: the minted block reward never exceeds the room left under
/// the cap, and once the block reward has to be clamped, reward and fee
/// share together stay within that room.
pub proof fn law_block_reward_within_cap_room(cap_room: u128, block_reward: u64, fee_remainder: u64)
    ensures
        block_reward_paid(cap_room, block_reward) <= cap_room,
        cap_room < block_reward ==> block_reward_paid(cap_room, block_reward) + fee_paid(
            cap_room,
            block_reward,
            fee_remainder,
        ) <= cap_room,
{
}

/// A governance ballot (9 data bytes, no target) that is accepted counts the
/// voter's stake on the side its first byte chooses: 0 is a vote against,
/// which raises the votes against (up to `u64::MAX`) and leaves the votes for
/// as they were; any other byte is a vote for, the other way round. Only
/// validators' ballots are accepted.
pub proof fn law_governance_ballot_side(l: Ledger, epoch: u64, tx: Transaction, i: int)
    requires
        tx.to.0@ == zero_address(),
        tx.data@.len() == 9,
        find_index(l.proposals, le_value(tx.data@.subrange(1, 9)) as u64) == Some(i),
        0 <= i < l.proposals.len(),
        spec_vote_effect(l, epoch, tx).1 is Ok,
    ensures
        ({
            let r = spec_vote_effect(l, epoch, tx).0;
            let before = l.proposals[i];
            let after = r.proposals[i];
            let stake = l.validators[tx.from.0@].stake;
            &&& l.validators.contains_key(tx.from.0@) && stake > 0
            &&& tx.data@[0] == 0 ==> after.votes_for == before.votes_for && after.votes_against == (if before.votes_against
                + stake <= u64::MAX {
                (before.votes_against + stake) as u64
            } else {
                u64::MAX
            })
            &&& tx.data@[0] != 0 ==> after.votes_against == before.votes_against && after.votes_for == (if before.votes_for
                + stake <= u64::MAX {
                (before.votes_for + stake) as u64
            } else {
                u64::MAX
            })
        }),
{
}

/// A rejected transaction in a block fails the whole block: no producer
/// reward is paid and the error names the failed transaction.
pub proof fn law_failed_block_pays_no_reward(
    l: Ledger,
    epoch: u64,
    vesting: Option<(Address, VestingSchedule)>,
    tokenomics: TokenomicsParams,
    txs: Seq<Transaction>,
    outs: Seq<Result<(), Seq<char>>>,
    producer: Option<Seq<u8>>,
)
    requires
        spec_run(l, epoch, vesting, txs, outs, txs.len()).1 is Err,
    ensures
        spec_apply_block(l, epoch, vesting, tokenomics, txs, outs, producer) == spec_run(
            l,
            epoch,
            vesting,
            txs,
            outs,
            txs.len(),
        ),
        spec_apply_block(l, epoch, vesting, tokenomics, txs, outs, producer).1 matches Err(e) && e.0
            == "transaction_apply_failed"@,
{
    lemma_run_error_code(l, epoch, vesting, txs, outs, txs.len());
}

proof fn lemma_run_error_code(
    l: Ledger,
    epoch: u64,
    vesting: Option<(Address, VestingSchedule)>,
    txs: Seq<Transaction>,
    outs: Seq<Result<(), Seq<char>>>,
    n: nat,
)
    requires
        spec_run(l, epoch, vesting, txs, outs, n).1 is Err,
    ensures
        spec_run(l, epoch, vesting, txs, outs, n).1 matches Err(e) && e.0 == "transaction_apply_failed"@,
    decreases n,
{
    if n > 0 {
        let prev = spec_run(l, epoch, vesting, txs, outs, (n - 1) as nat);
        if prev.1 is Err {
            lemma_run_error_code(l, epoch, vesting, txs, outs, (n - 1) as nat);
        }
    }
}

} // verus!
