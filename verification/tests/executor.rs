use budlum_core::core_types::account::AccountState;
use budlum_core::core_types::address::Address;
use budlum_core::core_types::transaction::{Transaction, TransactionType};
use budlum_core::execution::executor::Executor;
use budlum_core::tokenomics::VestingSchedule;

fn ok() -> Result<(), String> {
    Ok(())
}

#[test]
fn test_apply_block_reward() {
    let mut state = AccountState::new();
    let producer = Address::from_hex(&"0".repeat(64)).unwrap();
    let txs: Vec<Transaction> = vec![];

    Executor::apply_block(&mut state, &txs, Some(&producer), &[]).unwrap();

    let reward = state.tokenomics.block_reward;
    let account = state.get_or_create(&producer);
    assert_eq!(account.balance, reward);
}

#[test]
fn test_apply_block_reward_with_fees() {
    let mut state = AccountState::new();
    let producer = Address::from_hex(&"01".repeat(32)).unwrap();
    let alice = Address::from_hex(&"02".repeat(32)).unwrap();
    state.add_balance(&alice, 100);

    let mut tx = Transaction::new(alice, Address::zero(), 10, vec![]);
    tx.fee = 5;
    tx.nonce = 0;

    Executor::apply_block(&mut state, &[tx], Some(&producer), &[ok()]).unwrap();

    let reward = state.tokenomics.block_reward;
    let producer_acc = state.get_or_create(&producer);
    assert_eq!(producer_acc.balance, reward + 5);

    let alice_acc = state.get_or_create(&alice);
    assert_eq!(alice_acc.balance, 100 - 15);
}

#[test]
fn test_vote_for_transaction() {
    let mut state = AccountState::new();
    let alice = Address::from_hex(&"01".repeat(32)).unwrap();
    let val_pubkey = Address::from_hex(&"02".repeat(32)).unwrap();

    state.add_balance(&alice, 100);
    state.add_validator(val_pubkey, 1000);

    let mut tx = Transaction::new(alice, val_pubkey, 1, vec![]);
    tx.tx_type = TransactionType::Vote;
    tx.fee = 2;

    Executor::apply_transaction(&mut state, &tx, &ok()).unwrap();

    let validator = state.get_validator(&val_pubkey).unwrap();
    assert_eq!(validator.votes_for, 1);
    assert_eq!(validator.votes_against, 0);

    let alice_acc = state.get_or_create(&alice);
    assert_eq!(alice_acc.balance, 98);
}

#[test]
fn test_vote_against_transaction() {
    let mut state = AccountState::new();
    let alice = Address::from_hex(&"01".repeat(32)).unwrap();
    let val_pubkey = Address::from_hex(&"02".repeat(32)).unwrap();

    state.add_balance(&alice, 100);
    state.add_validator(val_pubkey, 1000);

    let mut tx = Transaction::new(alice, val_pubkey, 0, vec![]);
    tx.tx_type = TransactionType::Vote;
    tx.fee = 2;

    Executor::apply_transaction(&mut state, &tx, &ok()).unwrap();

    let validator = state.get_validator(&val_pubkey).unwrap();
    assert_eq!(validator.votes_for, 0);
    assert_eq!(validator.votes_against, 1);
}

#[test]
fn consensus_rejects_zero_fee_unstake() {
    let mut state = AccountState::new();
    let alice = Address::from_hex(&"01".repeat(32)).unwrap();
    state.add_balance(&alice, 1_000_000);
    state.add_validator(alice, 1_000);

    let mut tx = Transaction::new(alice, Address::zero(), 100, vec![]);
    tx.tx_type = TransactionType::Unstake;
    tx.fee = 0;
    tx.nonce = 0;

    let err = Executor::apply_transaction(&mut state, &tx, &ok())
        .expect_err("zero-fee Unstake must be rejected at consensus");
    assert!(
        err.contains("unstake_fee_zero") || err.contains("Unstake fee cannot be 0"),
        "expected cost-floor error, got: {err}"
    );
}

#[test]
fn consensus_rejects_zero_amount_unstake() {
    let mut state = AccountState::new();
    let alice = Address::from_hex(&"01".repeat(32)).unwrap();
    state.add_balance(&alice, 1_000_000);
    state.add_validator(alice, 1_000);

    let mut tx = Transaction::new(alice, Address::zero(), 0, vec![]);
    tx.tx_type = TransactionType::Unstake;
    tx.fee = 1;
    tx.nonce = 0;

    let err = Executor::apply_transaction(&mut state, &tx, &ok())
        .expect_err("zero-amount Unstake must be rejected at consensus");
    assert!(
        err.contains("unstake_amount_zero") || err.contains("Unstake amount cannot be 0"),
        "expected amount-zero error, got: {err}"
    );
}

#[test]
fn consensus_rejects_zero_fee_vote() {
    let mut state = AccountState::new();
    let alice = Address::from_hex(&"01".repeat(32)).unwrap();
    state.add_balance(&alice, 1_000_000);
    state.add_validator(alice, 1_000);

    let mut data = vec![1u8];
    data.extend_from_slice(&42u64.to_le_bytes());
    let mut tx = Transaction::new(alice, Address::zero(), 0, data);
    tx.tx_type = TransactionType::Vote;
    tx.fee = 0;
    tx.nonce = 0;

    let err = Executor::apply_transaction(&mut state, &tx, &ok())
        .expect_err("zero-fee Vote must be rejected at consensus");
    assert!(
        err.contains("vote_fee_zero") || err.contains("Vote fee cannot be 0"),
        "expected cost-floor error, got: {err}"
    );
}

fn addr(b: u8) -> Address {
    Address::from([b; 32])
}

#[test]
fn transfer_moves_amount_and_charges_fee() {
    let mut state = AccountState::new();
    state.add_balance(&addr(1), 100);
    let mut tx = Transaction::new(addr(1), addr(2), 30, vec![]);
    tx.fee = 4;
    Executor::apply_transaction(&mut state, &tx, &ok()).unwrap();
    assert_eq!(state.get_balance(&addr(1)), 66);
    assert_eq!(state.get_nonce(&addr(1)), 1);
    assert_eq!(state.get_balance(&addr(2)), 30);
}

#[test]
fn insufficient_balance_creates_the_sender_and_fails() {
    let mut state = AccountState::new();
    let tx = Transaction::new(addr(7), addr(2), 30, vec![]);
    let err = Executor::apply_transaction(&mut state, &tx, &ok()).unwrap_err();
    assert_eq!(err, "Insufficient balance");
    assert_eq!(state.get_balance(&addr(7)), 0);
    assert_eq!(state.get_nonce(&addr(7)), 0);
}

#[test]
fn system_transactions_change_nothing() {
    let mut state = AccountState::new();
    let root = state.calculate_state_root();
    let tx = Transaction::genesis();
    Executor::apply_transaction(&mut state, &tx, &ok()).unwrap();
    assert_eq!(state.calculate_state_root(), root);
}

#[test]
fn vesting_lock_blocks_team_transfers() {
    let mut state = AccountState::new();
    state.add_balance(&addr(9), 1_000);
    state.team_vesting = Some((
        addr(9),
        VestingSchedule { total: 1_000, start_epoch: 0, cliff_epochs: 10, duration_epochs: 100 },
    ));
    let mut tx = Transaction::new(addr(9), addr(2), 5, vec![]);
    tx.fee = 1;
    let err = Executor::apply_transaction(&mut state, &tx, &ok()).unwrap_err();
    assert_eq!(err, "Transfer exceeds spendable balance: have 0, need 6");
}

#[test]
fn stake_then_unstake_queues_unbonding() {
    let mut state = AccountState::new();
    state.add_balance(&addr(3), 1_000);
    let mut stake = Transaction::new(addr(3), Address::zero(), 400, vec![]);
    stake.tx_type = TransactionType::Stake;
    stake.fee = 1;
    Executor::apply_transaction(&mut state, &stake, &ok()).unwrap();
    assert_eq!(state.get_balance(&addr(3)), 599);
    assert_eq!(state.get_validator(&addr(3)).unwrap().stake, 400);

    let mut unstake = Transaction::new(addr(3), Address::zero(), 400, vec![]);
    unstake.tx_type = TransactionType::Unstake;
    unstake.fee = 1;
    Executor::apply_transaction(&mut state, &unstake, &ok()).unwrap();
    let v = state.get_validator(&addr(3)).unwrap();
    assert_eq!(v.stake, 0);
    assert!(!v.active);
    assert_eq!(state.unbonding_queue.len(), 1);
    assert_eq!(state.unbonding_queue[0].amount, 400);
    assert_eq!(state.get_balance(&addr(3)), 598);

    let err = Executor::apply_transaction(&mut state, &unstake, &ok()).unwrap_err();
    assert_eq!(err, "Insufficient stake");
}

#[test]
fn unstake_by_non_validator_is_refused() {
    let mut state = AccountState::new();
    state.add_balance(&addr(3), 1_000);
    let mut unstake = Transaction::new(addr(3), Address::zero(), 10, vec![]);
    unstake.tx_type = TransactionType::Unstake;
    unstake.fee = 1;
    assert_eq!(
        Executor::apply_transaction(&mut state, &unstake, &ok()).unwrap_err(),
        "Not a validator"
    );
}

#[test]
fn governance_proposal_then_vote() {
    let mut state = AccountState::new();
    state.add_balance(&addr(1), 1_000);
    state.add_validator(addr(1), 500);

    let mut data = 10u64.to_le_bytes().to_vec();
    data.extend_from_slice(b"{\"kind\":\"param\"}");
    let mut propose = Transaction::new(addr(1), Address::zero(), 0, data);
    propose.tx_type = TransactionType::Vote;
    propose.fee = 1;
    Executor::apply_transaction(&mut state, &propose, &ok()).unwrap();
    assert_eq!(state.governance.proposals.len(), 1);
    assert_eq!(state.governance.proposals[0].id, 0);
    assert_eq!(state.governance.proposals[0].end_epoch, 10);

    let mut ballot = vec![1u8];
    ballot.extend_from_slice(&0u64.to_le_bytes());
    let mut vote = Transaction::new(addr(1), Address::zero(), 0, ballot);
    vote.tx_type = TransactionType::Vote;
    vote.fee = 1;
    Executor::apply_transaction(&mut state, &vote, &ok()).unwrap();
    assert_eq!(state.governance.proposals[0].votes_for, 500);

    let err = Executor::apply_transaction(&mut state, &vote, &ok()).unwrap_err();
    assert_eq!(err, "Voter has already voted on this proposal");

    let mut missing = vec![0u8];
    missing.extend_from_slice(&9u64.to_le_bytes());
    let mut vote2 = Transaction::new(addr(1), Address::zero(), 0, missing);
    vote2.tx_type = TransactionType::Vote;
    vote2.fee = 1;
    assert_eq!(
        Executor::apply_transaction(&mut state, &vote2, &ok()).unwrap_err(),
        "Proposal not found"
    );
}

#[test]
fn malformed_proposal_body_is_refused() {
    let mut state = AccountState::new();
    state.add_balance(&addr(1), 1_000);
    state.add_validator(addr(1), 500);
    let mut data = 10u64.to_le_bytes().to_vec();
    data.extend_from_slice(b"{not json");
    let mut propose = Transaction::new(addr(1), Address::zero(), 0, data);
    propose.tx_type = TransactionType::Vote;
    propose.fee = 1;
    let err = Executor::apply_transaction(&mut state, &propose, &ok()).unwrap_err();
    assert!(err.starts_with("Invalid proposal data: "));
    assert_eq!(state.get_balance(&addr(1)), 999);
}

#[test]
fn contract_call_checks_bytecode_then_vm_outcome() {
    let mut state = AccountState::new();
    state.add_balance(&addr(3), 100);
    let empty = Transaction::new_contract_call(addr(3), 7, 0, vec![]);
    assert_eq!(
        Executor::apply_transaction(&mut state, &empty, &ok()).unwrap_err(),
        "Empty BudZKVM bytecode"
    );
    let ragged = Transaction::new_contract_call(addr(3), 7, 0, vec![1, 2, 3]);
    assert_eq!(
        Executor::apply_transaction(&mut state, &ragged, &ok()).unwrap_err(),
        "BudZKVM bytecode length must be a multiple of 8 bytes"
    );
    let good = Transaction::new_contract_call(addr(3), 7, 0, vec![0u8; 16]);
    assert_eq!(
        Executor::apply_transaction(&mut state, &good, &Err("BudZKVM execution failed".to_string()))
            .unwrap_err(),
        "BudZKVM execution failed"
    );
    Executor::apply_transaction(&mut state, &good, &ok()).unwrap();
    assert_eq!(state.get_balance(&addr(3)), 93);
    assert_eq!(state.get_nonce(&addr(3)), 1);
}

#[test]
fn failing_transaction_fails_the_block_without_reward() {
    let mut state = AccountState::new();
    let producer = addr(5);
    let tx = Transaction::new(addr(6), addr(2), 10, vec![]);
    let err = Executor::apply_block(&mut state, &[tx], Some(&producer), &[ok()]).unwrap_err();
    assert_eq!(err, "TX apply failed: Insufficient balance");
    assert_eq!(state.get_balance(&producer), 0);
}

#[test]
fn block_reward_is_clamped_at_the_supply_cap() {
    let mut state = AccountState::new();
    let producer = addr(5);
    state.add_balance(&addr(1), 100_000_000_000_000 - 20);
    Executor::apply_block(&mut state, &[], Some(&producer), &[]).unwrap();
    assert_eq!(state.get_balance(&producer), 20);
    assert_eq!(state.circulating_supply(), 100_000_000_000_000);
    Executor::apply_block(&mut state, &[], Some(&producer), &[]).unwrap();
    assert_eq!(state.get_balance(&producer), 20);
}

#[test]
fn test_merkle_state_root_determinism() {
    let alice = Address::from_hex(&"01".repeat(32)).unwrap();
    let bob = Address::from_hex(&"02".repeat(32)).unwrap();
    let mut s1 = AccountState::new();
    s1.add_balance(&alice, 100);
    s1.add_balance(&bob, 200);
    let mut s2 = AccountState::new();
    s2.add_balance(&bob, 200);
    s2.add_balance(&alice, 100);
    let r1 = s1.calculate_state_root();
    assert_eq!(r1, s2.calculate_state_root());
    assert_ne!(r1, "0".repeat(64));
    s1.add_balance(&alice, 1);
    assert_ne!(r1, s1.calculate_state_root());
}

#[test]
fn block_leaves_bystanders_untouched() {
    let mut state = AccountState::new();
    state.add_balance(&addr(1), 500);
    state.add_balance(&addr(5), 77);
    let mut t1 = Transaction::new(addr(1), addr(2), 100, vec![]);
    t1.fee = 3;
    let mut t2 = Transaction::new(addr(1), addr(3), 50, vec![]);
    t2.fee = 2;
    t2.nonce = 1;
    Executor::apply_block(&mut state, &[t1, t2], Some(&addr(6)), &[ok(), ok()]).unwrap();
    assert_eq!(state.get_balance(&addr(5)), 77);
    assert_eq!(state.get_nonce(&addr(5)), 0);
    assert_eq!(state.get_balance(&addr(4)), 0);
    // Value moved between the parties, less the fees.
    assert_eq!(
        state.get_balance(&addr(1)) + state.get_balance(&addr(2)) + state.get_balance(&addr(3)),
        500 - 5
    );
}

#[test]
fn proposals_are_validator_only() {
    let mut state = AccountState::new();
    state.add_balance(&addr(4), 1_000);
    let mut data = 10u64.to_le_bytes().to_vec();
    data.extend_from_slice(b"{\"kind\":\"param\"}");
    let mut propose = Transaction::new(addr(4), Address::zero(), 0, data);
    propose.tx_type = TransactionType::Vote;
    propose.fee = 1;
    let err = Executor::apply_transaction(&mut state, &propose, &ok()).unwrap_err();
    assert_eq!(err, "Only validators can create governance proposals");
    assert_eq!(state.governance.proposals.len(), 0);
    assert_eq!(state.get_balance(&addr(4)), 999);
}
