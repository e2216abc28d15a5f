use budlum_core::chain::snapshot::{
    is_snapshot_file, latest_snapshot_index, snapshot_file_name, snapshot_height,
};
use budlum_core::chain::snapshot::{
    chunk_bytes, PruningManager, StateSnapshot, StateSnapshotV2, StateSnapshotV2Params,
    SNAPSHOT_SCHEMA_VERSION,
};
use budlum_core::core_types::account::AccountState;
use budlum_core::core_types::address::Address;

#[test]
fn test_snapshot_creation() {
    let account_state = AccountState::new();
    let snapshot = StateSnapshot::from_state(
        100,
        "blockhash123".to_string(),
        1337,
        &account_state,
        0,
        "genhash".to_string(),
    );
    assert_eq!(snapshot.height, 100);
    assert_eq!(snapshot.chain_id, 1337);
    assert!(!snapshot.snapshot_hash.is_empty());
}

#[test]
fn test_snapshot_verify() {
    let account_state = AccountState::new();
    let snapshot = StateSnapshot::from_state(
        50,
        "hash".to_string(),
        42,
        &account_state,
        10,
        "finalhash".to_string(),
    );
    assert!(snapshot.verify());
}

#[test]
fn test_pruning_manager() {
    let manager = PruningManager::new(100, 1000, "./snapshots".to_string());

    let prunable = manager.get_prunable_blocks(50, 0, 0);
    assert!(prunable.is_empty());

    let prunable = manager.get_prunable_blocks(200, 50, 50);
    assert_eq!(prunable.len(), 49);
}

#[test]
fn test_snapshot_interval() {
    let manager = PruningManager::new(100, 1000, "./snapshots".to_string());
    assert!(!manager.should_create_snapshot(0));
    assert!(!manager.should_create_snapshot(500));
    assert!(manager.should_create_snapshot(1000));
    assert!(manager.should_create_snapshot(2000));
}

fn funded_state() -> AccountState {
    let mut s = AccountState::new();
    s.add_balance(&Address::from([2u8; 32]), 200);
    s.add_balance(&Address::from([1u8; 32]), 100);
    s.add_validator(Address::from([3u8; 32]), 1000);
    s
}

#[test]
fn snapshot_lists_accounts_in_address_order_and_detects_tampering() {
    let state = funded_state();
    let mut snapshot = StateSnapshot::from_state(7, "h".to_string(), 1, &state, 5, "f".to_string());
    assert_eq!(snapshot.balances.len(), 2);
    assert_eq!(snapshot.balances[0], (Address::from([1u8; 32]), 100));
    assert_eq!(snapshot.balances[1], (Address::from([2u8; 32]), 200));
    assert_eq!(snapshot.validators.len(), 1);
    assert!(snapshot.verify());
    snapshot.balances[0].1 = 101;
    assert!(!snapshot.verify());
}

#[test]
fn snapshot_hash_ignores_creation_time() {
    let state = funded_state();
    let a = StateSnapshot::from_state(7, "h".to_string(), 1, &state, 5, "f".to_string());
    let mut b = a.clone();
    b.created_at = a.created_at + 1_000;
    assert!(b.verify());
}

#[test]
fn snapshot_v2_captures_the_full_state() {
    let state = funded_state();
    let snapshot = StateSnapshotV2::from_state(
        &state,
        StateSnapshotV2Params {
            height: 105,
            block_hash: "block_hash_v2".to_string(),
            genesis_hash: "genesis_hash_v2".to_string(),
            chain_id: 42,
            finalized_height: 50,
            finalized_hash: "finalized_hash_v2".to_string(),
            finality_certificates: vec![],
        },
    );
    assert_eq!(snapshot.schema_version, SNAPSHOT_SCHEMA_VERSION);
    assert_eq!(snapshot.schema_version, 3);
    assert_eq!(snapshot.height, 105);
    assert_eq!(snapshot.block_reward, state.tokenomics.block_reward);
    assert!(snapshot.tokenomics_burn.is_some());
    assert!(snapshot.verify());
    let mut tampered = snapshot.clone();
    tampered.epoch_index += 1;
    assert!(!tampered.verify());
}

#[test]
fn chunks_reassemble_and_are_full_but_the_last() {
    let data: Vec<u8> = (0u8..=250).collect();
    let chunks = chunk_bytes(&data, 64);
    assert_eq!(chunks.len(), 4);
    assert!(chunks[..3].iter().all(|c| c.len() == 64));
    assert_eq!(chunks[3].len(), 251 - 192);
    assert_eq!(chunks.concat(), data);
    assert!(StateSnapshot::chunk(&[], 8).is_empty());
}

#[test]
fn pruning_stays_below_snapshot_and_finality() {
    let manager = PruningManager::new(10, 100, "s".to_string());
    let v = manager.get_prunable_blocks(1000, 300, 200);
    assert_eq!(v.first(), Some(&1));
    assert_eq!(v.last(), Some(&199));
    let v = manager.get_prunable_blocks(1000, 900, 995);
    assert_eq!(v.last(), Some(&899));
    let v = manager.get_prunable_blocks(1000, 999, 999);
    assert_eq!(v.last(), Some(&989));
    assert!(!PruningManager::new(1, 0, "s".to_string()).should_create_snapshot(10));
}

#[test]
fn snapshot_names_rank_numerically() {
    assert_eq!(snapshot_height("snapshot_100.json"), Some(100));
    assert_eq!(snapshot_height("snapshot_9.json"), Some(9));
    assert_eq!(snapshot_height("snapshot_9.bin"), None);
    assert_eq!(snapshot_height("other_9.json"), None);
    assert_eq!(snapshot_height("snapshot_x.json"), None);
    assert!(is_snapshot_file("a.json"));
    assert!(!is_snapshot_file(".json"));
    assert!(!is_snapshot_file("snapshot_50.json.corrupted"));
    assert_eq!(snapshot_file_name(42), "snapshot_42.json");
    assert_eq!(snapshot_height(&snapshot_file_name(42)), Some(42));

    let names: Vec<String> = vec![
        "snapshot_9.json".into(),
        "snapshot_100.json".into(),
        "snapshot_50.json.corrupted".into(),
        "notes.txt".into(),
    ];
    assert_eq!(latest_snapshot_index(&names), Some(1));
    let none: Vec<String> = vec!["a.txt".into()];
    assert_eq!(latest_snapshot_index(&none), None);
    // Names without a height rank as 0; the first of equals wins.
    let ties: Vec<String> = vec!["x.json".into(), "snapshot_0.json".into()];
    assert_eq!(latest_snapshot_index(&ties), Some(0));
}

#[test]
fn snapshot_hash_is_64_hex_and_tampering_breaks_verify() {
    let account_state = AccountState::new();
    let snapshot = StateSnapshot::from_state(
        50,
        "hash".to_string(),
        42,
        &account_state,
        10,
        "finalhash".to_string(),
    );
    assert_eq!(snapshot.snapshot_hash.len(), 64);
    let mut t = snapshot.clone();
    t.height = 51;
    assert!(!t.verify());
    let mut t = snapshot.clone();
    t.block_hash = "hasx".to_string();
    assert!(!t.verify());
    let mut t = snapshot.clone();
    t.finalized_height = 11;
    assert!(!t.verify());
    let mut t = snapshot.clone();
    t.balances.push((Address::from([1u8; 32]), 5));
    assert!(!t.verify());
    // The creation time is not sealed.
    let mut t = snapshot.clone();
    t.created_at = t.created_at.wrapping_add(1);
    assert!(t.verify());
}
