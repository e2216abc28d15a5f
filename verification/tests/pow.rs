use budlum_core::consensus::pow::{PoWConfig, PoWEngine};
use budlum_core::core_types::account::AccountState;
use budlum_core::core_types::block::Block;

#[test]
fn test_pow_mining() {
    let engine = PoWEngine::new(1);
    let mut block = Block::new(1, "0".repeat(64), vec![]);
    let state = AccountState::new();
    engine.prepare_block(&mut block, &state).unwrap();
    assert!(block.hash.starts_with("0"));
}

#[test]
fn test_pow_validation() {
    let mut engine = PoWEngine::new(1);
    let mut block = Block::new(1, "0".repeat(64), vec![]);
    let state = AccountState::new();
    engine.prepare_block(&mut block, &state).unwrap();
    assert!(engine.validate_block(&block, &[], &state).is_ok());
    let mut tampered = block.clone();
    tampered.hash = "invalid_hash".to_string();
    assert!(engine.validate_block(&tampered, &[], &state).is_err());
}

#[test]
fn test_difficulty_levels() {
    let easy = PoWEngine::new(1);
    let hard = PoWEngine::new(2);
    let mut block1 = Block::new(1, "0".repeat(64), vec![]);
    let mut block2 = Block::new(1, "0".repeat(64), vec![]);
    let state = AccountState::new();
    easy.prepare_block(&mut block1, &state).unwrap();
    hard.prepare_block(&mut block2, &state).unwrap();
    assert!(block1.hash.starts_with("0"));
    assert!(block2.hash.starts_with("00"));
}

#[test]
fn validation_checks_the_parent_link() {
    let mut engine = PoWEngine::new(1);
    let state = AccountState::new();
    let mut parent = Block::new(1, "0".repeat(64), vec![]);
    engine.prepare_block(&mut parent, &state).unwrap();
    let mut child = Block::new(2, "f".repeat(64), vec![]);
    engine.prepare_block(&mut child, &state).unwrap();
    let err = engine.validate_block(&child, &[parent.clone()], &state).unwrap_err();
    assert!(err.0.starts_with("Previous hash mismatch. Expected: "));
    let mut good = Block::new(2, parent.hash.clone(), vec![]);
    engine.prepare_block(&mut good, &state).unwrap();
    assert!(engine.validate_block(&good, &[parent], &state).is_ok());
}

#[test]
fn retarget_keeps_difficulty_until_a_full_interval() {
    let engine = PoWEngine::with_config(PoWConfig { difficulty: 4, target_block_time: 10, adjustment_interval: 2 });
    assert_eq!(engine.calculate_new_difficulty(&[]), 4);
    let mut a = Block::new(1, "0".repeat(64), vec![]);
    let mut b = Block::new(2, "0".repeat(64), vec![]);
    a.timestamp = 0;
    b.timestamp = 10_000;
    // expected 20s, actual 10s: difficulty doubles.
    assert_eq!(engine.calculate_new_difficulty(&[a.clone(), b.clone()]), 8);
    b.timestamp = 1_000_000;
    // much slower: clamps at 1 from below.
    assert_eq!(engine.calculate_new_difficulty(&[a, b]), 1);
    assert_eq!(PoWConfig::default().adjustment_interval, 100);
    assert_eq!(engine.info(), "PoW (difficulty: 4, target: 0000...)");
    assert_eq!(engine.consensus_type(), "PoW");
}

#[test]
fn fork_choice_counts_leading_zeros() {
    let engine = PoWEngine::new(1);
    let mut a = Block::new(1, "0".repeat(64), vec![]);
    let mut b = a.clone();
    a.hash = "00ab".to_string();
    b.hash = "ab".to_string();
    assert_eq!(engine.fork_choice_score(&[a, b]), 3);
}
