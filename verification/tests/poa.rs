use budlum_core::consensus::poa::{expected_proposer, prepare_producer, validate_block};
use budlum_core::core_types::block::Block;
use sha3::{Digest, Sha3_256};
use budlum_core::core_types::address::Address;

#[test]
fn test_proposer_rotation() {
    let alice = Address([1u8; 32]);
    let bob = Address([2u8; 32]);
    let active = vec![alice, bob];
    if active.len() < 2 {
        return;
    }
    let p1 = expected_proposer(1, &active).unwrap();
    let p2 = expected_proposer(2, &active).unwrap();
    assert_ne!(p1.0, p2.0);
}

#[test]
fn proposer_turns_rotate_from_a_hashed_start() {
    let v = vec![Address([1; 32]), Address([2; 32]), Address([3; 32])];
    let turns: Vec<[u8; 32]> = (0..6u64).map(|i| expected_proposer(i, &v).unwrap().0).collect();
    // Each round of three blocks gives every validator one turn, in list order.
    for i in 0..3 {
        assert_eq!(turns[i], turns[i + 3]);
        assert_ne!(turns[i], turns[(i + 1) % 3]);
    }
    let first = v.iter().position(|a| a.0 == turns[0]).unwrap();
    for i in 0..3 {
        assert_eq!(turns[i], v[(first + i) % 3].0);
    }
    assert!(expected_proposer(4, &[]).is_none());
}

#[test]
fn producer_follows_the_turn() {
    let alice = Address([1u8; 32]);
    let bob = Address([2u8; 32]);
    let active = vec![alice, bob];
    let t0 = expected_proposer(0, &active).unwrap();
    let t1 = expected_proposer(1, &active).unwrap();
    assert_ne!(t0.0, t1.0);

    // Our key holds the turn: the block is ours.
    let mut producer = None;
    let r = prepare_producer(1, &active, None, Some(t1), &mut producer).unwrap();
    assert_eq!(r.unwrap().0, t1.0);
    assert_eq!(producer.unwrap().0, t1.0);

    // The external signer is preferred over the key pair.
    let mut producer = None;
    let r = prepare_producer(0, &active, Some(t0), Some(t0), &mut producer).unwrap();
    assert_eq!(r.unwrap().0, t0.0);

    // Not our turn: an unset producer gets the expected proposer.
    let mut producer = None;
    let r = prepare_producer(0, &active, None, Some(t1), &mut producer).unwrap();
    assert_eq!(r.unwrap().0, t0.0);

    // Not our turn, producer already set: it stays.
    let carol = Address([3u8; 32]);
    let mut producer = Some(carol);
    let r = prepare_producer(0, &active, None, None, &mut producer).unwrap();
    assert_eq!(r.unwrap().0, carol.0);

    // The zero producer counts as unset.
    let mut producer = Some(Address([0u8; 32]));
    let r = prepare_producer(1, &active, None, None, &mut producer).unwrap();
    assert_eq!(r.unwrap().0, t1.0);
}

#[test]
fn no_validators_fails_above_genesis() {
    let mut producer = None;
    let e = prepare_producer(3, &[], None, None, &mut producer).unwrap_err();
    assert_eq!(e.0, "No active validators found");
    let r = prepare_producer(0, &[], None, None, &mut producer).unwrap();
    assert!(r.is_none());
    assert!(producer.is_none());
}

fn sealed(index: u64, prev: &str) -> Block {
    let mut b = Block::new(index, prev.to_string(), vec![]);
    b.hash = b.calculate_hash();
    b
}

#[test]
fn poa_genesis_needs_its_hash() {
    let g = sealed(0, "");
    assert!(validate_block(&g, &[], &[], false).is_ok());
    let mut bad = g.clone();
    bad.hash = "00".to_string();
    assert_eq!(validate_block(&bad, &[], &[], true).unwrap_err().0, "Invalid genesis block hash");
}

#[test]
fn poa_block_must_link_to_tip() {
    let g = sealed(0, "");
    let b = sealed(1, "elsewhere");
    let e = validate_block(&b, &[g.clone()], &[], true).unwrap_err();
    assert_eq!(e.0, format!("Previous hash mismatch. Expected: {}, Got: elsewhere", g.hash));
}

#[test]
fn poa_checks_proposer_and_signature() {
    let alice = Address([1u8; 32]);
    let bob = Address([2u8; 32]);
    let active = vec![alice, bob];
    let g = sealed(0, "");
    let mut b = sealed(1, &g.hash);
    let chain = vec![g];
    assert_eq!(validate_block(&b, &chain, &active, true).unwrap_err().0, "Block has no producer");
    let right = expected_proposer(1, &active).unwrap();
    let wrong = if right.0 == alice.0 { bob } else { alice };
    let hex = |a: Address| a.0.iter().map(|x| format!("{:02x}", x)).collect::<String>();
    b.producer = Some(wrong);
    let e = validate_block(&b, &chain, &active, true).unwrap_err();
    assert_eq!(e.0, format!("Wrong proposer. Expected: {}, Got: {}", hex(right), hex(wrong)));
    b.producer = Some(right);
    assert_eq!(validate_block(&b, &chain, &active, false).unwrap_err().0, "Invalid block signature");
    assert!(validate_block(&b, &chain, &active, true).is_ok());
}

#[test]
fn poa_without_validators_checks_the_hash() {
    let g = sealed(0, "");
    let mut b = sealed(1, &g.hash);
    let chain = vec![g];
    assert!(validate_block(&b, &chain, &[], false).is_ok());
    b.hash = "ff".to_string();
    assert_eq!(validate_block(&b, &chain, &[], false).unwrap_err().0, "Invalid block hash");
}

#[test]
fn proposer_start_is_the_hash_mix_of_the_set() {
    let v = vec![Address([9; 32]), Address([8; 32]), Address([7; 32]), Address([6; 32])];
    let mut seed = b"BDLM_POA_LEADER_V1".to_vec();
    for a in &v {
        seed.extend_from_slice(&a.0);
    }
    let d = Sha3_256::digest(&seed);
    let mut head = [0u8; 8];
    head.copy_from_slice(&d[0..8]);
    let off = (u64::from_le_bytes(head) % v.len() as u64) as usize;
    for i in 0..10u64 {
        let want = (i as usize % v.len() + off) % v.len();
        assert_eq!(expected_proposer(i, &v).unwrap().0, v[want].0);
    }
}
