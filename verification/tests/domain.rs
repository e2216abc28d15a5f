use budlum_core::core_types::address::Address;
use budlum_core::core_types::block::Block;
use budlum_core::domain::types::{
    normalize_hash32, ConsensusDomain, ConsensusKind, DomainCommitment, DomainStatus, RootScheme,
    VerifiedDomainCommitment,
};

#[test]
fn normalize_hash32_accepts_hex_and_hashes_non_32_byte_input() {
    let hex_root = "11".repeat(32);
    let normalized =
        normalize_hash32(b"state", 1, &RootScheme::BudlumBlockV2, hex_root.as_bytes()).unwrap();
    assert_eq!(normalized, [0x11u8; 32]);

    let custom = normalize_hash32(
        b"state",
        1,
        &RootScheme::Custom("foreign".into()),
        b"short-root",
    )
    .unwrap();
    assert_ne!(custom, [0u8; 32]);
    assert_ne!(custom, normalized);
}

#[test]
fn raw_32_byte_roots_pass_through() {
    let raw = [0x42u8; 32];
    assert_eq!(normalize_hash32(b"t", 9, &RootScheme::Sha256, &raw).unwrap(), raw);
}

#[test]
fn scheme_and_kind_labels() {
    assert_eq!(RootScheme::Sha3_256.as_bytes(), b"sha3-256".to_vec());
    assert_eq!(RootScheme::Custom("x".into()).as_bytes(), b"custom:x".to_vec());
    assert_eq!(ConsensusKind::Zk.as_bytes(), b"zk".to_vec());
    assert_eq!(ConsensusKind::Custom("y".into()).as_bytes(), b"custom:y".to_vec());
}

fn domain() -> ConsensusDomain {
    ConsensusDomain {
        id: 3,
        kind: ConsensusKind::PoA,
        status: DomainStatus::Active,
        domain_chain_id: 99,
        operator: Some(Address::zero()),
        operator_bond: 500,
        config_hash: [1u8; 32],
        validator_set_hash: [2u8; 32],
        finality_adapter: "poa".to_string(),
        min_confirmations: 1,
        bridge_enabled: false,
        block_hash_scheme: RootScheme::BudlumBlockV2,
        state_root_scheme: RootScheme::BudlumBlockV2,
        tx_root_scheme: RootScheme::BudlumBlockV2,
        last_committed_height: 0,
        last_committed_hash: [0u8; 32],
    }
}

#[test]
fn domain_status_and_bond() {
    let mut d = domain();
    assert!(d.is_active());
    assert!(d.has_operator_bond(500));
    assert!(!d.has_operator_bond(501));
    d.status = DomainStatus::Frozen;
    assert!(!d.is_active());
    d.operator = None;
    assert!(!d.has_operator_bond(0));
}

#[test]
fn commitment_from_block_and_leaf() {
    let mut block = Block::new(7, "ab".repeat(32), vec![]);
    block.hash = "cd".repeat(32);
    block.state_root = "ef".repeat(32);
    block.tx_root = "not hex".to_string();
    let c = DomainCommitment::from_block(&domain(), &block, [5u8; 32], [6u8; 32], 11).unwrap();
    assert_eq!(c.domain_id, 3);
    assert_eq!(c.domain_height, 7);
    assert_eq!(c.domain_block_hash, [0xcdu8; 32]);
    assert_eq!(c.parent_domain_block_hash, [0xabu8; 32]);
    assert_eq!(c.state_root, [0xefu8; 32]);
    assert_eq!(
        c.tx_root,
        normalize_hash32(b"tx_root", 3, &RootScheme::BudlumBlockV2, b"not hex").unwrap()
    );
    let leaf = c.leaf_hash();
    let verified = VerifiedDomainCommitment { commitment: c.clone(), proof: vec![] };
    assert_eq!(verified.leaf_hash(), leaf);
    let c2 = DomainCommitment::from_block(&domain(), &block, [5u8; 32], [6u8; 32], 12).unwrap();
    assert_ne!(c2.leaf_hash(), leaf);
}

#[test]
fn leaf_changes_with_producer_and_kind() {
    let mut block = Block::new(7, "ab".repeat(32), vec![]);
    block.hash = "cd".repeat(32);
    block.state_root = "ef".repeat(32);
    block.tx_root = "01".repeat(32);
    let c = DomainCommitment::from_block(&domain(), &block, [5u8; 32], [6u8; 32], 11).unwrap();
    let leaf = c.leaf_hash();
    let mut p = c.clone();
    p.producer = Some(Address::from([4u8; 32]));
    assert_ne!(p.leaf_hash(), leaf);
    let mut k = c.clone();
    k.consensus_kind = ConsensusKind::Custom("x".to_string());
    assert_ne!(k.leaf_hash(), leaf);
    let mut e = c.clone();
    e.event_root = [9u8; 32];
    assert_ne!(e.leaf_hash(), leaf);
}
