use budlum_core::core_types::transaction::{ExternalChain, ExternalTransaction};
use budlum_core::cross_domain::evm::adapter::{
    default_deposit_topic0, derive_receipt_leaf, EvmChainAdapter, MerkleProof,
    DEFAULT_CONFIRMATIONS,
};

#[test]
fn adapter_chain_type_ethereum() {
    let adapter = EvmChainAdapter::test_default();
    assert_eq!(adapter.chain_type(), ExternalChain::Ethereum);
}

#[test]
fn adapter_default_confirmations() {
    let adapter = EvmChainAdapter::test_default();
    assert_eq!(adapter.required_confirmations, DEFAULT_CONFIRMATIONS);
}

#[test]
fn verify_receipt_proof_minimal_ok() {
    let adapter = EvmChainAdapter::test_default();
    let tx_hash = "0xabc";
    let leaf = derive_receipt_leaf(tx_hash, &adapter.bridge_address);
    let proof = MerkleProof { leaf, index: 0, siblings: vec![] };
    assert!(adapter.verify_receipt_proof(&proof, &leaf, tx_hash).is_ok());
    assert!(adapter.verify_receipt_proof(&proof, &[0u8; 32], tx_hash).is_err());
}

#[test]
fn verify_receipt_proof_v30_tx_hash_forgery_rejected() {
    let adapter = EvmChainAdapter::test_default();
    let real_tx = "0xabc";
    let forged_tx = "0xdeadbeef";
    let leaf = derive_receipt_leaf(real_tx, &adapter.bridge_address);
    let proof = MerkleProof { leaf, index: 0, siblings: vec![] };
    assert!(adapter.verify_receipt_proof(&proof, &leaf, real_tx).is_ok());
    let err = adapter
        .verify_receipt_proof(&proof, &leaf, forged_tx)
        .expect_err("forged tx_hash must be rejected");
    let msg = err.describe();
    assert!(msg.contains("V30") || msg.contains("forgery"), "msg: {msg}");
}

#[test]
fn verify_receipt_proof_v30_empty_tx_hash_rejected() {
    let adapter = EvmChainAdapter::test_default();
    let leaf = derive_receipt_leaf("0xabc", &adapter.bridge_address);
    let proof = MerkleProof { leaf, index: 0, siblings: vec![] };
    let err = adapter
        .verify_receipt_proof(&proof, &leaf, "")
        .expect_err("empty tx_hash must be rejected");
    let msg = err.describe();
    assert!(msg.contains("tx_hash") || msg.contains("empty"), "msg: {msg}");
}

#[test]
fn verify_receipt_proof_v30_bridge_address_isolation() {
    let bridge_a = vec![0xaa; 20];
    let bridge_b = vec![0xbb; 20];
    let tx_hash = "0xabc";
    let leaf_a = derive_receipt_leaf(tx_hash, &bridge_a);
    let leaf_b = derive_receipt_leaf(tx_hash, &bridge_b);
    assert_ne!(leaf_a, leaf_b);

    let adapter_a = EvmChainAdapter::new(bridge_a.clone(), default_deposit_topic0());
    let proof = MerkleProof { leaf: leaf_a, index: 0, siblings: vec![] };
    assert!(adapter_a.verify_receipt_proof(&proof, &leaf_a, tx_hash).is_ok());
    let adapter_b = EvmChainAdapter::new(bridge_b, default_deposit_topic0());
    let err = adapter_b
        .verify_receipt_proof(&proof, &leaf_a, tx_hash)
        .expect_err("cross-bridge proof must be rejected");
    let msg = err.describe();
    assert!(msg.contains("V30") || msg.contains("forgery"), "msg: {msg}");
}

#[test]
fn derive_receipt_leaf_is_deterministic() {
    let bridge = vec![0xcc; 20];
    let a = derive_receipt_leaf("0xabc", &bridge);
    let b = derive_receipt_leaf("0xabc", &bridge);
    assert_eq!(a, b);
    let c = derive_receipt_leaf("0xdef", &bridge);
    assert_ne!(a, c);
    let d = derive_receipt_leaf("0xabc", &vec![0xdd; 20]);
    assert_ne!(a, d);
}

#[test]
fn offline_stub_generate_proof() {
    let adapter = EvmChainAdapter::test_default();
    let (proof, root, hash) = adapter.generate_receipt_proof("0xabc").unwrap();
    assert_eq!(hash, "0xabc");
    assert_eq!(proof.leaf, root);
    assert!(proof.verify(root));
}

#[test]
fn offline_stub_submit_transaction() {
    let adapter = EvmChainAdapter::test_default();
    let tx = ExternalTransaction {
        chain: ExternalChain::Ethereum,
        target_address: "0x0".to_string(),
        payload: vec![],
        external_nonce: 0,
    };
    let hash = adapter.submit_transaction(&tx).unwrap();
    assert!(hash.starts_with("0x"));
    assert_eq!(hash, format!("0x{}", "ee".repeat(32)));
}

#[test]
fn two_level_proof_verifies_and_position_matters() {
    let a = [1u8; 32];
    let b = [2u8; 32];
    let root = budlum_core::core_types::merkle::hash_pair(&a, &b);
    let left = MerkleProof { leaf: a, index: 0, siblings: vec![b] };
    let right = MerkleProof { leaf: b, index: 1, siblings: vec![a] };
    assert!(left.verify(root));
    assert!(right.verify(root));
    let wrong = MerkleProof { leaf: a, index: 1, siblings: vec![b] };
    assert!(!wrong.verify(root));
}
