use budlum_core::consensus::slashing::{SlashingEvidence, SlashingType};

#[test]
fn test_double_sign_evidence() {
    let evidence = SlashingEvidence::double_sign(
        "abc123".repeat(5),
        100,
        "hash1".to_string(),
        "hash2".to_string(),
        vec![1, 2, 3],
        vec![4, 5, 6],
        "reporter_pubkey".to_string(),
    );
    assert_eq!(evidence.offense_type, SlashingType::DoubleSign);
    assert_eq!(evidence.height, 100);
    assert!(evidence.block_hash_1.is_some());
    assert!(evidence.block_hash_2.is_some());
}

#[test]
fn test_double_proposal_evidence() {
    let vrf_out = vec![42u8; 32];
    let evidence = SlashingEvidence::double_proposal(
        "ab".repeat(32),
        5,
        50,
        "hash_a".to_string(),
        "hash_b".to_string(),
        vec![1, 2, 3],
        vec![4, 5, 6],
        vrf_out.clone(),
        vrf_out.clone(),
        "reporter".to_string(),
    );
    assert_eq!(evidence.offense_type, SlashingType::DoubleProposal);
    assert_eq!(evidence.epoch, 5);
    assert_eq!(evidence.slot, 50);
    assert!(evidence.verify_double_proposal().is_ok());
    assert_eq!(evidence.slash_amount(1000), 1000);
}

#[test]
fn test_double_proposal_rejects_same_hash() {
    let vrf_out = vec![42u8; 32];
    let evidence = SlashingEvidence::double_proposal(
        "ab".repeat(32),
        5,
        50,
        "same_hash".to_string(),
        "same_hash".to_string(),
        vec![1, 2, 3],
        vec![4, 5, 6],
        vrf_out.clone(),
        vrf_out.clone(),
        "reporter".to_string(),
    );
    let result = evidence.verify_double_proposal();
    assert!(result.is_err());
    assert!(result.unwrap_err().contains("identical"));
}

#[test]
fn test_double_proposal_rejects_different_vrf() {
    let evidence = SlashingEvidence::double_proposal(
        "ab".repeat(32),
        5,
        50,
        "hash_a".to_string(),
        "hash_b".to_string(),
        vec![1, 2, 3],
        vec![4, 5, 6],
        vec![1u8; 32],
        vec![2u8; 32],
        "reporter".to_string(),
    );
    let result = evidence.verify_double_proposal();
    assert!(result.is_err());
    assert!(result.unwrap_err().contains("VRF outputs differ"));
}

#[test]
fn test_slash_amounts() {
    let evidence = SlashingEvidence::downtime("validator".to_string(), 50, "reporter".to_string());
    assert_eq!(evidence.slash_amount(1000), 100);
}

#[test]
fn test_verify_double_sign_requires_different_hashes() {
    let evidence = SlashingEvidence {
        offense_type: SlashingType::DoubleSign,
        validator: "a".repeat(64),
        height: 100,
        epoch: 0,
        slot: 0,
        block_hash_1: Some("hash".to_string()),
        block_hash_2: Some("hash".to_string()),
        signature_1: Some(vec![1, 2, 3]),
        signature_2: Some(vec![4, 5, 6]),
        vrf_output_1: None,
        vrf_output_2: None,
        checkpoint_hash_1: None,
        checkpoint_hash_2: None,
        timestamp: 0,
        reporter: "reporter".to_string(),
    };
    let result = evidence.verify_double_sign();
    assert!(result.is_err());
    assert!(result.unwrap_err().contains("identical"));
}

#[test]
fn test_double_vote_evidence() {
    let evidence = SlashingEvidence::double_vote(
        "ab".repeat(32),
        10,
        "checkpoint_a".to_string(),
        "checkpoint_b".to_string(),
        vec![1, 2, 3],
        vec![4, 5, 6],
        "reporter".to_string(),
    );
    assert_eq!(evidence.offense_type, SlashingType::DoubleVote);
    assert_eq!(evidence.epoch, 10);
    assert!(evidence.verify_double_vote().is_ok());
    assert_eq!(evidence.slash_amount(1000), 1000);
}

#[test]
fn test_double_vote_rejects_same_checkpoint() {
    let evidence = SlashingEvidence::double_vote(
        "ab".repeat(32),
        10,
        "same_cp".to_string(),
        "same_cp".to_string(),
        vec![1, 2, 3],
        vec![4, 5, 6],
        "reporter".to_string(),
    );
    let result = evidence.verify_double_vote();
    assert!(result.is_err());
    assert!(result.unwrap_err().contains("identical"));
}

#[test]
fn double_sign_with_distinct_hashes_verifies() {
    let evidence = SlashingEvidence::double_sign(
        "ab".repeat(32),
        7,
        "h1".to_string(),
        "h2".to_string(),
        vec![1],
        vec![2],
        "r".to_string(),
    );
    assert!(evidence.verify_double_sign().is_ok());
    assert_eq!(evidence.slash_amount(1000), 1000);
}

#[test]
fn double_sign_with_bad_validator_hex_is_refused() {
    let evidence = SlashingEvidence::double_sign(
        "zz".repeat(32),
        7,
        "h1".to_string(),
        "h2".to_string(),
        vec![1],
        vec![2],
        "r".to_string(),
    );
    assert!(evidence.verify_double_sign().is_err());
}
