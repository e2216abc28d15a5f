use budlum_core::execution::zkvm::{hash_u64_words, ZkVmExecutor};

#[test]
fn hash_of_no_words_is_keccak_of_nothing() {
    let h = hash_u64_words(&[]);
    assert_eq!(
        h.to_vec(),
        hex::decode("c5d2460186f7233c927e7db2dcc703c0e500b653ca82273b7bfad8045d85a470").unwrap()
    );
}

#[test]
fn hash_covers_word_order_and_values() {
    let a = hash_u64_words(&[1, 2]);
    let b = hash_u64_words(&[2, 1]);
    let c = hash_u64_words(&[1, 2]);
    assert_ne!(a, b);
    assert_eq!(a, c);
    assert_ne!(hash_u64_words(&[0]), hash_u64_words(&[]));
}

#[test]
fn bytecode_is_checked_before_decoding() {
    assert_eq!(
        ZkVmExecutor::load_program(&[]).unwrap_err(),
        "Empty BudZKVM bytecode"
    );
    assert_eq!(
        ZkVmExecutor::load_program(&[1, 2, 3]).unwrap_err(),
        "BudZKVM bytecode length must be a multiple of 8 bytes"
    );
    let mut bytes = 7u64.to_le_bytes().to_vec();
    bytes.extend_from_slice(&u64::MAX.to_le_bytes());
    assert_eq!(ZkVmExecutor::load_program(&bytes).unwrap(), vec![7, u64::MAX]);
}
