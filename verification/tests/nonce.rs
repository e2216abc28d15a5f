use budlum_core::core_types::address::Address;
use budlum_core::cross_domain::nonce::{ReplayNonceStore, MAX_PROCESSED_MESSAGES};

#[test]
fn b3_prune_limits_processed_messages() {
    let mut store = ReplayNonceStore::new();
    for i in 0..(MAX_PROCESSED_MESSAGES + 10) {
        let mut id = [0u8; 32];
        id[0..8].copy_from_slice(&(i as u64).to_le_bytes());
        store.mark_processed(id).unwrap();
    }
    assert!(
        store.processed_count() <= MAX_PROCESSED_MESSAGES,
        "prune should keep count at or below MAX"
    );
}

#[test]
fn replay_protection_still_works_after_prune() {
    let mut store = ReplayNonceStore::new();
    let id = [42u8; 32];
    store.mark_processed(id).unwrap();
    assert!(store.is_processed(&id));
    assert!(store.mark_processed(id).is_err());
}

#[test]
fn replay_store_rejects_duplicate_and_tracks_count() {
    let mut s = ReplayNonceStore::new();
    let id = [7u8; 32];
    assert!(s.mark_processed(id).is_ok());
    assert!(s.is_processed(&id));
    assert_eq!(s.processed_count(), 1);
    assert!(s.mark_processed(id).is_err());
    let _ = s.root();
}

#[test]
fn replay_store_distinct_ids_independent() {
    let mut s = ReplayNonceStore::new();
    s.mark_processed([1u8; 32]).unwrap();
    s.mark_processed([2u8; 32]).unwrap();
    assert_eq!(s.processed_count(), 2);
    assert!(s.is_processed(&[1u8; 32]));
    assert!(s.is_processed(&[2u8; 32]));
    assert!(!s.is_processed(&[3u8; 32]));
}

#[test]
fn duplicate_error_text() {
    let mut s = ReplayNonceStore::default();
    s.mark_processed([9u8; 32]).unwrap();
    assert_eq!(
        s.mark_processed([9u8; 32]).unwrap_err(),
        "Cross-domain message was already processed"
    );
}

#[test]
fn route_nonces_count_up_per_route() {
    let mut s = ReplayNonceStore::new();
    let a = Address::from([1u8; 32]);
    let b = Address::from([2u8; 32]);
    assert_eq!(s.next_nonce(1, 2, a), 0);
    assert_eq!(s.next_nonce(1, 2, a), 1);
    assert_eq!(s.next_nonce(1, 2, b), 0);
    assert_eq!(s.next_nonce(2, 1, a), 0);
    assert_eq!(s.next_nonce(1, 2, a), 2);
}

#[test]
fn pruning_drops_the_least_id() {
    let mut s = ReplayNonceStore::new();
    for i in 0..(MAX_PROCESSED_MESSAGES + 1) {
        let mut id = [0u8; 32];
        id[24..32].copy_from_slice(&(i as u64).to_be_bytes());
        s.mark_processed(id).unwrap();
    }
    assert_eq!(s.processed_count(), MAX_PROCESSED_MESSAGES);
    assert!(!s.is_processed(&[0u8; 32]));
    let mut last = [0u8; 32];
    last[24..32].copy_from_slice(&(MAX_PROCESSED_MESSAGES as u64).to_be_bytes());
    assert!(s.is_processed(&last));
}

#[test]
fn root_depends_on_contents() {
    let mut a = ReplayNonceStore::new();
    let mut b = ReplayNonceStore::new();
    assert_eq!(a.root(), b.root());
    a.mark_processed([5u8; 32]).unwrap();
    assert_ne!(a.root(), b.root());
    b.mark_processed([5u8; 32]).unwrap();
    assert_eq!(a.root(), b.root());
    a.next_nonce(1, 1, Address::from([3u8; 32]));
    assert_ne!(a.root(), b.root());
}

#[test]
fn pruning_within_capacity_keeps_everything() {
    let mut s = ReplayNonceStore::new();
    s.mark_processed([1u8; 32]).unwrap();
    s.mark_processed([2u8; 32]).unwrap();
    let before = s.root();
    s.prune_processed();
    assert_eq!(s.processed_count(), 2);
    assert!(s.is_processed(&[1u8; 32]) && s.is_processed(&[2u8; 32]));
    assert_eq!(s.root(), before);
}

#[test]
fn pruning_drops_the_oldest_not_the_least() {
    let mut s = ReplayNonceStore::new();
    let id = |i: u64| {
        let mut m = [0u8; 32];
        m[24..32].copy_from_slice(&i.to_be_bytes());
        m
    };
    for i in 1..=(MAX_PROCESSED_MESSAGES as u64) {
        s.mark_processed(id(i)).unwrap();
    }
    // The least id arrives last; the oldest (1) leaves, the new one stays.
    s.mark_processed(id(0)).unwrap();
    assert_eq!(s.processed_count(), MAX_PROCESSED_MESSAGES);
    assert!(s.is_processed(&id(0)));
    assert!(!s.is_processed(&id(1)));
    assert!(s.is_processed(&id(2)));
    assert!(s.mark_processed(id(0)).is_err());
}

#[test]
fn root_depends_only_on_contents_not_order() {
    let mut a = ReplayNonceStore::new();
    let mut b = ReplayNonceStore::new();
    a.mark_processed([1u8; 32]).unwrap();
    a.mark_processed([2u8; 32]).unwrap();
    b.mark_processed([2u8; 32]).unwrap();
    b.mark_processed([1u8; 32]).unwrap();
    a.next_nonce(1, 2, Address::from([9u8; 32]));
    a.next_nonce(3, 4, Address::from([8u8; 32]));
    b.next_nonce(3, 4, Address::from([8u8; 32]));
    b.next_nonce(1, 2, Address::from([9u8; 32]));
    assert_eq!(a.root(), b.root());
}
