use budlum_core::bns::registry::BnsRegistry;
use budlum_core::bns::types::BnsError;
use budlum_core::core_types::address::Address;

#[test]
fn test_bns_registration_and_resolution() {
    let mut reg = BnsRegistry::new();
    let alice = Address::from([1u8; 32]);
    let current_epoch = 10;

    reg.register("ayaz.bud".to_string(), alice, current_epoch, 100).unwrap();
    assert_eq!(reg.resolve("ayaz.bud", current_epoch + 1), Some(alice));

    let bob = Address::from([2u8; 32]);
    let err = reg.register("ayaz.bud".to_string(), bob, current_epoch + 5, 100).unwrap_err();
    assert!(matches!(err, BnsError::NameTaken));
}

#[test]
fn test_bns_expiration() {
    let mut reg = BnsRegistry::new();
    let alice = Address::from([1u8; 32]);
    reg.register("expire.bud".to_string(), alice, 10, 10).unwrap();
    assert_eq!(reg.resolve("expire.bud", 15), Some(alice));
    assert_eq!(reg.resolve("expire.bud", 25), None);
    let bob = Address::from([2u8; 32]);
    reg.register("expire.bud".to_string(), bob, 30, 100).unwrap();
    assert_eq!(reg.resolve("expire.bud", 35), Some(bob));
}

#[test]
fn unknown_names_do_not_resolve() {
    let reg = BnsRegistry::default();
    assert_eq!(reg.resolve("nobody.bud", 0), None);
}

#[test]
fn register_leaves_other_names_alone() {
    let mut reg = BnsRegistry::new();
    let alice = Address::from([1u8; 32]);
    let bob = Address::from([2u8; 32]);
    reg.register("alice.bud".to_string(), alice, 0, 50).unwrap();
    reg.register("bob.bud".to_string(), bob, 0, 50).unwrap();
    assert_eq!(reg.resolve("alice.bud", 1), Some(alice));
    assert_eq!(reg.resolve("bob.bud", 1), Some(bob));
}

#[test]
fn test_bns_invalid_names() {
    let mut reg = BnsRegistry::new();
    let alice = Address([1u8; 32]);

    // Empty name
    assert!(reg.register("".to_string(), alice, 0, 100).is_err());

    // Name too long
    let long_name = "a".repeat(256);
    assert!(reg.register(long_name, alice, 0, 100).is_err());
}

#[test]
fn test_bns_renewal() {
    let mut reg = BnsRegistry::new();
    let alice = Address::from([1u8; 32]);

    reg.register("test.bud".to_string(), alice, 0, 100).unwrap();
    assert_eq!(reg.resolve("test.bud", 50), Some(alice));

    // Renew (extend expiry)
    reg.register("test.bud".to_string(), alice, 50, 200).unwrap();
    assert_eq!(reg.resolve("test.bud", 150), Some(alice));
    assert_eq!(reg.resolve("test.bud", 250), Some(alice));
    assert_eq!(reg.resolve("test.bud", 350), None);
}

#[test]
fn renewal_by_another_owner_is_refused() {
    let mut reg = BnsRegistry::new();
    let alice = Address::from([1u8; 32]);
    let bob = Address::from([2u8; 32]);
    reg.register("test.bud".to_string(), alice, 0, 100).unwrap();
    assert!(matches!(reg.register("test.bud".to_string(), bob, 50, 200), Err(BnsError::NameTaken)));
    assert_eq!(reg.resolve("test.bud", 99), Some(alice));
    assert_eq!(reg.resolve("test.bud", 100), None);
}
