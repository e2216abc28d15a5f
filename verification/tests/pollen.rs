use budlum_core::core_types::address::{Address, ContentId};
use budlum_core::pollen::assets::{
    AccessGrant, AccessGrantStatus, AiDataInputRef, DataAsset, GrantId,
};
use budlum_core::pollen::offers::MarketplaceRegistry;

fn addr(byte: u8) -> Address {
    Address::from([byte; 32])
}

fn signed_grant(asset: &DataAsset, grantee: Address, max_reads: u32) -> AccessGrant {
    let mut grant = AccessGrant::new_unsigned(
        asset.asset_id,
        asset.owner,
        grantee,
        grantee,
        42,
        10,
        20,
        max_reads,
        [8u8; 32],
    );
    grant.owner_signature = [9u8; 64];
    grant
}

#[test]
fn ai_read_ref_without_grant_is_default_deny() {
    let mut registry = MarketplaceRegistry::new();
    let asset = DataAsset::new(addr(1), ContentId::of(b"asset"), [1u8; 32], true);
    registry.register_data_asset(asset.clone()).unwrap();
    let reference = AiDataInputRef { asset_id: asset.asset_id, grant_id: GrantId::from([7u8; 32]) };
    let err = registry.validate_ai_read_ref(&reference.encode(), &addr(2), 10).unwrap_err();
    assert!(err.contains("AccessGrant not found"));
}

#[test]
fn ai_read_ref_with_valid_grant_consumes_once() {
    let mut registry = MarketplaceRegistry::new();
    let asset = DataAsset::new(addr(1), ContentId::of(b"asset"), [1u8; 32], true);
    registry.register_data_asset(asset.clone()).unwrap();
    let grant_id = registry.create_access_grant(signed_grant(&asset, addr(2), 1)).unwrap();
    let reference = AiDataInputRef { asset_id: asset.asset_id, grant_id };
    assert_eq!(
        registry.validate_ai_read_ref(&reference.encode(), &addr(2), 10).unwrap(),
        Some(grant_id)
    );
    registry.consume_ai_read_grant(&grant_id, &addr(2), 10).unwrap();
    assert!(registry.validate_ai_read_ref(&reference.encode(), &addr(2), 10).is_err());
}

#[test]
fn ai_read_ref_rejects_revoked_grant() {
    let mut registry = MarketplaceRegistry::new();
    let asset = DataAsset::new(addr(1), ContentId::of(b"asset"), [1u8; 32], true);
    registry.register_data_asset(asset.clone()).unwrap();
    let mut grant = signed_grant(&asset, addr(2), 3);
    grant.status = AccessGrantStatus::Revoked;
    let id = grant.grant_id;
    registry.access_grants.push(grant);
    let reference = AiDataInputRef { asset_id: asset.asset_id, grant_id: id };
    assert!(registry.validate_ai_read_ref(&reference.encode(), &addr(2), 10).is_err());
}

#[test]
fn non_pollen_input_ref_is_not_blocked() {
    let registry = MarketplaceRegistry::new();
    assert_eq!(registry.validate_ai_read_ref(b"plain legacy prompt", &addr(2), 10).unwrap(), None);
}

#[test]
fn offers_open_close_and_only_seller_closes() {
    let mut registry = MarketplaceRegistry::default();
    assert_eq!(
        registry.create_offer(addr(1), ContentId([3u8; 32]), 0).unwrap_err(),
        "Price must be greater than zero"
    );
    let id = registry.create_offer(addr(1), ContentId([3u8; 32]), 100).unwrap();
    assert_eq!(id, 0);
    assert_eq!(registry.create_offer(addr(1), ContentId([4u8; 32]), 5).unwrap(), 1);
    assert!(registry.get_offer(0).unwrap().active);
    assert_eq!(registry.close_offer(0, &addr(2)).unwrap_err(), "Not the seller");
    registry.close_offer(0, &addr(1)).unwrap();
    assert!(!registry.get_offer(0).unwrap().active);
    assert_eq!(registry.close_offer(9, &addr(1)).unwrap_err(), "Offer not found");
    assert!(registry.get_offer(9).is_none());
}

#[test]
fn grants_need_an_active_asset_of_the_same_owner() {
    let mut registry = MarketplaceRegistry::new();
    let asset = DataAsset::new(addr(1), ContentId::of(b"x"), [1u8; 32], false);
    let stray = signed_grant(&asset, addr(2), 1);
    assert_eq!(
        registry.create_access_grant(stray).unwrap_err(),
        "AccessGrant references unknown DataAsset"
    );
    registry.register_data_asset(asset.clone()).unwrap();
    assert_eq!(
        registry.register_data_asset(asset.clone()).unwrap_err(),
        "DataAsset already registered"
    );
    let mut foreign = signed_grant(&asset, addr(2), 1);
    foreign.owner = addr(5);
    assert_eq!(
        registry.create_access_grant(foreign).unwrap_err(),
        "AccessGrant owner must match DataAsset owner"
    );
    let unsigned = AccessGrant::new_unsigned(asset.asset_id, asset.owner, addr(2), addr(2), 1, 10, 20, 1, [0u8; 32]);
    assert!(registry.create_access_grant(unsigned).is_err());
    assert_eq!(
        registry.revoke_data_asset(&asset.asset_id, &addr(2)).unwrap_err(),
        "Only DataAsset owner can revoke"
    );
    registry.revoke_data_asset(&asset.asset_id, &addr(1)).unwrap();
    assert_eq!(
        registry.create_access_grant(signed_grant(&asset, addr(2), 1)).unwrap_err(),
        "AccessGrant references inactive DataAsset"
    );
}

#[test]
fn grant_window_and_grantee_are_enforced() {
    let mut registry = MarketplaceRegistry::new();
    let asset = DataAsset::new(addr(1), ContentId::of(b"y"), [1u8; 32], true);
    registry.register_data_asset(asset.clone()).unwrap();
    let gid = registry.create_access_grant(signed_grant(&asset, addr(2), 5)).unwrap();
    let reference = AiDataInputRef { asset_id: asset.asset_id, grant_id: gid }.encode();
    assert!(registry.validate_ai_read_ref(&reference, &addr(3), 10).is_err());
    assert!(registry.validate_ai_read_ref(&reference, &addr(2), 9).is_err());
    assert!(registry.validate_ai_read_ref(&reference, &addr(2), 20).is_err());
    assert!(registry.validate_ai_read_ref(&reference, &addr(2), 19).is_ok());
    assert_eq!(
        registry.revoke_access_grant(&gid, &addr(2)).unwrap_err(),
        "Only AccessGrant owner can revoke"
    );
    registry.revoke_access_grant(&gid, &addr(1)).unwrap();
    assert_eq!(
        registry.consume_ai_read_grant(&gid, &addr(2), 10).unwrap_err(),
        "AccessGrant cannot be consumed"
    );
    let mut truncated = reference.clone();
    truncated.pop();
    assert_eq!(
        registry.validate_ai_read_ref(&truncated, &addr(2), 10).unwrap_err(),
        "Malformed Pollen data reference"
    );
}

#[test]
fn offers_stay_in_id_order() {
    let mut registry = MarketplaceRegistry::default();
    registry.next_offer_id = 5;
    registry.create_offer(addr(1), ContentId([3u8; 32]), 10).unwrap();
    registry.next_offer_id = 2;
    registry.create_offer(addr(1), ContentId([4u8; 32]), 10).unwrap();
    registry.next_offer_id = 5;
    registry.create_offer(addr(2), ContentId([5u8; 32]), 20).unwrap();
    let ids: Vec<u64> = registry.offers.iter().map(|o| o.id).collect();
    assert_eq!(ids, vec![2, 5]);
    assert_eq!(registry.get_offer(5).unwrap().price, 20);
}

#[test]
fn root_changes_when_data_asset_or_grant_changes() {
    let mut registry = MarketplaceRegistry::new();
    let root0 = registry.root();
    let asset = DataAsset::new(addr(1), ContentId::of(b"asset"), [1u8; 32], true);
    registry.register_data_asset(asset.clone()).unwrap();
    let root1 = registry.root();
    assert_ne!(root0, root1);
    registry
        .create_access_grant(signed_grant(&asset, addr(2), 1))
        .unwrap();
    assert_ne!(root1, registry.root());
}

#[test]
fn root_covers_offers_and_next_id() {
    let mut registry = MarketplaceRegistry::new();
    let root0 = registry.root();
    registry.next_offer_id = 1;
    let root1 = registry.root();
    assert_ne!(root0, root1);
    registry.create_offer(addr(1), ContentId([3u8; 32]), 10).unwrap();
    let root2 = registry.root();
    assert_ne!(root1, root2);
    registry.close_offer(1, &addr(1)).unwrap();
    assert_ne!(root2, registry.root());
}

#[test]
fn assets_and_grants_stay_in_id_order() {
    let mut registry = MarketplaceRegistry::new();
    let a = DataAsset::new(addr(1), ContentId::of(b"one"), [1u8; 32], true);
    let b = DataAsset::new(addr(1), ContentId::of(b"two"), [2u8; 32], true);
    let c = DataAsset::new(addr(1), ContentId::of(b"three"), [3u8; 32], true);
    registry.register_data_asset(a.clone()).unwrap();
    registry.register_data_asset(b.clone()).unwrap();
    registry.register_data_asset(c.clone()).unwrap();
    let ids: Vec<[u8; 32]> = registry.data_assets.iter().map(|x| x.asset_id.0).collect();
    let mut sorted = ids.clone();
    sorted.sort();
    assert_eq!(ids, sorted);
}
