use budlum_core::core_types::address::{Address, ContentId};
use budlum_core::deed::manifest::{ArtifactKind, Manifest, Visibility};
use budlum_core::deed::roles;

fn manifest() -> Manifest {
    Manifest {
        contributor: Address::from([7u8; 32]),
        content_id: ContentId([8u8; 32]),
        artifact_kind: ArtifactKind::Research,
        visibility: Visibility::EducatorOnly,
        metadata_hash: [9u8; 32],
        created_at: 42,
    }
}

#[test]
fn valid_manifest_is_deterministic() {
    let value = manifest();
    assert!(value.validate().is_ok());
    assert_eq!(value.id(), value.id());
}

#[test]
fn manifest_id_binds_every_security_relevant_field() {
    let base = manifest();
    let mut variants = Vec::new();

    let mut value = base.clone();
    value.contributor = Address::from([1u8; 32]);
    variants.push(value);
    let mut value = base.clone();
    value.content_id = ContentId([2u8; 32]);
    variants.push(value);
    let mut value = base.clone();
    value.artifact_kind = ArtifactKind::Dataset;
    variants.push(value);
    let mut value = base.clone();
    value.visibility = Visibility::Public;
    variants.push(value);
    let mut value = base.clone();
    value.metadata_hash = [3u8; 32];
    variants.push(value);
    let mut value = base;
    value.created_at = 43;
    variants.push(value);

    for variant in variants {
        assert_ne!(variant.id(), manifest().id());
    }
}

#[test]
fn manifest_rejects_zero_identity_content_and_metadata() {
    let mut value = manifest();
    value.contributor = Address::zero();
    assert_eq!(value.validate(), Err("DeEd contributor cannot be the zero address"));
    value = manifest();
    value.content_id = ContentId([0u8; 32]);
    assert_eq!(value.validate(), Err("DeEd content_id cannot be zero"));
    value = manifest();
    value.metadata_hash = [0u8; 32];
    assert_eq!(value.validate(), Err("DeEd metadata_hash cannot be zero"));
    value = manifest();
    value.created_at = 0;
    assert_eq!(value.validate(), Err("DeEd created_at cannot be zero"));
}

#[test]
fn permissionless_roles_are_distinct() {
    assert_ne!(roles::industry_sponsor(), roles::research_contributor());
    assert_eq!(roles::industry_sponsor().value(), 10);
    assert_eq!(roles::research_contributor().value(), 11);
}

#[test]
fn first_failing_check_is_reported() {
    let mut value = manifest();
    value.contributor = Address::zero();
    value.created_at = 0;
    assert_eq!(value.validate(), Err("DeEd contributor cannot be the zero address"));
}
