//! The DeEd manifest: binds an artifact's content address, meaning, owner,
//! visibility and metadata into a deterministic identity.
use vstd::prelude::*;
use vstd::string::StringSliceAdditionalSpecFns;
use crate::core_types::address::{Address, ContentId};
use crate::core_types::hash::{
    field_views, fields_fit, frame_fields, hash_fields_bytes, le_bytes, lemma_byte_bounds, lemma_frame_injective,
    lemma_le_bytes_injective, lemma_le_bytes_value, spec_hash_fields, str_bytes, u64_le_bytes,
};

verus! {

/// DeEd artifact categories; the bytes stay in B.U.D.
#[derive(Debug, Clone, Copy, PartialEq, Eq, Structural)]
pub enum ArtifactKind {
    Dataset,
    Research,
    IntellectualProperty,
    Educational,
}

pub open spec fn artifact_kind_bytes(k: ArtifactKind) -> Seq<u8> {
    match k {
        ArtifactKind::Dataset => str_bytes("dataset"),
        ArtifactKind::Research => str_bytes("research"),
        ArtifactKind::IntellectualProperty => str_bytes("intellectual_property"),
        ArtifactKind::Educational => str_bytes("educational"),
    }
}

impl ArtifactKind {
    fn as_bytes(self) -> (b: &'static [u8])
        ensures
            b@ == artifact_kind_bytes(self),
    {
        match self {
            ArtifactKind::Dataset => "dataset".as_bytes(),
            ArtifactKind::Research => "research".as_bytes(),
            ArtifactKind::IntellectualProperty => "intellectual_property".as_bytes(),
            ArtifactKind::Educational => "educational".as_bytes(),
        }
    }
}

/// Who may see an artifact.
#[derive(Debug, Clone, Copy, PartialEq, Eq, Structural)]
pub enum Visibility {
    Public,
    EducatorOnly,
    PeerOnly,
}

pub open spec fn visibility_bytes(v: Visibility) -> Seq<u8> {
    match v {
        Visibility::Public => str_bytes("public"),
        Visibility::EducatorOnly => str_bytes("educator_only"),
        Visibility::PeerOnly => str_bytes("peer_only"),
    }
}

impl Visibility {
    fn as_bytes(self) -> (b: &'static [u8])
        ensures
            b@ == visibility_bytes(self),
    {
        match self {
            Visibility::Public => "public".as_bytes(),
            Visibility::EducatorOnly => "educator_only".as_bytes(),
            Visibility::PeerOnly => "peer_only".as_bytes(),
        }
    }
}

#[derive(Debug, Clone, Copy, PartialEq, Eq)]
pub struct Manifest {
    pub contributor: Address,
    pub content_id: ContentId,
    pub artifact_kind: ArtifactKind,
    pub visibility: Visibility,
    pub metadata_hash: [u8; 32],
    pub created_at: u64,
}

pub open spec fn zero32() -> Seq<u8> {
    Seq::new(32, |i: int| 0u8)
}

/// Why a manifest is invalid, if it is: the first of a zero contributor,
/// zero content id, zero metadata hash, or zero creation time.
pub open spec fn manifest_error(m: Manifest) -> Option<Seq<char>> {
    if m.contributor.0@ == zero32() {
        Some("DeEd contributor cannot be the zero address"@)
    } else if m.content_id.0@ == zero32() {
        Some("DeEd content_id cannot be zero"@)
    } else if m.metadata_hash@ == zero32() {
        Some("DeEd metadata_hash cannot be zero"@)
    } else if m.created_at == 0 {
        Some("DeEd created_at cannot be zero"@)
    } else {
        None
    }
}

/// The tagged fields a manifest's identity commits to.
pub open spec fn manifest_fields(m: Manifest) -> Seq<Seq<u8>> {
    seq![
        str_bytes("BDLM_DEED_MANIFEST_V1"),
        m.contributor.0@,
        m.content_id.0@,
        artifact_kind_bytes(m.artifact_kind),
        visibility_bytes(m.visibility),
        m.metadata_hash@,
        le_bytes(m.created_at as nat, 8),
    ]
}

/// The manifest identity: the framed-field hash of its tagged fields.
pub open spec fn spec_manifest_id(m: Manifest) -> Seq<u8> {
    spec_hash_fields(manifest_fields(m))
}

fn is_zero32(b: &[u8; 32]) -> (r: bool)
    ensures
        r == (b@ == zero32()),
{
    let mut i: usize = 0;
    while i < 32
        invariant
            0 <= i <= 32,
            forall|j: int| 0 <= j < i ==> b@[j] == 0u8,
        decreases 32 - i,
    {
        if b[i] != 0 {
            assert(b@[i as int] != zero32()[i as int]);
            return false;
        }
        i = i + 1;
    }
    assert(b@ =~= zero32());
    true
}

impl Manifest {
    pub fn validate(&self) -> (r: Result<(), &'static str>)
        ensures
            match manifest_error(*self) {
                Some(e) => r matches Err(m) && m@ == e,
                None => r is Ok,
            },
    {
        if self.contributor.is_zero() {
            return Err("DeEd contributor cannot be the zero address");
        }
        if is_zero32(&self.content_id.0) {
            return Err("DeEd content_id cannot be zero");
        }
        if is_zero32(&self.metadata_hash) {
            return Err("DeEd metadata_hash cannot be zero");
        }
        if self.created_at == 0 {
            return Err("DeEd created_at cannot be zero");
        }
        Ok(())
    }

    pub fn id(&self) -> (r: [u8; 32])
        ensures
            r@ == spec_manifest_id(*self),
    {
        let tag: &[u8] = "BDLM_DEED_MANIFEST_V1".as_bytes();
        let created = u64_le_bytes(self.created_at);
        let fields: [&[u8]; 7] = [
            tag,
            self.contributor.as_bytes(),
            &self.content_id.0,
            self.artifact_kind.as_bytes(),
            self.visibility.as_bytes(),
            &self.metadata_hash,
            created.as_slice(),
        ];
        proof {
            assert(field_views(fields@) =~= seq![
                str_bytes("BDLM_DEED_MANIFEST_V1"),
                self.contributor.0@,
                self.content_id.0@,
                artifact_kind_bytes(self.artifact_kind),
                visibility_bytes(self.visibility),
                self.metadata_hash@,
                le_bytes(self.created_at as nat, 8),
            ]);
        }
        hash_fields_bytes(&fields)
    }
}

proof fn lemma_kind_bytes(k1: ArtifactKind, k2: ArtifactKind, v1: Visibility, v2: Visibility)
    ensures
        artifact_kind_bytes(k1).len() < 32,
        visibility_bytes(v1).len() < 32,
        artifact_kind_bytes(k1) == artifact_kind_bytes(k2) ==> k1 == k2,
        visibility_bytes(v1) == visibility_bytes(v2) ==> v1 == v2,
{
    broadcast use vstd::string::is_ascii_spec_bytes;
    reveal_strlit("dataset");
    reveal_strlit("research");
    reveal_strlit("intellectual_property");
    reveal_strlit("educational");
    reveal_strlit("public");
    reveal_strlit("educator_only");
    reveal_strlit("peer_only");
    assert(vstd::string::is_ascii("dataset"));
    assert(vstd::string::is_ascii("research"));
    assert(vstd::string::is_ascii("intellectual_property"));
    assert(vstd::string::is_ascii("educational"));
    assert(vstd::string::is_ascii("public"));
    assert(vstd::string::is_ascii("educator_only"));
    assert(vstd::string::is_ascii("peer_only"));
}

/// The manifest id commits to every field: two manifests whose id preimages
/// (the framed tagged fields) are equal agree on contributor, content,
/// artifact kind, visibility, metadata hash and creation time. Distinct
/// manifests therefore get distinct ids unless SHA-256 collides.
pub proof fn law_manifest_id_binds_fields(m1: Manifest, m2: Manifest)
    requires
        frame_fields(manifest_fields(m1)) == frame_fields(manifest_fields(m2)),
    ensures
        m1.contributor.0@ == m2.contributor.0@,
        m1.content_id.0@ == m2.content_id.0@,
        m1.artifact_kind == m2.artifact_kind,
        m1.visibility == m2.visibility,
        m1.metadata_hash@ == m2.metadata_hash@,
        m1.created_at == m2.created_at,
{
    broadcast use vstd::string::is_ascii_spec_bytes;
    reveal_strlit("BDLM_DEED_MANIFEST_V1");
    assert(vstd::string::is_ascii("BDLM_DEED_MANIFEST_V1"));
    lemma_byte_bounds();
    lemma_kind_bytes(m1.artifact_kind, m2.artifact_kind, m1.visibility, m2.visibility);
    lemma_kind_bytes(m2.artifact_kind, m1.artifact_kind, m2.visibility, m1.visibility);
    lemma_le_bytes_value(m1.created_at as nat, 8);
    lemma_le_bytes_value(m2.created_at as nat, 8);
    let f1 = manifest_fields(m1);
    let f2 = manifest_fields(m2);
    assert(fields_fit(f1));
    assert(fields_fit(f2));
    lemma_frame_injective(f1, f2);
    assert(f1[1] == f2[1] && f1[2] == f2[2] && f1[3] == f2[3] && f1[4] == f2[4] && f1[5] == f2[5] && f1[6] == f2[6]);
    lemma_le_bytes_injective(m1.created_at as nat, m2.created_at as nat, 8);
}

} // verus!
