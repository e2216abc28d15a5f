//! Pollen data assets, owner-signed access grants, and the reference an AI
//! request uses to name the data it wants to read.
use vstd::prelude::*;
use crate::core_types::address::{Address, ContentId};
use crate::core_types::hash::{field_views, hash_fields_bytes, le_bytes, spec_hash_fields, str_bytes, u32_le_bytes, u64_le_bytes};

verus! {

#[derive(Debug, Clone, Copy, PartialEq, Eq)]
pub struct AssetId(pub [u8; 32]);

#[derive(Debug, Clone, Copy, PartialEq, Eq)]
pub struct GrantId(pub [u8; 32]);

impl From<[u8; 32]> for GrantId {
    fn from(bytes: [u8; 32]) -> (g: Self) {
        GrantId(bytes)
    }
}

impl vstd::std_specs::convert::FromSpecImpl<[u8; 32]> for GrantId {
    open spec fn obeys_from_spec() -> bool {
        true
    }

    open spec fn from_spec(v: [u8; 32]) -> Self {
        GrantId(v)
    }
}

#[derive(Debug, Clone, Copy, PartialEq, Eq, Structural)]
pub enum DataAssetStatus {
    Active,
    Revoked,
}

#[derive(Debug, Clone, Copy, PartialEq, Eq, Structural)]
pub enum AccessGrantStatus {
    Active,
    Revoked,
}

/// A registered data asset. The asset itself is never sold; access to it is,
/// through grants.
#[derive(Debug, Clone, Copy)]
pub struct DataAsset {
    pub asset_id: AssetId,
    pub owner: Address,
    pub cid: ContentId,
    pub metadata_hash: [u8; 32],
    pub ai_training_allowed: bool,
    pub status: DataAssetStatus,
}

/// An owner-signed grant letting `grantee` read an asset `max_reads` times
/// within `[valid_from, valid_until)`.
#[derive(Debug, Clone, Copy)]
pub struct AccessGrant {
    pub grant_id: GrantId,
    pub asset_id: AssetId,
    pub owner: Address,
    pub grantee: Address,
    pub agent: Address,
    pub nonce: u64,
    pub valid_from: u64,
    pub valid_until: u64,
    pub max_reads: u32,
    pub reads_used: u32,
    pub purpose_hash: [u8; 32],
    pub owner_signature: [u8; 64],
    pub status: AccessGrantStatus,
}

pub open spec fn zero_bytes(n: nat) -> Seq<u8> {
    Seq::new(n, |i: int| 0u8)
}

pub open spec fn spec_asset_id(owner: Seq<u8>, cid: Seq<u8>, metadata_hash: Seq<u8>) -> Seq<u8> {
    spec_hash_fields(seq![str_bytes("BDLM_POLLEN_ASSET_V1"), owner, cid, metadata_hash])
}

pub open spec fn asset_error(a: DataAsset) -> Option<Seq<char>> {
    if a.owner.0@ == zero_bytes(32) {
        Some("DataAsset owner cannot be the zero address"@)
    } else if a.cid.0@ == zero_bytes(32) {
        Some("DataAsset content id cannot be zero"@)
    } else {
        None
    }
}

pub open spec fn grant_shape_error(g: AccessGrant) -> Option<Seq<char>> {
    if g.owner_signature@ == zero_bytes(64) {
        Some("AccessGrant must be signed by the owner"@)
    } else if g.grantee.0@ == zero_bytes(32) {
        Some("AccessGrant grantee cannot be the zero address"@)
    } else if g.max_reads == 0 {
        Some("AccessGrant must allow at least one read"@)
    } else if g.valid_from >= g.valid_until {
        Some("AccessGrant validity window is empty"@)
    } else {
        None
    }
}

/// The grant lets `requester` read at `block`.
pub open spec fn grant_active_for(g: AccessGrant, requester: Seq<u8>, block: u64) -> bool {
    &&& g.status == AccessGrantStatus::Active
    &&& g.grantee.0@ == requester
    &&& g.valid_from <= block < g.valid_until
    &&& g.reads_used < g.max_reads
}

fn zero_slice(b: &[u8]) -> (r: bool)
    ensures
        r == (b@ == zero_bytes(b@.len())),
{
    let mut i: usize = 0;
    while i < b.len()
        invariant
            0 <= i <= b@.len(),
            forall|j: int| 0 <= j < i ==> b@[j] == 0u8,
        decreases b@.len() - i,
    {
        if b[i] != 0 {
            assert(b@[i as int] != zero_bytes(b@.len())[i as int]);
            return false;
        }
        i = i + 1;
    }
    assert(b@ =~= zero_bytes(b@.len()));
    true
}

impl DataAsset {
    /// A new active asset; its id is the tagged hash of owner, content id and
    /// metadata hash.
    pub fn new(owner: Address, cid: ContentId, metadata_hash: [u8; 32], ai_training_allowed: bool) -> (a: Self)
        ensures
            a.asset_id.0@ == spec_asset_id(owner.0@, cid.0@, metadata_hash@),
            a.owner == owner,
            a.cid == cid,
            a.metadata_hash == metadata_hash,
            a.ai_training_allowed == ai_training_allowed,
            a.status == DataAssetStatus::Active,
    {
        let tag: &[u8] = "BDLM_POLLEN_ASSET_V1".as_bytes();
        let fields: [&[u8]; 4] = [tag, owner.as_bytes(), &cid.0, &metadata_hash];
        proof {
            assert(field_views(fields@) =~= seq![str_bytes("BDLM_POLLEN_ASSET_V1"), owner.0@, cid.0@, metadata_hash@]);
        }
        let id = hash_fields_bytes(&fields);
        DataAsset { asset_id: AssetId(id), owner, cid, metadata_hash, ai_training_allowed, status: DataAssetStatus::Active }
    }

    pub fn validate(&self) -> (r: Result<(), String>)
        ensures
            match asset_error(*self) {
                Some(e) => r matches Err(m) && m@ == e,
                None => r is Ok,
            },
    {
        if self.owner.is_zero() {
            return Err("DataAsset owner cannot be the zero address".to_owned());
        }
        if zero_slice(&self.cid.0) {
            return Err("DataAsset content id cannot be zero".to_owned());
        }
        Ok(())
    }

    pub fn is_active(&self) -> (b: bool)
        ensures
            b == (self.status == DataAssetStatus::Active),
    {
        self.status == DataAssetStatus::Active
    }
}

pub open spec fn spec_grant_id(
    asset_id: Seq<u8>,
    owner: Seq<u8>,
    grantee: Seq<u8>,
    agent: Seq<u8>,
    nonce: u64,
    valid_from: u64,
    valid_until: u64,
    max_reads: u32,
    purpose_hash: Seq<u8>,
) -> Seq<u8> {
    spec_hash_fields(
        seq![
            str_bytes("BDLM_POLLEN_GRANT_V1"),
            asset_id,
            owner,
            grantee,
            agent,
            le_bytes(nonce as nat, 8),
            le_bytes(valid_from as nat, 8),
            le_bytes(valid_until as nat, 8),
            le_bytes(max_reads as nat, 4),
            purpose_hash,
        ],
    )
}

impl AccessGrant {
    /// An active grant with no reads used and an empty signature; its id
    /// binds every term of the grant.
    pub fn new_unsigned(
        asset_id: AssetId,
        owner: Address,
        grantee: Address,
        agent: Address,
        nonce: u64,
        valid_from: u64,
        valid_until: u64,
        max_reads: u32,
        purpose_hash: [u8; 32],
    ) -> (g: Self)
        ensures
            g.grant_id.0@ == spec_grant_id(
                asset_id.0@,
                owner.0@,
                grantee.0@,
                agent.0@,
                nonce,
                valid_from,
                valid_until,
                max_reads,
                purpose_hash@,
            ),
            g.asset_id == asset_id,
            g.owner == owner,
            g.grantee == grantee,
            g.agent == agent,
            g.nonce == nonce,
            g.valid_from == valid_from,
            g.valid_until == valid_until,
            g.max_reads == max_reads,
            g.reads_used == 0,
            g.purpose_hash == purpose_hash,
            g.owner_signature@ == zero_bytes(64),
            g.status == AccessGrantStatus::Active,
    {
        let tag: &[u8] = "BDLM_POLLEN_GRANT_V1".as_bytes();
        let n = u64_le_bytes(nonce);
        let f = u64_le_bytes(valid_from);
        let u = u64_le_bytes(valid_until);
        let m = u32_le_bytes(max_reads);
        let fields: [&[u8]; 10] = [
            tag,
            &asset_id.0,
            owner.as_bytes(),
            grantee.as_bytes(),
            agent.as_bytes(),
            n.as_slice(),
            f.as_slice(),
            u.as_slice(),
            m.as_slice(),
            &purpose_hash,
        ];
        proof {
            assert(field_views(fields@) =~= seq![
                str_bytes("BDLM_POLLEN_GRANT_V1"),
                asset_id.0@,
                owner.0@,
                grantee.0@,
                agent.0@,
                le_bytes(nonce as nat, 8),
                le_bytes(valid_from as nat, 8),
                le_bytes(valid_until as nat, 8),
                le_bytes(max_reads as nat, 4),
                purpose_hash@,
            ]);
        }
        let id = hash_fields_bytes(&fields);
        let sig = [0u8; 64];
        assert(sig@ =~= zero_bytes(64));
        AccessGrant {
            grant_id: GrantId(id),
            asset_id,
            owner,
            grantee,
            agent,
            nonce,
            valid_from,
            valid_until,
            max_reads,
            reads_used: 0,
            purpose_hash,
            owner_signature: sig,
            status: AccessGrantStatus::Active,
        }
    }

    pub fn validate_shape(&self) -> (r: Result<(), String>)
        ensures
            match grant_shape_error(*self) {
                Some(e) => r matches Err(m) && m@ == e,
                None => r is Ok,
            },
    {
        if zero_slice(&self.owner_signature) {
            return Err("AccessGrant must be signed by the owner".to_owned());
        }
        if self.grantee.is_zero() {
            return Err("AccessGrant grantee cannot be the zero address".to_owned());
        }
        if self.max_reads == 0 {
            return Err("AccessGrant must allow at least one read".to_owned());
        }
        if self.valid_from >= self.valid_until {
            return Err("AccessGrant validity window is empty".to_owned());
        }
        Ok(())
    }

    pub fn is_active_for(&self, requester: &Address, current_block: u64) -> (b: bool)
        ensures
            b == grant_active_for(*self, requester.0@, current_block),
    {
        self.status == AccessGrantStatus::Active && self.grantee == *requester && self.valid_from <= current_block
            && current_block < self.valid_until && self.reads_used < self.max_reads
    }

    /// Count one read; refused once the read budget is spent.
    pub fn record_read(&mut self) -> (r: Result<(), String>)
        ensures
            old(self).reads_used < old(self).max_reads <==> r is Ok,
            r is Ok ==> *final(self) == (AccessGrant { reads_used: (old(self).reads_used + 1) as u32, ..*old(self) }),
            r matches Err(m) ==> m@ == "AccessGrant read budget exhausted"@ && *final(self) == *old(self),
    {
        if self.reads_used >= self.max_reads {
            return Err("AccessGrant read budget exhausted".to_owned());
        }
        self.reads_used = self.reads_used + 1;
        Ok(())
    }
}

/// The tag that marks an AI input as a Pollen data reference.
pub open spec fn ref_magic() -> Seq<u8> {
    str_bytes("BDLM_POLLEN_REF_V1")
}

/// A Pollen data reference: which asset, read under which grant.
#[derive(Debug, Clone, Copy)]
pub struct AiDataInputRef {
    pub asset_id: AssetId,
    pub grant_id: GrantId,
}

/// How an AI input decodes: not a Pollen reference (`Ok(None)`), a
/// malformed one, or a reference.
pub open spec fn spec_decode_ref(b: Seq<u8>) -> Result<Option<(Seq<u8>, Seq<u8>)>, Seq<char>> {
    let m = ref_magic();
    if b.len() < m.len() || b.subrange(0, m.len() as int) != m {
        Ok(None)
    } else if b.len() != m.len() + 64 {
        Err("Malformed Pollen data reference"@)
    } else {
        let l = m.len() as int;
        Ok(Some((b.subrange(l, l + 32), b.subrange(l + 32, l + 64))))
    }
}

fn copy32(b: &[u8], start: usize) -> (a: [u8; 32])
    requires
        start + 32 <= b@.len(),
    ensures
        a@ == b@.subrange(start as int, start + 32),
{
    let mut out = [0u8; 32];
    let n: usize = b.len();
    let mut i: usize = 0;
    while i < 32
        invariant
            0 <= i <= 32,
            n == b@.len(),
            start + 32 <= n,
            out@.len() == 32,
            forall|j: int| 0 <= j < i ==> out@[j] == b@[start + j],
        decreases 32 - i,
    {
        out[i] = b[start + i];
        i = i + 1;
    }
    assert(out@ =~= b@.subrange(start as int, start + 32));
    out
}

impl AiDataInputRef {
    /// The tag followed by the asset id and the grant id.
    pub fn encode(&self) -> (v: Vec<u8>)
        ensures
            v@ == ref_magic() + self.asset_id.0@ + self.grant_id.0@,
    {
        let mut v: Vec<u8> = Vec::new();
        crate::core_types::hash::extend_bytes(&mut v, "BDLM_POLLEN_REF_V1".as_bytes());
        crate::core_types::hash::extend_bytes(&mut v, &self.asset_id.0);
        crate::core_types::hash::extend_bytes(&mut v, &self.grant_id.0);
        v
    }

    pub fn decode(b: &[u8]) -> (r: Result<Option<Self>, String>)
        ensures
            match spec_decode_ref(b@) {
                Ok(None) => r matches Ok(None),
                Ok(Some((a, g))) => r matches Ok(Some(x)) && x.asset_id.0@ == a && x.grant_id.0@ == g,
                Err(e) => r matches Err(m) && m@ == e,
            },
    {
        let magic: &[u8] = "BDLM_POLLEN_REF_V1".as_bytes();
        let ml: usize = magic.len();
        assert(magic@ == ref_magic());
        if b.len() < ml {
            return Ok(None);
        }
        let mut i: usize = 0;
        while i < ml
            invariant
                0 <= i <= ml,
                ml == magic@.len(),
                magic@ == ref_magic(),
                ml <= b@.len(),
                forall|j: int| 0 <= j < i ==> b@[j] == magic@[j],
            decreases ml - i,
        {
            if b[i] != magic[i] {
                assert(b@.subrange(0, ml as int)[i as int] != magic@[i as int]);
                return Ok(None);
            }
            i = i + 1;
        }
        assert(b@.subrange(0, ml as int) =~= magic@);
        if b.len() - ml != 64 {
            return Err("Malformed Pollen data reference".to_owned());
        }
        let asset = copy32(b, ml);
        let grant = copy32(b, ml + 32);
        Ok(Some(AiDataInputRef { asset_id: AssetId(asset), grant_id: GrantId(grant) }))
    }
}

pub open spec fn asset_status_byte(s: DataAssetStatus) -> u8 {
    match s {
        DataAssetStatus::Active => 0,
        DataAssetStatus::Revoked => 1,
    }
}

pub open spec fn grant_status_byte(s: AccessGrantStatus) -> u8 {
    match s {
        AccessGrantStatus::Active => 0,
        AccessGrantStatus::Revoked => 1,
    }
}

pub open spec fn bool_byte(b: bool) -> u8 {
    if b {
        1
    } else {
        0
    }
}

/// The commitment leaf of an asset: the tagged hash of all its fields.
pub open spec fn spec_asset_leaf(a: DataAsset) -> Seq<u8> {
    spec_hash_fields(
        seq![
            str_bytes("BDLM_POLLEN_ASSET_LEAF_V1"),
            a.asset_id.0@,
            a.owner.0@,
            a.cid.0@,
            a.metadata_hash@,
            seq![bool_byte(a.ai_training_allowed)],
            seq![asset_status_byte(a.status)],
        ],
    )
}

/// The commitment leaf of a grant: the tagged hash of all its fields.
pub open spec fn spec_grant_leaf(g: AccessGrant) -> Seq<u8> {
    spec_hash_fields(
        seq![
            str_bytes("BDLM_POLLEN_GRANT_LEAF_V1"),
            g.grant_id.0@,
            g.asset_id.0@,
            g.owner.0@,
            g.grantee.0@,
            g.agent.0@,
            le_bytes(g.nonce as nat, 8),
            le_bytes(g.valid_from as nat, 8),
            le_bytes(g.valid_until as nat, 8),
            le_bytes(g.max_reads as nat, 4),
            le_bytes(g.reads_used as nat, 4),
            g.purpose_hash@,
            g.owner_signature@,
            seq![grant_status_byte(g.status)],
        ],
    )
}

impl DataAsset {
    /// The asset's commitment leaf.
    pub fn calculate_leaf(&self) -> (r: [u8; 32])
        ensures
            r@ == spec_asset_leaf(*self),
    {
        let tag: &[u8] = "BDLM_POLLEN_ASSET_LEAF_V1".as_bytes();
        let flag: [u8; 1] = [if self.ai_training_allowed { 1u8 } else { 0u8 }];
        let status: [u8; 1] = [match self.status {
            DataAssetStatus::Active => 0u8,
            DataAssetStatus::Revoked => 1u8,
        }];
        let fields: [&[u8]; 7] = [tag, &self.asset_id.0, self.owner.as_bytes(), &self.cid.0, &self.metadata_hash, &flag, &status];
        proof {
            assert(flag@ =~= seq![bool_byte(self.ai_training_allowed)]);
            assert(status@ =~= seq![asset_status_byte(self.status)]);
            assert(field_views(fields@) =~= seq![
                str_bytes("BDLM_POLLEN_ASSET_LEAF_V1"),
                self.asset_id.0@,
                self.owner.0@,
                self.cid.0@,
                self.metadata_hash@,
                seq![bool_byte(self.ai_training_allowed)],
                seq![asset_status_byte(self.status)],
            ]);
        }
        hash_fields_bytes(&fields)
    }
}

impl AccessGrant {
    /// The grant's commitment leaf.
    pub fn calculate_leaf(&self) -> (r: [u8; 32])
        ensures
            r@ == spec_grant_leaf(*self),
    {
        let tag: &[u8] = "BDLM_POLLEN_GRANT_LEAF_V1".as_bytes();
        let n = u64_le_bytes(self.nonce);
        let f = u64_le_bytes(self.valid_from);
        let u = u64_le_bytes(self.valid_until);
        let m = u32_le_bytes(self.max_reads);
        let used = u32_le_bytes(self.reads_used);
        let status: [u8; 1] = [match self.status {
            AccessGrantStatus::Active => 0u8,
            AccessGrantStatus::Revoked => 1u8,
        }];
        let fields: [&[u8]; 14] = [
            tag,
            &self.grant_id.0,
            &self.asset_id.0,
            self.owner.as_bytes(),
            self.grantee.as_bytes(),
            self.agent.as_bytes(),
            n.as_slice(),
            f.as_slice(),
            u.as_slice(),
            m.as_slice(),
            used.as_slice(),
            &self.purpose_hash,
            &self.owner_signature,
            &status,
        ];
        proof {
            assert(status@ =~= seq![grant_status_byte(self.status)]);
            assert(field_views(fields@) =~= seq![
                str_bytes("BDLM_POLLEN_GRANT_LEAF_V1"),
                self.grant_id.0@,
                self.asset_id.0@,
                self.owner.0@,
                self.grantee.0@,
                self.agent.0@,
                le_bytes(self.nonce as nat, 8),
                le_bytes(self.valid_from as nat, 8),
                le_bytes(self.valid_until as nat, 8),
                le_bytes(self.max_reads as nat, 4),
                le_bytes(self.reads_used as nat, 4),
                self.purpose_hash@,
                self.owner_signature@,
                seq![grant_status_byte(self.status)],
            ]);
        }
        hash_fields_bytes(&fields)
    }
}

} // verus!
