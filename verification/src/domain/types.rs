//! Consensus domains and the commitments they post to settlement.
use vstd::prelude::*;
use vstd::string::StringSliceAdditionalSpecFns;
use vstd::utf8::encode_utf8;
use crate::core_types::addr_map::{AddressMap, sorted_entries, entries_map, entry_views, keys_sorted, key_of, lemma_entries_map_at, lemma_sorted_entries_of};
use crate::core_types::address::Address;
use crate::core_types::block::Block;
use crate::core_types::hash::{
    byte_bound, extend_bytes, field_views, fields_fit, frame_fields, hash_fields_bytes, le_bytes, lemma_byte_bounds,
    lemma_frame_injective, lemma_le_bytes_injective, lemma_le_bytes_value, spec_hash_fields, str_bytes, u32_le_bytes,
    u64_le_bytes, u128_le_bytes,
};
use crate::core_types::hex::{hex_decode, spec_hex_decode};

verus! {

pub type DomainId = u32;

pub type Hash32 = [u8; 32];

#[derive(Debug, Clone, PartialEq, Eq)]
pub enum ConsensusKind {
    PoW,
    PoS,
    PoA,
    Bft,
    Zk,
    Custom(String),
}

pub open spec fn consensus_kind_bytes(k: ConsensusKind) -> Seq<u8> {
    match k {
        ConsensusKind::PoW => str_bytes("pow"),
        ConsensusKind::PoS => str_bytes("pos"),
        ConsensusKind::PoA => str_bytes("poa"),
        ConsensusKind::Bft => str_bytes("bft"),
        ConsensusKind::Zk => str_bytes("zk"),
        ConsensusKind::Custom(name) => str_bytes("custom:") + encode_utf8(name@),
    }
}

fn static_bytes(s: &'static str) -> (v: Vec<u8>)
    ensures
        v@ == str_bytes(s),
{
    let mut v: Vec<u8> = Vec::new();
    extend_bytes(&mut v, s.as_bytes());
    v
}

fn custom_bytes(name: &String) -> (v: Vec<u8>)
    ensures
        v@ == str_bytes("custom:") + encode_utf8(name@),
{
    let mut out = static_bytes("custom:");
    extend_bytes(&mut out, name.as_str().as_bytes());
    out
}

impl ConsensusKind {
    /// A copy of this kind.
    pub fn duplicate(&self) -> (r: Self)
        ensures
            r == *self,
    {
        match self {
            ConsensusKind::PoW => ConsensusKind::PoW,
            ConsensusKind::PoS => ConsensusKind::PoS,
            ConsensusKind::PoA => ConsensusKind::PoA,
            ConsensusKind::Bft => ConsensusKind::Bft,
            ConsensusKind::Zk => ConsensusKind::Zk,
            ConsensusKind::Custom(name) => ConsensusKind::Custom(name.clone()),
        }
    }

    pub fn as_bytes(&self) -> (v: Vec<u8>)
        ensures
            v@ == consensus_kind_bytes(*self),
    {
        match self {
            ConsensusKind::PoW => static_bytes("pow"),
            ConsensusKind::PoS => static_bytes("pos"),
            ConsensusKind::PoA => static_bytes("poa"),
            ConsensusKind::Bft => static_bytes("bft"),
            ConsensusKind::Zk => static_bytes("zk"),
            ConsensusKind::Custom(name) => custom_bytes(name),
        }
    }
}

#[derive(Debug, Clone, Copy, PartialEq, Eq, Structural)]
pub enum DomainStatus {
    Active,
    Frozen,
    Retired,
}

#[derive(Debug, Clone, PartialEq, Eq)]
pub enum RootScheme {
    BudlumBlockV2,
    Sha256,
    Sha3_256,
    Custom(String),
}

pub open spec fn root_scheme_bytes(s: RootScheme) -> Seq<u8> {
    match s {
        RootScheme::BudlumBlockV2 => str_bytes("budlum-block-v2"),
        RootScheme::Sha256 => str_bytes("sha256"),
        RootScheme::Sha3_256 => str_bytes("sha3-256"),
        RootScheme::Custom(name) => str_bytes("custom:") + encode_utf8(name@),
    }
}

impl RootScheme {
    pub fn as_bytes(&self) -> (v: Vec<u8>)
        ensures
            v@ == root_scheme_bytes(*self),
    {
        match self {
            RootScheme::BudlumBlockV2 => static_bytes("budlum-block-v2"),
            RootScheme::Sha256 => static_bytes("sha256"),
            RootScheme::Sha3_256 => static_bytes("sha3-256"),
            RootScheme::Custom(name) => custom_bytes(name),
        }
    }
}

#[derive(Debug, Clone, PartialEq, Eq)]
pub struct ConsensusDomain {
    pub id: DomainId,
    pub kind: ConsensusKind,
    pub status: DomainStatus,
    pub domain_chain_id: u64,
    pub operator: Option<Address>,
    pub operator_bond: u64,
    pub config_hash: Hash32,
    pub validator_set_hash: Hash32,
    pub finality_adapter: String,
    pub min_confirmations: u64,
    pub bridge_enabled: bool,
    pub block_hash_scheme: RootScheme,
    pub state_root_scheme: RootScheme,
    pub tx_root_scheme: RootScheme,
    pub last_committed_height: u64,
    pub last_committed_hash: Hash32,
}

impl ConsensusDomain {
    pub fn is_active(&self) -> (b: bool)
        ensures
            b == (self.status == DomainStatus::Active),
    {
        self.status == DomainStatus::Active
    }

    /// The domain has an operator who has bonded at least `minimum_bond`.
    pub fn has_operator_bond(&self, minimum_bond: u64) -> (b: bool)
        ensures
            b == (self.operator is Some && self.operator_bond >= minimum_bond),
    {
        self.operator.is_some() && self.operator_bond >= minimum_bond
    }
}

#[derive(Debug, Clone)]
pub struct DomainCommitment {
    pub domain_id: DomainId,
    pub domain_height: u64,
    pub domain_block_hash: Hash32,
    pub parent_domain_block_hash: Hash32,
    pub state_root: Hash32,
    pub tx_root: Hash32,
    pub event_root: Hash32,
    pub finality_proof_hash: Hash32,
    pub consensus_kind: ConsensusKind,
    pub validator_set_hash: Hash32,
    pub timestamp_ms: u128,
    pub sequence: u64,
    pub producer: Option<Address>,
    /// Nonce updates by address, kept in address order.
    pub state_updates: AddressMap<u64>,
}

/// A domain root given as text: its 32 bytes if the text is 64 hex digits
/// or exactly 32 bytes long; otherwise a tagged hash of it under the domain
/// and scheme.
pub open spec fn spec_normalize_hash32(tag: Seq<u8>, domain_id: DomainId, scheme: RootScheme, raw: Seq<u8>) -> Seq<u8> {
    match spec_hex_decode(raw) {
        Some(d) if d.len() == 32 => d,
        _ => if raw.len() == 32 {
            raw
        } else {
            spec_hash_fields(
                seq![str_bytes("BDLM_NORMALIZED_ROOT_V1"), tag, le_bytes(domain_id as nat, 4), root_scheme_bytes(scheme), raw],
            )
        },
    }
}

fn to_array32(v: &[u8]) -> (a: [u8; 32])
    requires
        v@.len() == 32,
    ensures
        a@ == v@,
{
    let mut out = [0u8; 32];
    let mut i: usize = 0;
    while i < 32
        invariant
            0 <= i <= 32,
            v@.len() == 32,
            out@.len() == 32,
            forall|j: int| 0 <= j < i ==> out@[j] == v@[j],
        decreases 32 - i,
    {
        out[i] = v[i];
        i = i + 1;
    }
    assert(out@ =~= v@);
    out
}

pub fn normalize_hash32(tag: &[u8], domain_id: DomainId, scheme: &RootScheme, raw: &[u8]) -> (r: Result<Hash32, String>)
    ensures
        r matches Ok(h) && h@ == spec_normalize_hash32(tag@, domain_id, *scheme, raw@),
{
    match hex_decode(raw) {
        Ok(decoded) => {
            if decoded.len() == 32 {
                return Ok(to_array32(decoded.as_slice()));
            }
        },
        Err(_) => {},
    }
    if raw.len() == 32 {
        return Ok(to_array32(raw));
    }
    let scheme_bytes = scheme.as_bytes();
    let id = u32_le_bytes(domain_id);
    let label: &[u8] = "BDLM_NORMALIZED_ROOT_V1".as_bytes();
    let fields: [&[u8]; 5] = [label, tag, id.as_slice(), scheme_bytes.as_slice(), raw];
    proof {
        assert(field_views(fields@) =~= seq![str_bytes("BDLM_NORMALIZED_ROOT_V1"), tag@, le_bytes(domain_id as nat, 4), root_scheme_bytes(*scheme), raw@]);
    }
    Ok(hash_fields_bytes(&fields))
}

/// State updates as address bytes then little-endian nonce, in address order.
pub open spec fn updates_bytes(s: Seq<(Seq<u8>, u64)>) -> Seq<u8>
    decreases s.len(),
{
    if s.len() == 0 {
        Seq::empty()
    } else {
        updates_bytes(s.drop_last()) + s.last().0 + le_bytes(s.last().1 as nat, 8)
    }
}

pub open spec fn opt_address_bytes(p: Option<Address>) -> Seq<u8> {
    match p {
        Some(a) => a.0@,
        None => Seq::empty(),
    }
}

/// The tagged fields a commitment's settlement leaf hashes.
pub open spec fn commitment_fields(c: DomainCommitment) -> Seq<Seq<u8>> {
        seq![
            str_bytes("BDLM_DOMAIN_COMMITMENT_V1"),
            le_bytes(c.domain_id as nat, 4),
            le_bytes(c.domain_height as nat, 8),
            c.domain_block_hash@,
            c.parent_domain_block_hash@,
            c.state_root@,
            c.tx_root@,
            c.event_root@,
            c.finality_proof_hash@,
            consensus_kind_bytes(c.consensus_kind),
            c.validator_set_hash@,
            le_bytes(c.timestamp_ms as nat, 16),
            le_bytes(c.sequence as nat, 8),
            opt_address_bytes(c.producer),
            updates_bytes(sorted_entries(c.state_updates@)),
        ]
}

/// The settlement leaf of a commitment.
pub open spec fn spec_commitment_leaf(c: DomainCommitment) -> Seq<u8> {
    spec_hash_fields(commitment_fields(c))
}

impl DomainCommitment {
    /// The commitment of a domain block: its hash, parent hash, state root
    /// and transaction root normalized under the domain's schemes.
    pub fn from_block(
        domain: &ConsensusDomain,
        block: &Block,
        event_root: Hash32,
        finality_proof_hash: Hash32,
        sequence: u64,
    ) -> (r: Result<Self, String>)
        ensures
            r matches Ok(c) && c.domain_id == domain.id && c.domain_height == block.index
                && c.domain_block_hash@ == spec_normalize_hash32(str_bytes("domain_block_hash"), domain.id, domain.block_hash_scheme, encode_utf8(block.hash@))
                && c.parent_domain_block_hash@ == spec_normalize_hash32(str_bytes("parent_domain_block_hash"), domain.id, domain.block_hash_scheme, encode_utf8(block.previous_hash@))
                && c.state_root@ == spec_normalize_hash32(str_bytes("state_root"), domain.id, domain.state_root_scheme, encode_utf8(block.state_root@))
                && c.tx_root@ == spec_normalize_hash32(str_bytes("tx_root"), domain.id, domain.tx_root_scheme, encode_utf8(block.tx_root@))
                && c.event_root == event_root && c.finality_proof_hash == finality_proof_hash
                && c.consensus_kind == domain.kind && c.validator_set_hash == domain.validator_set_hash
                && c.timestamp_ms == block.timestamp && c.sequence == sequence && c.producer == block.producer
                && c.state_updates.wf() && c.state_updates@ == Map::<Seq<u8>, u64>::empty(),
    {
        let domain_block_hash = normalize_hash32("domain_block_hash".as_bytes(), domain.id, &domain.block_hash_scheme, block.hash.as_str().as_bytes())?;
        let parent_domain_block_hash = normalize_hash32("parent_domain_block_hash".as_bytes(), domain.id, &domain.block_hash_scheme, block.previous_hash.as_str().as_bytes())?;
        let state_root = normalize_hash32("state_root".as_bytes(), domain.id, &domain.state_root_scheme, block.state_root.as_str().as_bytes())?;
        let tx_root = normalize_hash32("tx_root".as_bytes(), domain.id, &domain.tx_root_scheme, block.tx_root.as_str().as_bytes())?;
        Ok(DomainCommitment {
            domain_id: domain.id,
            domain_height: block.index,
            domain_block_hash,
            parent_domain_block_hash,
            state_root,
            tx_root,
            event_root,
            finality_proof_hash,
            consensus_kind: domain.kind.duplicate(),
            validator_set_hash: domain.validator_set_hash,
            timestamp_ms: block.timestamp,
            sequence,
            producer: block.producer,
            state_updates: AddressMap::new(),
        })
    }

    pub fn leaf_hash(&self) -> (h: Hash32)
        requires
            self.state_updates.wf(),
        ensures
            h@ == spec_commitment_leaf(*self),
    {
        let kind = self.consensus_kind.as_bytes();
        let producer: &[u8] = match &self.producer {
            Some(a) => a.as_bytes(),
            None => &[],
        };
        proof {
            self.state_updates.lemma_canonical();
        }
        let ghost es = sorted_entries(self.state_updates@);
        let mut updates: Vec<u8> = Vec::new();
        let n: usize = self.state_updates.len();
        let mut i: usize = 0;
        while i < n
            invariant
                0 <= i <= n,
                n == es.len(),
                es == crate::core_types::addr_map::entry_views(self.state_updates.entries_seq()),
                updates@ == updates_bytes(es.subrange(0, i as int)),
            decreases n - i,
        {
            let (a, nonce) = self.state_updates.entry(i);
            extend_bytes(&mut updates, a.as_bytes());
            let nb = u64_le_bytes(nonce);
            extend_bytes(&mut updates, nb.as_slice());
            proof {
                assert(es.subrange(0, i + 1).drop_last() =~= es.subrange(0, i as int));
                assert(es.subrange(0, i + 1).last() == (a.0@, nonce));
            }
            i = i + 1;
        }
        assert(es.subrange(0, n as int) =~= es);
        let tag: &[u8] = "BDLM_DOMAIN_COMMITMENT_V1".as_bytes();
        let id = u32_le_bytes(self.domain_id);
        let height = u64_le_bytes(self.domain_height);
        let ts = u128_le_bytes(self.timestamp_ms);
        let seq_bytes = u64_le_bytes(self.sequence);
        let fields: [&[u8]; 15] = [
            tag,
            id.as_slice(),
            height.as_slice(),
            &self.domain_block_hash,
            &self.parent_domain_block_hash,
            &self.state_root,
            &self.tx_root,
            &self.event_root,
            &self.finality_proof_hash,
            kind.as_slice(),
            &self.validator_set_hash,
            ts.as_slice(),
            seq_bytes.as_slice(),
            producer,
            updates.as_slice(),
        ];
        proof {
            assert(producer@ == opt_address_bytes(self.producer));
            assert(field_views(fields@) =~= seq![
                str_bytes("BDLM_DOMAIN_COMMITMENT_V1"),
                le_bytes(self.domain_id as nat, 4),
                le_bytes(self.domain_height as nat, 8),
                self.domain_block_hash@,
                self.parent_domain_block_hash@,
                self.state_root@,
                self.tx_root@,
                self.event_root@,
                self.finality_proof_hash@,
                consensus_kind_bytes(self.consensus_kind),
                self.validator_set_hash@,
                le_bytes(self.timestamp_ms as nat, 16),
                le_bytes(self.sequence as nat, 8),
                opt_address_bytes(self.producer),
                updates_bytes(sorted_entries(self.state_updates@)),
            ]);
        }
        hash_fields_bytes(&fields)
    }
}

/// A commitment together with the encoded finality proof that admitted it.
#[derive(Debug, Clone)]
pub struct VerifiedDomainCommitment {
    pub commitment: DomainCommitment,
    pub proof: Vec<u8>,
}

impl VerifiedDomainCommitment {
    pub fn leaf_hash(&self) -> (h: Hash32)
        requires
            self.commitment.state_updates.wf(),
        ensures
            h@ == spec_commitment_leaf(self.commitment),
    {
        self.commitment.leaf_hash()
    }
}

/// Two consensus kinds agree: the same variant, custom names by their text.
pub open spec fn same_kind(a: ConsensusKind, b: ConsensusKind) -> bool {
    match (a, b) {
        (ConsensusKind::Custom(x), ConsensusKind::Custom(y)) => x@ == y@,
        (ConsensusKind::Custom(_), _) => false,
        (_, ConsensusKind::Custom(_)) => false,
        _ => a == b,
    }
}

/// Distinct consensus kinds have distinct byte labels: equal labels come from
/// the same variant, and custom kinds with equal labels have equal names.
pub proof fn law_consensus_kind_bytes_injective(a: ConsensusKind, b: ConsensusKind)
    requires
        consensus_kind_bytes(a) == consensus_kind_bytes(b),
    ensures
        same_kind(a, b),
{
    broadcast use vstd::string::is_ascii_spec_bytes;
    broadcast use vstd::utf8::encode_utf8_decode_utf8;
    reveal_strlit("pow");
    reveal_strlit("pos");
    reveal_strlit("poa");
    reveal_strlit("bft");
    reveal_strlit("zk");
    reveal_strlit("custom:");
    assert(vstd::string::is_ascii("pow"));
    assert(vstd::string::is_ascii("pos"));
    assert(vstd::string::is_ascii("poa"));
    assert(vstd::string::is_ascii("bft"));
    assert(vstd::string::is_ascii("zk"));
    assert(vstd::string::is_ascii("custom:"));
    assert(str_bytes("pow") =~= seq![112u8, 111u8, 119u8]);
    assert(str_bytes("pos") =~= seq![112u8, 111u8, 115u8]);
    assert(str_bytes("poa") =~= seq![112u8, 111u8, 97u8]);
    assert(str_bytes("bft") =~= seq![98u8, 102u8, 116u8]);
    assert(str_bytes("zk").len() == 2);
    assert(str_bytes("custom:").len() == 7);
    match (a, b) {
        (ConsensusKind::Custom(x), ConsensusKind::Custom(y)) => {
            let bx = consensus_kind_bytes(a);
            assert(bx.subrange(7, bx.len() as int) =~= encode_utf8(x@));
            assert(bx.subrange(7, bx.len() as int) =~= encode_utf8(y@));
            vstd::utf8::encode_utf8_decode_utf8(x@);
            vstd::utf8::encode_utf8_decode_utf8(y@);
        },
        (ConsensusKind::Custom(x), _) => {
            assert(consensus_kind_bytes(a).len() >= 7);
        },
        (_, ConsensusKind::Custom(y)) => {
            assert(consensus_kind_bytes(b).len() >= 7);
        },
        _ => {
            let ba = consensus_kind_bytes(a);
            let bb = consensus_kind_bytes(b);
            if a != b {
                if ba.len() == 3 && bb.len() == 3 {
                    assert(ba[0] != bb[0] || ba[2] != bb[2]);
                }
            }
        },
    }
}

/// State-update records: 32-byte keys with 8-byte values.
pub open spec fn keys_are_addresses(s: Seq<(Seq<u8>, u64)>) -> bool {
    forall|i: int| 0 <= i < s.len() ==> #[trigger] s[i].0.len() == 32
}

proof fn lemma_updates_len(s: Seq<(Seq<u8>, u64)>)
    requires
        keys_are_addresses(s),
    ensures
        updates_bytes(s).len() == 40 * s.len(),
    decreases s.len(),
{
    if s.len() > 0 {
        assert(keys_are_addresses(s.drop_last())) by {
            assert forall|i: int| 0 <= i < s.drop_last().len() implies #[trigger] s.drop_last()[i].0.len() == 32 by {
                assert(s.drop_last()[i] == s[i]);
            }
        }
        lemma_updates_len(s.drop_last());
        assert(le_bytes(s.last().1 as nat, 8).len() == 8) by {
            lemma_byte_bounds();
            lemma_le_bytes_value(s.last().1 as nat, 8);
        }
    }
}

proof fn lemma_updates_injective(a: Seq<(Seq<u8>, u64)>, b: Seq<(Seq<u8>, u64)>)
    requires
        keys_are_addresses(a),
        keys_are_addresses(b),
        updates_bytes(a) == updates_bytes(b),
    ensures
        a == b,
    decreases a.len(),
{
    lemma_updates_len(a);
    lemma_updates_len(b);
    assert(a.len() == b.len());
    if a.len() > 0 {
        let da = a.drop_last();
        let db = b.drop_last();
        assert(keys_are_addresses(da)) by {
            assert forall|i: int| 0 <= i < da.len() implies #[trigger] da[i].0.len() == 32 by {
                assert(da[i] == a[i]);
            }
        }
        assert(keys_are_addresses(db)) by {
            assert forall|i: int| 0 <= i < db.len() implies #[trigger] db[i].0.len() == 32 by {
                assert(db[i] == b[i]);
            }
        }
        lemma_updates_len(da);
        lemma_updates_len(db);
        lemma_byte_bounds();
        lemma_le_bytes_value(a.last().1 as nat, 8);
        lemma_le_bytes_value(b.last().1 as nat, 8);
        let x = updates_bytes(a);
        let l: int = 40 * (da.len() as int);
        assert(x.subrange(0, l) =~= updates_bytes(da));
        assert(x.subrange(0, l) =~= updates_bytes(db));
        assert(x.subrange(l, l + 32) =~= a.last().0);
        assert(x.subrange(l, l + 32) =~= b.last().0);
        assert(x.subrange(l + 32, l + 40) =~= le_bytes(a.last().1 as nat, 8));
        assert(x.subrange(l + 32, l + 40) =~= le_bytes(b.last().1 as nat, 8));
        lemma_le_bytes_injective(a.last().1 as nat, b.last().1 as nat, 8);
        lemma_updates_injective(da, db);
        assert(a =~= b) by {
            assert forall|i: int| 0 <= i < a.len() implies a[i] == b[i] by {
                if i < a.len() - 1 {
                    assert(a[i] == da[i] && b[i] == db[i]);
                }
            }
        }
    }
}

/// Sorted entry lists with the same entries (by address bytes) denote the
/// same map.
proof fn lemma_entries_map_of_views(s1: Seq<(Address, u64)>, s2: Seq<(Address, u64)>)
    requires
        keys_sorted(s1),
        keys_sorted(s2),
        entry_views(s1) == entry_views(s2),
    ensures
        entries_map(s1) == entries_map(s2),
{
    assert(s1.len() == entry_views(s1).len());
    assert(s2.len() == entry_views(s2).len());
    assert forall|i: int| 0 <= i < s1.len() implies #[trigger] key_of(s1[i]) == key_of(s2[i]) && s1[i].1 == s2[i].1 by {
        assert(entry_views(s1)[i] == entry_views(s2)[i]);
    }
    assert forall|k: Seq<u8>| #[trigger] entries_map(s1).contains_key(k) == entries_map(s2).contains_key(k) by {
        if entries_map(s1).contains_key(k) {
            let i = choose|i: int| 0 <= i < s1.len() && key_of(s1[i]) == k;
            assert(key_of(s2[i]) == k);
        }
        if entries_map(s2).contains_key(k) {
            let i = choose|i: int| 0 <= i < s2.len() && key_of(s2[i]) == k;
            assert(key_of(s1[i]) == k);
        }
    }
    assert forall|k: Seq<u8>| #[trigger] entries_map(s1).contains_key(k) implies entries_map(s1)[k] == entries_map(s2)[k] by {
        let i = choose|i: int| 0 <= i < s1.len() && key_of(s1[i]) == k;
        lemma_entries_map_at(s1, i);
        lemma_entries_map_at(s2, i);
    }
    assert(entries_map(s1) =~= entries_map(s2));
}

/// The settlement leaf commits to every field of a commitment: two
/// commitments with well-formed state updates whose leaf preimages (the
/// framed tagged fields) are equal agree on every field. Distinct
/// commitments therefore get distinct leaves unless SHA-256 collides. (A
/// custom consensus name and the update list must fit the 8-byte length
/// prefix.)
pub proof fn law_leaf_binds_every_field(c1: DomainCommitment, c2: DomainCommitment)
    requires
        c1.state_updates.wf(),
        c2.state_updates.wf(),
        consensus_kind_bytes(c1.consensus_kind).len() < byte_bound(8),
        consensus_kind_bytes(c2.consensus_kind).len() < byte_bound(8),
        updates_bytes(sorted_entries(c1.state_updates@)).len() < byte_bound(8),
        updates_bytes(sorted_entries(c2.state_updates@)).len() < byte_bound(8),
        frame_fields(commitment_fields(c1)) == frame_fields(commitment_fields(c2)),
    ensures
        c1.domain_id == c2.domain_id,
        c1.domain_height == c2.domain_height,
        c1.domain_block_hash@ == c2.domain_block_hash@,
        c1.parent_domain_block_hash@ == c2.parent_domain_block_hash@,
        c1.state_root@ == c2.state_root@,
        c1.tx_root@ == c2.tx_root@,
        c1.event_root@ == c2.event_root@,
        c1.finality_proof_hash@ == c2.finality_proof_hash@,
        same_kind(c1.consensus_kind, c2.consensus_kind),
        c1.validator_set_hash@ == c2.validator_set_hash@,
        c1.timestamp_ms == c2.timestamp_ms,
        c1.sequence == c2.sequence,
        c1.producer is Some <==> c2.producer is Some,
        c1.producer is Some ==> c1.producer.unwrap().0@ == c2.producer.unwrap().0@,
        c1.state_updates@ == c2.state_updates@,
{
    broadcast use vstd::string::is_ascii_spec_bytes;
    reveal_strlit("BDLM_DOMAIN_COMMITMENT_V1");
    assert(vstd::string::is_ascii("BDLM_DOMAIN_COMMITMENT_V1"));
    lemma_byte_bounds();
    lemma_le_bytes_value(c1.domain_id as nat, 4);
    lemma_le_bytes_value(c2.domain_id as nat, 4);
    lemma_le_bytes_value(c1.domain_height as nat, 8);
    lemma_le_bytes_value(c2.domain_height as nat, 8);
    lemma_le_bytes_value(c1.timestamp_ms as nat, 16);
    lemma_le_bytes_value(c2.timestamp_ms as nat, 16);
    lemma_le_bytes_value(c1.sequence as nat, 8);
    lemma_le_bytes_value(c2.sequence as nat, 8);
    c1.state_updates.lemma_view_is_entries();
    c2.state_updates.lemma_view_is_entries();
    let e1 = c1.state_updates.entries_seq();
    let e2 = c2.state_updates.entries_seq();
    lemma_sorted_entries_of(e1);
    lemma_sorted_entries_of(e2);
    let u1 = entry_views(e1);
    let u2 = entry_views(e2);
    assert(keys_are_addresses(u1)) by {
        assert forall|i: int| 0 <= i < u1.len() implies #[trigger] u1[i].0.len() == 32 by {
            assert(u1[i].0 == e1[i].0.0@);
        }
    }
    assert(keys_are_addresses(u2)) by {
        assert forall|i: int| 0 <= i < u2.len() implies #[trigger] u2[i].0.len() == 32 by {
            assert(u2[i].0 == e2[i].0.0@);
        }
    }
    lemma_updates_len(u1);
    lemma_updates_len(u2);
    assert(u1.len() == e1.len() && u2.len() == e2.len());
    let f1 = commitment_fields(c1);
    let f2 = commitment_fields(c2);
    assert(fields_fit(f1));
    assert(fields_fit(f2));
    lemma_frame_injective(f1, f2);
    assert(f1[1] == f2[1] && f1[2] == f2[2] && f1[3] == f2[3] && f1[4] == f2[4] && f1[5] == f2[5]);
    assert(f1[6] == f2[6] && f1[7] == f2[7] && f1[8] == f2[8] && f1[9] == f2[9] && f1[10] == f2[10]);
    assert(f1[11] == f2[11] && f1[12] == f2[12] && f1[13] == f2[13] && f1[14] == f2[14]);
    lemma_le_bytes_injective(c1.domain_id as nat, c2.domain_id as nat, 4);
    lemma_le_bytes_injective(c1.domain_height as nat, c2.domain_height as nat, 8);
    lemma_le_bytes_injective(c1.timestamp_ms as nat, c2.timestamp_ms as nat, 16);
    lemma_le_bytes_injective(c1.sequence as nat, c2.sequence as nat, 8);
    law_consensus_kind_bytes_injective(c1.consensus_kind, c2.consensus_kind);
    lemma_updates_injective(u1, u2);
    lemma_entries_map_of_views(e1, e2);
}

} // verus!
