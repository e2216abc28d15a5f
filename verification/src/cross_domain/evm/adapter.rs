//! The Ethereum chain adapter: the on-chain check of a relayed EVM receipt
//! proof.
//!
//! A proof's leaf is bound to the claimed transaction hash and to the bridge
//! contract: `hash(BDLM_EVM_RECEIPT_LEAF_V1 || tx_hash || bridge_address)`.
//! A proof taken for another transaction, or for another bridge, does not
//! verify.
use vstd::prelude::*;
use vstd::string::StringSliceAdditionalSpecFns;
use crate::core_types::hash::{field_views, hash_fields_bytes, spec_hash_fields, spec_sha256, str_bytes};
use crate::core_types::merkle::{hash_pair, merkle_level, merkle_root};
use crate::core_types::transaction::{ExternalChain, ExternalTransaction};
use crate::core_types::hex::{hex_encode, spec_hex_encode};

verus! {

pub type Hash32 = [u8; 32];

/// Bridge deposit event topic used on test networks: all zero.
pub fn default_deposit_topic0() -> (t: [u8; 32])
    ensures
        t@ == Seq::new(32, |i: int| 0u8),
{
    let t = [0u8; 32];
    assert(t@ =~= Seq::new(32, |i: int| 0u8));
    t
}

/// Confirmations required before a receipt is trusted (reorg window).
pub const DEFAULT_CONFIRMATIONS: u32 = 64;

/// A Merkle inclusion proof: the leaf, its position, and the sibling hashes
/// from the leaf level up.
#[derive(Debug, Clone)]
pub struct MerkleProof {
    pub leaf: Hash32,
    pub index: u64,
    pub siblings: Vec<Hash32>,
}

/// The root a proof leads to: at each level the node is hashed with its
/// sibling, on the left when the position bit is 0.
pub open spec fn proof_root(node: Seq<u8>, index: nat, siblings: Seq<[u8; 32]>) -> Seq<u8>
    decreases siblings.len(),
{
    if siblings.len() == 0 {
        node
    } else {
        let parent = if index % 2 == 0 {
            spec_sha256(node + siblings[0]@)
        } else {
            spec_sha256(siblings[0]@ + node)
        };
        proof_root(parent, index / 2, siblings.drop_first())
    }
}

/// The number of leaves of a full tree of height `h`.
pub open spec fn full_tree_size(h: nat) -> nat
    decreases h,
{
    if h == 0 {
        1
    } else {
        2 * full_tree_size((h - 1) as nat)
    }
}

/// The position of a node's partner on its level.
pub open spec fn partner(i: nat) -> nat {
    if i % 2 == 0 {
        i + 1
    } else {
        (i - 1) as nat
    }
}

/// The siblings met on the way from leaf `i` up to the root: its partner on
/// each level, lowest first.
pub open spec fn path_siblings(level: Seq<Seq<u8>>, i: nat) -> Seq<Seq<u8>>
    decreases level.len(),
{
    if level.len() <= 1 {
        Seq::empty()
    } else {
        seq![level[partner(i) as int]] + path_siblings(merkle_level(level), i / 2)
    }
}

proof fn lemma_full_level(level: Seq<Seq<u8>>, h: nat)
    requires
        h > 0,
        level.len() == full_tree_size(h),
    ensures
        merkle_level(level).len() == full_tree_size((h - 1) as nat),
        level.len() == 2 * full_tree_size((h - 1) as nat),
        level.len() >= 2,
{
    lemma_full_tree_size_positive((h - 1) as nat);
}

proof fn lemma_full_tree_size_positive(h: nat)
    ensures
        full_tree_size(h) >= 1,
    decreases h,
{
    if h > 0 {
        lemma_full_tree_size_positive((h - 1) as nat);
    }
}

proof fn lemma_path_len(level: Seq<Seq<u8>>, h: nat, i: nat)
    requires
        level.len() == full_tree_size(h),
    ensures
        path_siblings(level, i).len() == h,
    decreases h,
{
    if h > 0 {
        lemma_full_level(level, h);
        lemma_path_len(merkle_level(level), (h - 1) as nat, i / 2);
    }
}

/// Proofs are complete: in a full tree, the siblings on the path from leaf
/// `i` to the root, taken with position `i`, lead back to the Merkle root.
/// At level `k` the node goes on the left when bit `k` of `i` is 0 and on
/// the right when it is 1.
pub proof fn law_path_proof_reaches_root(leaves: Seq<Seq<u8>>, h: nat, i: nat, siblings: Seq<[u8; 32]>)
    requires
        leaves.len() == full_tree_size(h),
        i < leaves.len(),
        siblings.len() == h,
        forall|k: int| 0 <= k < h ==> #[trigger] siblings[k]@ == path_siblings(leaves, i)[k],
    ensures
        proof_root(leaves[i as int], i, siblings) == merkle_root(leaves),
    decreases h,
{
    if h == 0 {
        assert(siblings.len() == 0);
    } else {
        lemma_full_level(leaves, h);
        let up = merkle_level(leaves);
        lemma_path_len(up, (h - 1) as nat, i / 2);
        let path = path_siblings(leaves, i);
        assert(path == seq![leaves[partner(i) as int]] + path_siblings(up, i / 2));
        assert(siblings[0]@ == path[0]);
        assert(path[0] == leaves[partner(i) as int]);
        let parent = if i % 2 == 0 {
            spec_sha256(leaves[i as int] + siblings[0]@)
        } else {
            spec_sha256(siblings[0]@ + leaves[i as int])
        };
        assert(i / 2 < up.len());
        if i % 2 == 0 {
            assert(2 * (i / 2) == i);
            assert(i + 1 < leaves.len());
        } else {
            assert(2 * (i / 2) + 1 == i);
        }
        assert(parent == up[(i / 2) as int]);
        let rest = siblings.drop_first();
        assert forall|k: int| 0 <= k < h - 1 implies #[trigger] rest[k]@ == path_siblings(up, i / 2)[k] by {
            assert(rest[k] == siblings[k + 1]);
            assert(path[k + 1] == path_siblings(up, i / 2)[k]);
        }
        law_path_proof_reaches_root(up, (h - 1) as nat, i / 2, rest);
        assert(proof_root(leaves[i as int], i, siblings) == proof_root(parent, i / 2, rest));
    }
}

impl MerkleProof {
    /// Whether the proof leads from its leaf to `root`.
    pub fn verify(&self, root: Hash32) -> (b: bool)
        ensures
            b == (proof_root(self.leaf@, self.index as nat, self.siblings@) == root@),
    {
        let mut node: [u8; 32] = self.leaf;
        let mut index: u64 = self.index;
        let mut i: usize = 0;
        let n: usize = self.siblings.len();
        assert(self.siblings@.subrange(0, n as int) =~= self.siblings@);
        while i < n
            invariant
                0 <= i <= n,
                n == self.siblings@.len(),
                proof_root(node@, index as nat, self.siblings@.subrange(i as int, n as int)) == proof_root(
                    self.leaf@,
                    self.index as nat,
                    self.siblings@,
                ),
            decreases n - i,
        {
            let sib: [u8; 32] = self.siblings[i];
            proof {
                assert(self.siblings@.subrange(i as int, n as int).drop_first() =~= self.siblings@.subrange(i + 1, n as int));
                assert(self.siblings@.subrange(i as int, n as int)[0] == sib);
            }
            node = if index % 2 == 0 {
                hash_pair(&node, &sib)
            } else {
                hash_pair(&sib, &node)
            };
            index = index / 2;
            i = i + 1;
        }
        assert(self.siblings@.subrange(0, n as int) =~= self.siblings@);
        crate::core_types::address::bytes32_eq(&node, &root)
    }
}

#[derive(Debug, Clone, PartialEq, Eq)]
pub enum AdapterError {
    ProofVerificationFailed(String),
}

impl AdapterError {
    /// The error as display text.
    pub fn describe(&self) -> (s: String)
        ensures
            match *self {
                AdapterError::ProofVerificationFailed(m) => s@ == "Proof verification failed: "@ + m@,
            },
    {
        match self {
            AdapterError::ProofVerificationFailed(m) => {
                let mut s: String = "Proof verification failed: ".to_owned();
                s.append(m.as_str());
                s
            },
        }
    }
}

pub struct EvmChainAdapter {
    /// Bridge contract address (the deposit event emitter).
    pub bridge_address: Vec<u8>,
    /// Deposit event topic0.
    pub deposit_topic0: [u8; 32],
    /// Confirmations required before a receipt is trusted.
    pub required_confirmations: u32,
}

/// The receipt leaf bound to a transaction hash and a bridge.
pub open spec fn spec_receipt_leaf(tx_hash: Seq<char>, bridge_address: Seq<u8>) -> Seq<u8> {
    spec_hash_fields(seq![str_bytes("BDLM_EVM_RECEIPT_LEAF_V1"), vstd::utf8::encode_utf8(tx_hash), bridge_address])
}

/// Why a receipt proof is refused, if it is: the proof must lead to the
/// declared root, the transaction hash must be non-empty, and the leaf must
/// be the one bound to that transaction and this bridge.
pub open spec fn receipt_proof_error(proof: MerkleProof, root: Seq<u8>, tx_hash: Seq<char>, bridge: Seq<u8>) -> Option<Seq<char>> {
    if proof_root(proof.leaf@, proof.index as nat, proof.siblings@) != root {
        Some("EVM receipt Merkle proof does not verify against declared receipts root"@)
    } else if tx_hash.len() == 0 {
        Some("EVM receipt proof requires non-empty tx_hash for V30 binding"@)
    } else if proof.leaf@ != spec_receipt_leaf(tx_hash, bridge) {
        Some("EVM receipt leaf does not match tx_hash + bridge binding (V30 forgery reject)"@)
    } else {
        None
    }
}

/// The receipt proof leaf for `tx_hash` under `bridge_address`.
pub fn derive_receipt_leaf(tx_hash: &str, bridge_address: &[u8]) -> (h: Hash32)
    ensures
        h@ == spec_receipt_leaf(tx_hash@, bridge_address@),
{
    let tag: &[u8] = "BDLM_EVM_RECEIPT_LEAF_V1".as_bytes();
    let fields: [&[u8]; 3] = [tag, tx_hash.as_bytes(), bridge_address];
    proof {
        assert(field_views(fields@) =~= seq![str_bytes("BDLM_EVM_RECEIPT_LEAF_V1"), vstd::utf8::encode_utf8(tx_hash@), bridge_address@]);
    }
    hash_fields_bytes(&fields)
}

fn proof_error(m: &str) -> (r: Result<(), AdapterError>)
    ensures
        r matches Err(AdapterError::ProofVerificationFailed(s)) && s@ == m@,
{
    Err(AdapterError::ProofVerificationFailed(m.to_owned()))
}

fn bytes32_equal(a: &[u8; 32], b: &[u8; 32]) -> (r: bool)
    ensures
        r == (a@ == b@),
{
    crate::core_types::address::bytes32_eq(a, b)
}

impl EvmChainAdapter {
    pub fn new(bridge_address: Vec<u8>, deposit_topic0: [u8; 32]) -> (a: Self)
        ensures
            a.bridge_address@ == bridge_address@,
            a.deposit_topic0 == deposit_topic0,
            a.required_confirmations == DEFAULT_CONFIRMATIONS,
    {
        EvmChainAdapter { bridge_address, deposit_topic0, required_confirmations: DEFAULT_CONFIRMATIONS }
    }

    /// The test-network adapter: a zero bridge address and topic.
    pub fn test_default() -> (a: Self)
        ensures
            a.bridge_address@ == Seq::new(20, |i: int| 0u8),
            a.deposit_topic0@ == Seq::new(32, |i: int| 0u8),
            a.required_confirmations == DEFAULT_CONFIRMATIONS,
    {
        let mut bridge: Vec<u8> = Vec::new();
        let mut i: usize = 0;
        while i < 20
            invariant
                0 <= i <= 20,
                bridge@ == Seq::new(i as nat, |j: int| 0u8),
            decreases 20 - i,
        {
            bridge.push(0u8);
            i = i + 1;
            assert(bridge@ =~= Seq::new(i as nat, |j: int| 0u8));
        }
        Self::new(bridge, default_deposit_topic0())
    }

    pub fn chain_type(&self) -> (c: ExternalChain)
        ensures
            c == ExternalChain::Ethereum,
    {
        ExternalChain::Ethereum
    }

    /// The offline proof source: a single-leaf proof whose leaf (and so root)
    /// is the tagged hash of the transaction hash.
    pub fn generate_receipt_proof(&self, tx_hash: &str) -> (r: Result<(MerkleProof, Hash32, String), AdapterError>)
        ensures
            r matches Ok((p, root, h)) && p.leaf@ == spec_hash_fields(seq![str_bytes("BDLM_EVM_STUB"), vstd::utf8::encode_utf8(tx_hash@)])
                && p.index == 0 && p.siblings@.len() == 0 && root == p.leaf && h@ == tx_hash@,
    {
        let tag: &[u8] = "BDLM_EVM_STUB".as_bytes();
        let fields: [&[u8]; 2] = [tag, tx_hash.as_bytes()];
        proof {
            assert(field_views(fields@) =~= seq![str_bytes("BDLM_EVM_STUB"), vstd::utf8::encode_utf8(tx_hash@)]);
        }
        let leaf = hash_fields_bytes(&fields);
        Ok((MerkleProof { leaf, index: 0, siblings: Vec::new() }, leaf, tx_hash.to_owned()))
    }

    /// The offline submitter: answers a fixed transaction hash, `0x` then
    /// 32 bytes of `0xEE` in hex.
    pub fn submit_transaction(&self, _ext_tx: &ExternalTransaction) -> (r: Result<String, AdapterError>)
        ensures
            r matches Ok(h) && h@ == "0x"@ + spec_hex_encode(Seq::new(32, |i: int| 0xEEu8)),
    {
        let bytes = [0xEEu8; 32];
        assert(bytes@ =~= Seq::new(32, |i: int| 0xEEu8));
        let mut h: String = "0x".to_owned();
        h.append(hex_encode(&bytes).as_str());
        Ok(h)
    }

    /// The deterministic, network-free check of a relayed receipt proof.
    pub fn verify_receipt_proof(&self, proof: &MerkleProof, external_state_root: &Hash32, expected_tx_hash: &str) -> (r: Result<(), AdapterError>)
        ensures
            match receipt_proof_error(*proof, external_state_root@, expected_tx_hash@, self.bridge_address@) {
                Some(e) => r matches Err(AdapterError::ProofVerificationFailed(m)) && m@ == e,
                None => r is Ok,
            },
    {
        if !proof.verify(*external_state_root) {
            return proof_error("EVM receipt Merkle proof does not verify against declared receipts root");
        }
        if expected_tx_hash.is_empty() {
            return proof_error("EVM receipt proof requires non-empty tx_hash for V30 binding");
        }
        let expected_leaf = derive_receipt_leaf(expected_tx_hash, self.bridge_address.as_slice());
        if !bytes32_equal(&proof.leaf, &expected_leaf) {
            return proof_error("EVM receipt leaf does not match tx_hash + bridge binding (V30 forgery reject)");
        }
        Ok(())
    }
}

/// A proof for one transaction is refused for any other transaction hash
/// whose receipt leaf differs under the same bridge.
pub proof fn law_receipt_proof_bound_to_tx(proof: MerkleProof, root: Seq<u8>, tx_a: Seq<char>, tx_b: Seq<char>, bridge: Seq<u8>)
    requires
        receipt_proof_error(proof, root, tx_a, bridge) is None,
        spec_receipt_leaf(tx_a, bridge) != spec_receipt_leaf(tx_b, bridge),
    ensures
        receipt_proof_error(proof, root, tx_b, bridge) is Some,
{
}

} // verus!
