//! Blocks and their commitments: transaction root and block hash.
use vstd::prelude::*;
use vstd::string::StringSliceAdditionalSpecFns;
use vstd::utf8::encode_utf8;
use crate::consensus::slashing::SlashingEvidence;
use crate::core_types::address::Address;
use crate::core_types::hash::{frame_fields, field_views, frame_fields_bytes, le_bytes, str_bytes, spec_sha3_256, sha3_256, u64_le_bytes, u128_le_bytes};
use crate::core_types::hex::{hex_encode, spec_hex_encode};
use crate::core_types::merkle::{merkle_root, merkle_root_of, leaf_views};
use crate::core_types::time::unix_millis;
use crate::core_types::transaction::{Transaction, DEFAULT_CHAIN_ID, spec_tx_digest};

verus! {

#[derive(Debug, Clone)]
pub struct Block {
    pub index: u64,
    pub timestamp: u128,
    pub previous_hash: String,
    pub hash: String,
    pub transactions: Vec<Transaction>,
    pub nonce: u64,
    pub producer: Option<Address>,
    pub signature: Option<Vec<u8>>,
    pub chain_id: u64,
    pub slashing_evidence: Option<Vec<SlashingEvidence>>,
    pub state_root: String,
    pub tx_root: String,
    pub epoch: u64,
    pub slot: u64,
    pub vrf_output: Vec<u8>,
    pub vrf_proof: Vec<u8>,
    pub validator_set_hash: String,
}

/// Sixty-four `'0'` characters: the hash of nothing.
pub open spec fn zero_hash_text() -> Seq<char> {
    Seq::new(64, |i: int| '0')
}

/// The transaction root: hex Merkle root over the transaction digests.
pub open spec fn spec_tx_root(txs: Seq<Transaction>) -> Seq<char> {
    spec_hex_encode(merkle_root(txs.map_values(|t: Transaction| spec_tx_digest(t))))
}

pub open spec fn producer_bytes(p: Option<Address>) -> Seq<u8> {
    match p {
        Some(a) => a.0@,
        None => Seq::empty(),
    }
}

/// The fields a block hash commits to.
pub open spec fn block_hash_fields(b: Block) -> Seq<Seq<u8>> {
    seq![
        str_bytes("BDLM_BLOCK_V1"),
        le_bytes(b.index as nat, 8),
        le_bytes(b.timestamp as nat, 16),
        encode_utf8(b.previous_hash@),
        encode_utf8(b.tx_root@),
        encode_utf8(b.state_root@),
        le_bytes(b.nonce as nat, 8),
        producer_bytes(b.producer),
        le_bytes(b.chain_id as nat, 8),
        le_bytes(b.epoch as nat, 8),
        le_bytes(b.slot as nat, 8),
        b.vrf_output@,
        encode_utf8(b.validator_set_hash@),
    ]
}

/// The block hash: hex SHA3-256 of the length-framed header fields.
pub open spec fn spec_block_hash(b: Block) -> Seq<char> {
    spec_hex_encode(spec_sha3_256(frame_fields(block_hash_fields(b))))
}

impl Block {
    /// A block at `index` on top of `previous_hash`, stamped with the current
    /// time; its hash and roots are left to be computed.
    pub fn new(index: u64, previous_hash: String, transactions: Vec<Transaction>) -> (b: Self)
        ensures
            b.index == index,
            b.previous_hash@ == previous_hash@,
            b.transactions@ == transactions@,
            b.nonce == 0,
            b.producer is None,
            b.chain_id == DEFAULT_CHAIN_ID,
            b.hash@.len() == 0,
            b.signature is None,
            b.slashing_evidence is None,
            b.state_root@.len() == 0,
            b.tx_root@.len() == 0,
            b.epoch == 0,
            b.slot == 0,
            b.vrf_output@.len() == 0,
            b.vrf_proof@.len() == 0,
            b.validator_set_hash@.len() == 0,
    {
        Block {
            index,
            timestamp: unix_millis(),
            previous_hash,
            hash: String::new(),
            transactions,
            nonce: 0,
            producer: None,
            signature: None,
            chain_id: DEFAULT_CHAIN_ID,
            slashing_evidence: None,
            state_root: String::new(),
            tx_root: String::new(),
            epoch: 0,
            slot: 0,
            vrf_output: Vec::new(),
            vrf_proof: Vec::new(),
            validator_set_hash: String::new(),
        }
    }

    pub fn calculate_tx_root(&self) -> (r: String)
        ensures
            r@ == spec_tx_root(self.transactions@),
    {
        let mut leaves: Vec<[u8; 32]> = Vec::new();
        let n: usize = self.transactions.len();
        let mut i: usize = 0;
        while i < n
            invariant
                0 <= i <= n,
                n == self.transactions@.len(),
                leaf_views(leaves@) == self.transactions@.subrange(0, i as int).map_values(|t: Transaction| spec_tx_digest(t)),
            decreases n - i,
        {
            let d = self.transactions[i].digest();
            let ghost prev = leaves@;
            leaves.push(d);
            proof {
                assert(leaf_views(leaves@) =~= leaf_views(prev).push(d@));
                assert(self.transactions@.subrange(0, i + 1).map_values(|t: Transaction| spec_tx_digest(t))
                    =~= self.transactions@.subrange(0, i as int).map_values(|t: Transaction| spec_tx_digest(t)).push(spec_tx_digest(self.transactions@[i as int])));
            }
            i = i + 1;
        }
        assert(self.transactions@.subrange(0, n as int) =~= self.transactions@);
        let root = merkle_root_of(leaves);
        hex_encode(&root)
    }

    pub fn calculate_hash(&self) -> (h: String)
        ensures
            h@ == spec_block_hash(*self),
    {
        let tag: &[u8] = "BDLM_BLOCK_V1".as_bytes();
        let index = u64_le_bytes(self.index);
        let ts = u128_le_bytes(self.timestamp);
        let nonce = u64_le_bytes(self.nonce);
        let producer: &[u8] = match &self.producer {
            Some(p) => p.as_bytes(),
            None => &[],
        };
        let chain = u64_le_bytes(self.chain_id);
        let epoch = u64_le_bytes(self.epoch);
        let slot = u64_le_bytes(self.slot);
        let fields: [&[u8]; 13] = [
            tag,
            index.as_slice(),
            ts.as_slice(),
            self.previous_hash.as_str().as_bytes(),
            self.tx_root.as_str().as_bytes(),
            self.state_root.as_str().as_bytes(),
            nonce.as_slice(),
            producer,
            chain.as_slice(),
            epoch.as_slice(),
            slot.as_slice(),
            self.vrf_output.as_slice(),
            self.validator_set_hash.as_str().as_bytes(),
        ];
        proof {
            assert(producer@ == producer_bytes(self.producer));
            assert(field_views(fields@) =~= block_hash_fields(*self));
        }
        let framed = frame_fields_bytes(&fields);
        let digest = sha3_256(framed.as_slice());
        hex_encode(&digest)
    }
}

} // verus!
