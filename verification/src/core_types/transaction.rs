//! Ledger transactions.
use vstd::prelude::*;
use crate::core_types::address::Address;
use crate::core_types::account::sat_add_u64;
use crate::core_types::hash::{frame_fields, field_views, frame_fields_bytes, le_bytes, str_bytes, spec_sha3_256, sha3_256, u64_le_bytes, u128_le_bytes};
use crate::core_types::hex::{hex_encode, spec_hex_encode};

verus! {

/// Chain id of the development network, the default for new blocks.
pub const DEFAULT_CHAIN_ID: u64 = 1337;

#[derive(Debug, Clone, Copy, PartialEq, Eq, Structural)]
pub enum TransactionType {
    Transfer,
    Stake,
    Unstake,
    Vote,
    ContractCall,
}

/// Chains reached through an external-chain adapter.
#[derive(Debug, Clone, Copy, PartialEq, Eq, Structural)]
pub enum ExternalChain {
    Ethereum,
}

/// A transaction to be relayed to an external chain.
#[derive(Debug, Clone)]
pub struct ExternalTransaction {
    pub chain: ExternalChain,
    pub target_address: String,
    pub payload: Vec<u8>,
    pub external_nonce: u64,
}

#[derive(Debug, Clone)]
pub struct Transaction {
    pub from: Address,
    pub to: Address,
    pub amount: u64,
    pub fee: u64,
    pub nonce: u64,
    pub data: Vec<u8>,
    pub tx_type: TransactionType,
    pub chain_id: u64,
    pub timestamp: u128,
    pub signature: Option<Vec<u8>>,
}

pub open spec fn tx_type_byte(t: TransactionType) -> u8 {
    match t {
        TransactionType::Transfer => 0,
        TransactionType::Stake => 1,
        TransactionType::Unstake => 2,
        TransactionType::Vote => 3,
        TransactionType::ContractCall => 4,
    }
}

/// The fields a transaction hash commits to (the signature is not one).
pub open spec fn tx_hash_fields(tx: Transaction) -> Seq<Seq<u8>> {
    seq![
        str_bytes("BDLM_TX_V1"),
        tx.from.0@,
        tx.to.0@,
        le_bytes(tx.amount as nat, 8),
        le_bytes(tx.fee as nat, 8),
        le_bytes(tx.nonce as nat, 8),
        tx.data@,
        seq![tx_type_byte(tx.tx_type)],
        le_bytes(tx.chain_id as nat, 8),
        le_bytes(tx.timestamp as nat, 16),
    ]
}

/// The transaction digest: SHA3-256 of its length-framed fields.
pub open spec fn spec_tx_digest(tx: Transaction) -> Seq<u8> {
    spec_sha3_256(frame_fields(tx_hash_fields(tx)))
}

/// The transaction hash: the digest in hex.
pub open spec fn spec_tx_hash(tx: Transaction) -> Seq<char> {
    spec_hex_encode(spec_tx_digest(tx))
}

impl Transaction {
    /// A transfer of `amount` from `from` to `to`, fee 1, nonce 0.
    pub fn new(from: Address, to: Address, amount: u64, data: Vec<u8>) -> (tx: Self)
        ensures
            tx.from == from,
            tx.to == to,
            tx.amount == amount,
            tx.fee == 1,
            tx.nonce == 0,
            tx.data@ == data@,
            tx.tx_type == TransactionType::Transfer,
            tx.chain_id == DEFAULT_CHAIN_ID,
            tx.timestamp == 0,
            tx.signature is None,
    {
        Transaction {
            from,
            to,
            amount,
            fee: 1,
            nonce: 0,
            data,
            tx_type: TransactionType::Transfer,
            chain_id: DEFAULT_CHAIN_ID,
            timestamp: 0,
            signature: None,
        }
    }

    /// A call of the contract bytecode `data`, paying `fee`.
    pub fn new_contract_call(from: Address, fee: u64, nonce: u64, data: Vec<u8>) -> (tx: Self)
        ensures
            tx.from == from,
            tx.to.0@ == Seq::new(32, |i: int| 0u8),
            tx.amount == 0,
            tx.fee == fee,
            tx.nonce == nonce,
            tx.data@ == data@,
            tx.tx_type == TransactionType::ContractCall,
            tx.chain_id == DEFAULT_CHAIN_ID,
            tx.signature is None,
    {
        Transaction {
            from,
            to: Address::zero(),
            amount: 0,
            fee,
            nonce,
            data,
            tx_type: TransactionType::ContractCall,
            chain_id: DEFAULT_CHAIN_ID,
            timestamp: 0,
            signature: None,
        }
    }

    /// The system transaction of the genesis block: from and to the zero
    /// address, moving nothing.
    pub fn genesis() -> (tx: Self)
        ensures
            tx.from.0@ == Seq::new(32, |i: int| 0u8),
            tx.to.0@ == Seq::new(32, |i: int| 0u8),
            tx.amount == 0,
            tx.fee == 0,
            tx.nonce == 0,
            tx.data@.len() == 0,
            tx.tx_type == TransactionType::Transfer,
            tx.chain_id == DEFAULT_CHAIN_ID,
            tx.timestamp == 0,
            tx.signature is None,
    {
        Transaction {
            from: Address::zero(),
            to: Address::zero(),
            amount: 0,
            fee: 0,
            nonce: 0,
            data: Vec::new(),
            tx_type: TransactionType::Transfer,
            chain_id: DEFAULT_CHAIN_ID,
            timestamp: 0,
            signature: None,
        }
    }

    /// What the sender pays: amount plus fee (saturating).
    pub fn total_cost(&self) -> (r: u64)
        ensures
            r == sat_add_u64(self.amount, self.fee),
    {
        self.amount.saturating_add(self.fee)
    }

    pub fn calculate_hash(&self) -> (h: String)
        ensures
            h@ == spec_tx_hash(*self),
    {
        let digest = self.digest();
        hex_encode(&digest)
    }

    pub fn digest(&self) -> (d: [u8; 32])
        ensures
            d@ == spec_tx_digest(*self),
    {
        let tag: &[u8] = "BDLM_TX_V1".as_bytes();
        let amount = u64_le_bytes(self.amount);
        let fee = u64_le_bytes(self.fee);
        let nonce = u64_le_bytes(self.nonce);
        let ty: [u8; 1] = [match self.tx_type {
            TransactionType::Transfer => 0u8,
            TransactionType::Stake => 1u8,
            TransactionType::Unstake => 2u8,
            TransactionType::Vote => 3u8,
            TransactionType::ContractCall => 4u8,
        }];
        let chain = u64_le_bytes(self.chain_id);
        let ts = u128_le_bytes(self.timestamp);
        let fields: [&[u8]; 10] = [
            tag,
            self.from.as_bytes(),
            self.to.as_bytes(),
            amount.as_slice(),
            fee.as_slice(),
            nonce.as_slice(),
            self.data.as_slice(),
            ty.as_slice(),
            chain.as_slice(),
            ts.as_slice(),
        ];
        proof {
            assert(ty@ =~= seq![tx_type_byte(self.tx_type)]);
            assert(field_views(fields@) =~= tx_hash_fields(*self));
        }
        let framed = frame_fields_bytes(&fields);
        sha3_256(framed.as_slice())
    }
}

} // verus!
