//! The seam between Lubot AI inference requests and the transaction executor:
//! the executor-ready form of a request.
use vstd::prelude::*;
use crate::core_types::address::Address;

verus! {

#[derive(Debug, Clone, Copy, PartialEq, Eq)]
pub struct AiRequestId(pub [u8; 32]);

#[derive(Debug, Clone, Copy, PartialEq, Eq)]
pub struct AiModelId(pub [u8; 32]);

/// A byte payload of bounded size.
#[derive(Debug, Clone, PartialEq, Eq)]
pub struct BoundedBytes(pub Vec<u8>);

impl BoundedBytes {
    pub fn empty() -> (b: Self)
        ensures
            b.0@.len() == 0,
    {
        BoundedBytes(Vec::new())
    }
}

/// An inference request as submitted on chain.
#[derive(Debug, Clone)]
pub struct AiInferenceRequest {
    pub request_id: AiRequestId,
    pub requester: Address,
    pub model_id: AiModelId,
    pub input_commitment: [u8; 32],
    pub input_ref: BoundedBytes,
    pub max_fee: u64,
    pub callback: Option<Address>,
    pub submitted_at_block: u64,
    pub deadline_block: u64,
}

/// The part of an inference request the executor acts on.
#[derive(Debug, Clone, Copy, PartialEq, Eq)]
pub struct LubotExecutorRequest {
    pub request_id: AiRequestId,
    pub requester: Address,
    pub max_fee: u64,
    pub deadline_block: u64,
}

impl LubotExecutorRequest {
    pub fn from_inference_request(req: &AiInferenceRequest) -> (r: Self)
        ensures
            r.request_id == req.request_id,
            r.requester == req.requester,
            r.max_fee == req.max_fee,
            r.deadline_block == req.deadline_block,
    {
        LubotExecutorRequest {
            request_id: req.request_id,
            requester: req.requester,
            max_fee: req.max_fee,
            deadline_block: req.deadline_block,
        }
    }
}

} // verus!
