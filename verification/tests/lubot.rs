use budlum_core::core_types::address::Address;
use budlum_core::lubot::executor::{
    AiInferenceRequest, AiModelId, AiRequestId, BoundedBytes, LubotExecutorRequest,
};

#[test]
fn executor_request_from_inference_request() {
    let req = AiInferenceRequest {
        request_id: AiRequestId([1; 32]),
        requester: Address([2; 32]),
        model_id: AiModelId([3; 32]),
        input_commitment: [4; 32],
        input_ref: BoundedBytes::empty(),
        max_fee: 100,
        callback: None,
        submitted_at_block: 1,
        deadline_block: 1000,
    };
    let exec = LubotExecutorRequest::from_inference_request(&req);
    assert_eq!(exec.request_id, AiRequestId([1; 32]));
    assert_eq!(exec.requester, Address([2; 32]));
    assert_eq!(exec.max_fee, 100);
    assert_eq!(exec.deadline_block, 1000);
}
