pub mod evm;
pub mod nonce;
