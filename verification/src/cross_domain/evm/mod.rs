pub mod rlp;
pub mod adapter;
