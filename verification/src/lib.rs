//! Budlum core: settlement-layer primitives with machine-checked contracts.
pub mod bns;
pub mod chain;
pub mod consensus;
pub mod core_types;
pub mod cross_domain;
pub mod deed;
pub mod domain;
pub mod execution;
pub mod fuzz_input;
pub mod lubot;
pub mod network;
pub mod pollen;
pub mod storage;
pub mod tokenomics;
