pub mod executor;
pub mod zkvm;
