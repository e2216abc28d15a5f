pub mod fee_market;
pub mod genesis;
pub mod snapshot;
