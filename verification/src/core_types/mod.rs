pub mod address;
pub mod chain_config;
pub mod hash;
pub mod order;
pub mod merkle;
pub mod hex;
pub mod time;
pub mod addr_map;
pub mod governance;
pub mod account;
pub mod error;
pub mod numtext;
pub mod transaction;
pub mod block;
