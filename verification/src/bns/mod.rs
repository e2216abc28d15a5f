//! BNS — the Budlum Name Service: expiring names owned by addresses.
pub mod hooks;
pub mod registry;
pub mod types;
