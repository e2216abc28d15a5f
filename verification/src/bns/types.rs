use vstd::prelude::*;
use crate::core_types::address::Address;

verus! {

/// A registered name and its owner, valid until `expires_at` (exclusive).
#[derive(Debug, Clone, PartialEq, Eq)]
pub struct NameRecord {
    /// e.g. "ayaz.bud"
    pub name: String,
    /// Account that owns the name.
    pub owner: Address,
    /// Epoch at which the name expires.
    pub expires_at: u64,
    /// Optional contract for complex resolution.
    pub resolver: Option<Address>,
}

#[derive(Debug, Clone, Copy, PartialEq, Eq, Structural)]
pub enum BnsError {
    InvalidName,
    NameTaken,
    NotOwner,
    Expired,
}

impl BnsError {
    /// Human-readable description of the error.
    pub fn describe(&self) -> (s: &'static str)
        ensures
            s@ == match *self {
                BnsError::InvalidName => "Name too short or long"@,
                BnsError::NameTaken => "Name already taken"@,
                BnsError::NotOwner => "Not the owner"@,
                BnsError::Expired => "Name expired"@,
            },
    {
        match self {
            BnsError::InvalidName => "Name too short or long",
            BnsError::NameTaken => "Name already taken",
            BnsError::NotOwner => "Not the owner",
            BnsError::Expired => "Name expired",
        }
    }
}

} // verus!
