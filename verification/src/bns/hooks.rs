//! The BNS extension interface that the node core depends on.
use vstd::prelude::*;
use crate::core_types::address::Address;

verus! {

/// Opaque projection of a resolved name.
#[derive(Debug, Clone, PartialEq, Eq)]
pub struct BnsResolvedView {
    pub name: String,
    pub owner: Address,
    pub address: Option<Address>,
    pub storage_root: Option<[u8; 32]>,
    pub storage_domain_id: Option<u32>,
    pub content_id: Option<[u8; 32]>,
    pub is_expired: bool,
}

/// Error codes of the BNS extension interface.
#[derive(Debug, Clone, Copy, PartialEq, Eq, Structural)]
pub enum BnsHookError {
    InvalidName,
    NameTaken,
    NotOwner,
    Expired,
    /// No BNS extension is loaded on this node.
    ExtensionDisabled,
}

impl BnsHookError {
    /// Human-readable description of the error.
    pub fn describe(&self) -> (s: &'static str)
        ensures
            s@ == match *self {
                BnsHookError::InvalidName => "BNS: name too short or long"@,
                BnsHookError::NameTaken => "BNS: name already taken"@,
                BnsHookError::NotOwner => "BNS: not the owner"@,
                BnsHookError::Expired => "BNS: registration expired"@,
                BnsHookError::ExtensionDisabled => "BNS: B.U.D. extension not loaded on this node"@,
            },
    {
        match self {
            BnsHookError::InvalidName => "BNS: name too short or long",
            BnsHookError::NameTaken => "BNS: name already taken",
            BnsHookError::NotOwner => "BNS: not the owner",
            BnsHookError::Expired => "BNS: registration expired",
            BnsHookError::ExtensionDisabled => "BNS: B.U.D. extension not loaded on this node",
        }
    }
}

/// The BNS extension interface, implemented by the storage extension; the core
/// reaches BNS only through it.
pub trait BnsHooks {
    fn bns_resolve_full(&self, name: &str, current_epoch: u64) -> Option<BnsResolvedView>;

    fn bns_register(&self, name: &str, owner: Address, current_epoch: u64, duration: u64) -> Result<
        (),
        BnsHookError,
    >;

    fn bns_renew(&self, name: &str, caller: &Address, current_epoch: u64, duration: u64) -> Result<
        (),
        BnsHookError,
    >;

    fn bns_transfer(
        &self,
        name: &str,
        caller: &Address,
        new_owner: Address,
        current_epoch: u64,
    ) -> Result<(), BnsHookError>;

    fn bns_register_subdomain(
        &self,
        parent_name: &str,
        sub_label: &str,
        owner: Address,
        caller: &Address,
    ) -> Result<(), BnsHookError>;

    fn bns_resolve_subdomain(&self, parent_name: &str, sub_label: &str, current_epoch: u64) -> Option<
        Address,
    >;

    fn bns_set_content(&self, name: &str, owner: &Address, content_id: [u8; 32]) -> Result<
        (),
        BnsHookError,
    >;

    fn bns_resolve_content(&self, name: &str, current_epoch: u64) -> Option<[u8; 32]>;

    fn bns_resolve(&self, name: &str, current_epoch: u64) -> Option<Address>;

    fn bns_set_storage(
        &self,
        name: &str,
        caller: &Address,
        storage_root: [u8; 32],
        storage_domain_id: u32,
        current_epoch: u64,
    ) -> Result<(), BnsHookError>;
}

/// The fail-closed default used when no BNS extension is loaded: every lookup
/// finds nothing and every change is refused with `ExtensionDisabled`.
#[derive(Debug, Default, Clone, Copy)]
pub struct NullBnsHooks;

impl BnsHooks for NullBnsHooks {
    fn bns_resolve_full(&self, name: &str, current_epoch: u64) -> (r: Option<BnsResolvedView>)
        ensures
            r is None,
    {
        None
    }

    fn bns_register(&self, name: &str, owner: Address, current_epoch: u64, duration: u64) -> (r:
        Result<(), BnsHookError>)
        ensures
            r == Err::<(), BnsHookError>(BnsHookError::ExtensionDisabled),
    {
        Err(BnsHookError::ExtensionDisabled)
    }

    fn bns_renew(&self, name: &str, caller: &Address, current_epoch: u64, duration: u64) -> (r:
        Result<(), BnsHookError>)
        ensures
            r == Err::<(), BnsHookError>(BnsHookError::ExtensionDisabled),
    {
        Err(BnsHookError::ExtensionDisabled)
    }

    fn bns_transfer(
        &self,
        name: &str,
        caller: &Address,
        new_owner: Address,
        current_epoch: u64,
    ) -> (r: Result<(), BnsHookError>)
        ensures
            r == Err::<(), BnsHookError>(BnsHookError::ExtensionDisabled),
    {
        Err(BnsHookError::ExtensionDisabled)
    }

    fn bns_register_subdomain(
        &self,
        parent_name: &str,
        sub_label: &str,
        owner: Address,
        caller: &Address,
    ) -> (r: Result<(), BnsHookError>)
        ensures
            r == Err::<(), BnsHookError>(BnsHookError::ExtensionDisabled),
    {
        Err(BnsHookError::ExtensionDisabled)
    }

    fn bns_resolve_subdomain(&self, parent_name: &str, sub_label: &str, current_epoch: u64) -> (r:
        Option<Address>)
        ensures
            r is None,
    {
        None
    }

    fn bns_set_content(&self, name: &str, owner: &Address, content_id: [u8; 32]) -> (r: Result<
        (),
        BnsHookError,
    >)
        ensures
            r == Err::<(), BnsHookError>(BnsHookError::ExtensionDisabled),
    {
        Err(BnsHookError::ExtensionDisabled)
    }

    fn bns_resolve_content(&self, name: &str, current_epoch: u64) -> (r: Option<[u8; 32]>)
        ensures
            r is None,
    {
        None
    }

    fn bns_resolve(&self, name: &str, current_epoch: u64) -> (r: Option<Address>)
        ensures
            r is None,
    {
        None
    }

    fn bns_set_storage(
        &self,
        name: &str,
        caller: &Address,
        storage_root: [u8; 32],
        storage_domain_id: u32,
        current_epoch: u64,
    ) -> (r: Result<(), BnsHookError>)
        ensures
            r == Err::<(), BnsHookError>(BnsHookError::ExtensionDisabled),
    {
        Err(BnsHookError::ExtensionDisabled)
    }
}

} // verus!
