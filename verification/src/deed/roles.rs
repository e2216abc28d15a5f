//! Permissionless DeEd participant roles. Registering one still needs only
//! the registry's stake floor.
use vstd::prelude::*;

verus! {

/// A role in the permissionless registry.
#[derive(Debug, Clone, Copy, PartialEq, Eq, Hash, Structural)]
pub struct RoleId(pub u32);

impl RoleId {
    pub fn value(&self) -> (v: u32)
        ensures
            v == self.0,
    {
        self.0
    }
}

/// The industry sponsor role.
pub fn industry_sponsor() -> (r: RoleId)
    ensures
        r == RoleId(10),
{
    RoleId(10)
}

/// The research contributor role.
pub fn research_contributor() -> (r: RoleId)
    ensures
        r == RoleId(11),
{
    RoleId(11)
}

} // verus!
