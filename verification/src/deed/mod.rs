//! DeEd: the canonical manifest of an educational artifact held in B.U.D.,
//! and the permissionless roles of its participants.
pub mod manifest;
pub mod roles;
