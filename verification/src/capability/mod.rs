pub mod permissions;
pub mod resource;
pub mod table;

pub use permissions::PermissionBits;
pub use resource::ResourceRef;
pub use table::{CapId, Capability, CapabilityTable};

use vstd::prelude::*;

verus! {

/// Why a capability operation was refused.
#[derive(Debug, Clone, Copy, PartialEq, Eq, Structural)]
pub enum CapError {
    NotFound,
    InsufficientPermissions,
    InvalidDelegation,
    Revoked,
    NotOwner,
}

} // verus!
