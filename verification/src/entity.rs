//! Entity identifiers.
//!
//! An identifier is handed out by the world from a counter that never
//! repeats a value, so a stale handle to a removed entity can never alias
//! an entity created later.

use vstd::prelude::*;

verus! {

/// An addressable device in the system, whether physical or logical.
#[derive(Debug, Clone, Copy, PartialEq, Eq, Hash, Structural)]
pub struct DeviceEntity {
    pub id: u64,
}

/// An LVM volume group, which devices can be associated with, or logically
/// created from.
#[derive(Debug, Clone, Copy, PartialEq, Eq, Hash, Structural)]
pub struct VgEntity {
    pub id: u64,
}

} // verus!
