//! Lifecycle marks on entities and the scheduling marks on the world.

use vstd::prelude::*;

verus! {

/// Marks an entity carries between a mutation call and the next apply.
#[derive(Clone, Copy, Debug, PartialEq, Eq, Structural)]
pub struct EntityFlags {
    /// The entity is staged for creation on the next apply.
    pub create: bool,
    /// The entity is staged for removal on the next apply.
    pub remove: bool,
    /// The entity has staged children waiting to be written to its table.
    pub create_children: bool,
    /// A partition table may be created on the entity.
    pub supports_table: bool,
    /// The entity is the plaintext child of a LUKS device.
    pub luks_child: bool,
}

impl EntityFlags {
    pub open spec fn spec_empty() -> EntityFlags {
        EntityFlags {
            create: false,
            remove: false,
            create_children: false,
            supports_table: false,
            luks_child: false,
        }
    }

    #[verifier::when_used_as_spec(spec_empty)]
    pub fn empty() -> (r: EntityFlags)
        ensures
            r == EntityFlags::spec_empty(),
    {
        EntityFlags {
            create: false,
            remove: false,
            create_children: false,
            supports_table: false,
            luks_child: false,
        }
    }

    pub fn supports_table() -> (r: EntityFlags)
        ensures
            r == (EntityFlags { supports_table: true, ..EntityFlags::spec_empty() }),
    {
        EntityFlags { supports_table: true, ..EntityFlags::empty() }
    }

    /// The flags with every staging mark dropped: what an entity keeps
    /// across an unset. Capabilities stay; transient marks go.
    pub open spec fn spec_cleared(self) -> EntityFlags {
        EntityFlags { create: false, remove: false, create_children: false, ..self }
    }

    #[verifier::when_used_as_spec(spec_cleared)]
    pub fn cleared(self) -> (r: EntityFlags)
        ensures
            r == self.spec_cleared(),
    {
        EntityFlags { create: false, remove: false, create_children: false, ..self }
    }

    pub open spec fn spec_is_empty(&self) -> bool {
        *self == EntityFlags::spec_empty()
    }

    #[verifier::when_used_as_spec(spec_is_empty)]
    pub fn is_empty(&self) -> (r: bool)
        ensures
            r == self.spec_is_empty(),
    {
        !self.create && !self.remove && !self.create_children && !self.supports_table
            && !self.luks_child
    }
}

/// Which systems the next apply must run.
#[derive(Clone, Copy, Debug, PartialEq, Eq, Structural)]
pub struct ManagerFlags {
    pub create: bool,
    pub format: bool,
    pub label: bool,
    pub remove: bool,
    pub resize: bool,
    pub reload_vgs: bool,
}

impl ManagerFlags {
    pub open spec fn spec_empty() -> ManagerFlags {
        ManagerFlags {
            create: false,
            format: false,
            label: false,
            remove: false,
            resize: false,
            reload_vgs: false,
        }
    }

    #[verifier::when_used_as_spec(spec_empty)]
    pub fn empty() -> (r: ManagerFlags)
        ensures
            r == ManagerFlags::spec_empty(),
    {
        ManagerFlags {
            create: false,
            format: false,
            label: false,
            remove: false,
            resize: false,
            reload_vgs: false,
        }
    }
}

} // verus!
