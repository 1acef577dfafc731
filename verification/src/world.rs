//! The world: entity registries, component stores, queued changes, and the
//! read-only queries over them.

use vstd::prelude::*;
use crate::device::{Device, Disk};
use crate::entity::{DeviceEntity, VgEntity};
use crate::flags::{EntityFlags, ManagerFlags};
use crate::fs::FileSystem;
use crate::luks::{LuksParams, LuksPassphrase};
use crate::lvm::{LvmLv, LvmPv, LvmVg};
use crate::partitions::{Partition, PartitionTable};
use crate::store::Store;
use crate::common::str_eq;

verus! {

/// The entity registries: every live entity and its flags.
pub struct DiskEntities {
    /// All of the device entities stored in the world, and their flags.
    pub devices: Store<EntityFlags>,
    /// Volume group entities are similar to, but not quite the same as,
    /// a device.
    pub vgs: Store<EntityFlags>,
    /// The next device identifier to hand out; identifiers never repeat.
    pub next_device: u64,
    /// The next volume-group identifier to hand out.
    pub next_vg: u64,
}

impl DiskEntities {
    pub open spec fn wf(self) -> bool {
        &&& self.devices.wf()
        &&& self.vgs.wf()
        &&& forall|k: u64| self.devices@.contains_key(k) ==> k < self.next_device
        &&& forall|k: u64| self.vgs@.contains_key(k) ==> k < self.next_vg
    }

    pub fn new() -> (r: DiskEntities)
        ensures
            r.wf(),
            r.devices@ == Map::<u64, EntityFlags>::empty(),
            r.vgs@ == Map::<u64, EntityFlags>::empty(),
            r.next_device == 0,
            r.next_vg == 0,
    {
        DiskEntities { devices: Store::new(), vgs: Store::new(), next_device: 0, next_vg: 0 }
    }

    /// Drops every entity; identifiers already handed out stay burned.
    pub fn clear(&mut self)
        ensures
            final(self).wf(),
            final(self).devices@ == Map::<u64, EntityFlags>::empty(),
            final(self).vgs@ == Map::<u64, EntityFlags>::empty(),
            final(self).next_device == old(self).next_device,
            final(self).next_vg == old(self).next_vg,
    {
        self.devices.clear();
        self.vgs.clear();
    }

    /// Registers a fresh device entity carrying `flags`.
    pub fn insert_device(&mut self, flags: EntityFlags) -> (e: DeviceEntity)
        requires
            old(self).wf(),
            old(self).next_device < u64::MAX,
        ensures
            final(self).wf(),
            e.id == old(self).next_device,
            !old(self).devices@.contains_key(e.id),
            final(self).devices@ == old(self).devices@.insert(e.id, flags),
            final(self).devices.keys_seq() == old(self).devices.keys_seq().push(e.id),
            final(self).next_device == old(self).next_device + 1,
            final(self).vgs == old(self).vgs,
            final(self).next_vg == old(self).next_vg,
    {
        let id = self.next_device;
        self.next_device = self.next_device + 1;
        self.devices.insert(id, flags);
        DeviceEntity { id }
    }

    /// Registers a fresh volume-group entity carrying `flags`.
    pub fn insert_vg(&mut self, flags: EntityFlags) -> (e: VgEntity)
        requires
            old(self).wf(),
            old(self).next_vg < u64::MAX,
        ensures
            final(self).wf(),
            e.id == old(self).next_vg,
            !old(self).vgs@.contains_key(e.id),
            final(self).vgs@ == old(self).vgs@.insert(e.id, flags),
            final(self).vgs.keys_seq() == old(self).vgs.keys_seq().push(e.id),
            final(self).next_vg == old(self).next_vg + 1,
            final(self).devices == old(self).devices,
            final(self).next_device == old(self).next_device,
    {
        let id = self.next_vg;
        self.next_vg = self.next_vg + 1;
        self.vgs.insert(id, flags);
        VgEntity { id }
    }
}

/// Components of LVM volume groups.
pub struct VgComponents {
    /// Children of the volume group entity.
    pub children: Store<Vec<DeviceEntity>>,
    /// Information about the volume group.
    pub volume_groups: Store<LvmVg>,
}

impl VgComponents {
    pub open spec fn wf(self) -> bool {
        &&& self.children.wf()
        &&& self.volume_groups.wf()
    }

    pub fn new() -> (r: VgComponents)
        ensures
            r.wf(),
            r.children@ == Map::<u64, Vec<DeviceEntity>>::empty(),
            r.volume_groups@ == Map::<u64, LvmVg>::empty(),
    {
        VgComponents { children: Store::new(), volume_groups: Store::new() }
    }
}

/// Components representing committed state of devices.
pub struct DeviceComponents {
    /// Devices that contain children associate them here. This applies to
    /// devices formatted with LVM, LUKS, or that have partition tables.
    pub children: Store<Vec<DeviceEntity>>,
    /// Every committed entity in the world has a device record here.
    pub devices: Store<Device>,
    /// If a device represents a physical disk, its information is here.
    pub disks: Store<Disk>,
    /// Devices which exist as device maps.
    pub device_maps: Store<String>,
    /// Devices which are loopbacks, and their backing file.
    pub loopbacks: Store<String>,
    /// Devices which are encrypted with LUKS, and the remembered passphrase.
    pub luks: Store<Option<LuksPassphrase>>,
    /// Devices which are logical volumes of a volume group.
    pub lvs: Store<(LvmLv, VgEntity)>,
    /// File systems and regions associated with some devices.
    pub partitions: Store<Partition>,
    /// Partitions formatted as LVM PVs, optionally assigned to a VG.
    pub pvs: Store<(LvmPv, Option<VgEntity>)>,
    /// Partition tables associated with devices.
    pub tables: Store<PartitionTable>,
}

impl DeviceComponents {
    pub open spec fn wf(self) -> bool {
        &&& self.children.wf()
        &&& self.devices.wf()
        &&& self.disks.wf()
        &&& self.device_maps.wf()
        &&& self.loopbacks.wf()
        &&& self.luks.wf()
        &&& self.lvs.wf()
        &&& self.partitions.wf()
        &&& self.pvs.wf()
        &&& self.tables.wf()
    }

    pub fn new() -> (r: DeviceComponents)
        ensures
            r.wf(),
            r.children@ == Map::<u64, Vec<DeviceEntity>>::empty(),
            r.devices@ == Map::<u64, Device>::empty(),
            r.disks@ == Map::<u64, Disk>::empty(),
            r.device_maps@ == Map::<u64, String>::empty(),
            r.loopbacks@ == Map::<u64, String>::empty(),
            r.luks@ == Map::<u64, Option<LuksPassphrase>>::empty(),
            r.lvs@ == Map::<u64, (LvmLv, VgEntity)>::empty(),
            r.partitions@ == Map::<u64, Partition>::empty(),
            r.pvs@ == Map::<u64, (LvmPv, Option<VgEntity>)>::empty(),
            r.tables@ == Map::<u64, PartitionTable>::empty(),
    {
        DeviceComponents {
            children: Store::new(),
            devices: Store::new(),
            disks: Store::new(),
            device_maps: Store::new(),
            loopbacks: Store::new(),
            luks: Store::new(),
            lvs: Store::new(),
            partitions: Store::new(),
            pvs: Store::new(),
            tables: Store::new(),
        }
    }
}

/// Stores requested modifications to entities, kept apart from committed
/// state so that a cancelled batch can be dropped without a trace.
pub struct QueuedChanges {
    /// A device to create.
    pub devices: Store<Device>,
    /// Device-map names for devices being created.
    pub device_maps: Store<String>,
    /// Requests to change a partition's file system.
    pub formats: Store<FileSystem>,
    /// Requests to change a partition's label.
    pub labels: Store<String>,
    /// Options for configuring LUKS encryption, with the entity that will
    /// become the plaintext child.
    pub luks: Store<(DeviceEntity, LuksParams)>,
    /// Information about a device to be created as an LVM logical volume.
    pub lvs: Store<(LvmLv, VgEntity)>,
    /// Parents that created devices will be associated with.
    pub parents: Store<DeviceEntity>,
    /// Partition records of devices being created.
    pub partitions: Store<Partition>,
    /// LVM PVs to associate with volume groups.
    pub pv_parents: Store<VgEntity>,
    /// LVM PV records of devices being created or formatted.
    pub pvs: Store<(LvmPv, Option<VgEntity>)>,
    /// Volume groups that are to be created, or modified.
    pub volume_groups: Store<LvmVg>,
    /// Devices to be associated with a volume group.
    pub vg_parents: Store<VgEntity>,
    /// Requests to resize a partition.
    pub resize: Store<(u64, u64)>,
    /// Tables to create.
    pub tables: Store<PartitionTable>,
}

impl QueuedChanges {
    pub open spec fn wf(self) -> bool {
        &&& self.devices.wf()
        &&& self.device_maps.wf()
        &&& self.formats.wf()
        &&& self.labels.wf()
        &&& self.luks.wf()
        &&& self.lvs.wf()
        &&& self.parents.wf()
        &&& self.partitions.wf()
        &&& self.pv_parents.wf()
        &&& self.pvs.wf()
        &&& self.volume_groups.wf()
        &&& self.vg_parents.wf()
        &&& self.resize.wf()
        &&& self.tables.wf()
    }

    /// Whether nothing at all is staged.
    pub open spec fn is_empty(self) -> bool {
        &&& self.devices@ == Map::<u64, Device>::empty()
        &&& self.device_maps@ == Map::<u64, String>::empty()
        &&& self.formats@ == Map::<u64, FileSystem>::empty()
        &&& self.labels@ == Map::<u64, String>::empty()
        &&& self.luks@ == Map::<u64, (DeviceEntity, LuksParams)>::empty()
        &&& self.lvs@ == Map::<u64, (LvmLv, VgEntity)>::empty()
        &&& self.parents@ == Map::<u64, DeviceEntity>::empty()
        &&& self.partitions@ == Map::<u64, Partition>::empty()
        &&& self.pv_parents@ == Map::<u64, VgEntity>::empty()
        &&& self.pvs@ == Map::<u64, (LvmPv, Option<VgEntity>)>::empty()
        &&& self.volume_groups@ == Map::<u64, LvmVg>::empty()
        &&& self.vg_parents@ == Map::<u64, VgEntity>::empty()
        &&& self.resize@ == Map::<u64, (u64, u64)>::empty()
        &&& self.tables@ == Map::<u64, PartitionTable>::empty()
    }

    pub fn new() -> (r: QueuedChanges)
        ensures
            r.wf(),
            r.is_empty(),
    {
        QueuedChanges {
            devices: Store::new(),
            device_maps: Store::new(),
            formats: Store::new(),
            labels: Store::new(),
            luks: Store::new(),
            lvs: Store::new(),
            parents: Store::new(),
            partitions: Store::new(),
            pv_parents: Store::new(),
            pvs: Store::new(),
            volume_groups: Store::new(),
            vg_parents: Store::new(),
            resize: Store::new(),
            tables: Store::new(),
        }
    }

    /// Drops every staged change.
    pub fn clear(&mut self)
        ensures
            final(self).wf(),
            final(self).is_empty(),
    {
        self.devices.clear();
        self.device_maps.clear();
        self.formats.clear();
        self.labels.clear();
        self.luks.clear();
        self.lvs.clear();
        self.parents.clear();
        self.partitions.clear();
        self.pv_parents.clear();
        self.pvs.clear();
        self.volume_groups.clear();
        self.vg_parents.clear();
        self.resize.clear();
        self.tables.clear();
    }
}

/// Components associated with the world's entities.
pub struct DiskComponents {
    /// Components representing current data on devices.
    pub devices: DeviceComponents,
    /// Components of LVM volume groups.
    pub vgs: VgComponents,
    /// All queued component modifications are stored here.
    pub queued_changes: QueuedChanges,
}

impl DiskComponents {
    pub open spec fn wf(self) -> bool {
        &&& self.devices.wf()
        &&& self.vgs.wf()
        &&& self.queued_changes.wf()
    }

    pub fn new() -> (r: DiskComponents)
        ensures
            r.wf(),
            r.devices.children@ == Map::<u64, Vec<DeviceEntity>>::empty(),
            r.devices.devices@ == Map::<u64, Device>::empty(),
            r.devices.disks@ == Map::<u64, Disk>::empty(),
            r.devices.device_maps@ == Map::<u64, String>::empty(),
            r.devices.loopbacks@ == Map::<u64, String>::empty(),
            r.devices.luks@ == Map::<u64, Option<LuksPassphrase>>::empty(),
            r.devices.lvs@ == Map::<u64, (LvmLv, VgEntity)>::empty(),
            r.devices.partitions@ == Map::<u64, Partition>::empty(),
            r.devices.pvs@ == Map::<u64, (LvmPv, Option<VgEntity>)>::empty(),
            r.devices.tables@ == Map::<u64, PartitionTable>::empty(),
            r.vgs.children@ == Map::<u64, Vec<DeviceEntity>>::empty(),
            r.vgs.volume_groups@ == Map::<u64, LvmVg>::empty(),
            r.queued_changes.is_empty(),
    {
        DiskComponents {
            devices: DeviceComponents::new(),
            vgs: VgComponents::new(),
            queued_changes: QueuedChanges::new(),
        }
    }
}

/// The world. It owns every entity and component; callers address entities
/// through non-owning identifiers.
pub struct DiskManager {
    /// Entities contained within the world.
    pub entities: DiskEntities,
    /// Components associated with those entities.
    pub components: DiskComponents,
    /// Flags that say which systems the next apply must run.
    pub flags: ManagerFlags,
}

impl DiskManager {
    pub open spec fn dev_alive(self, id: u64) -> bool {
        self.entities.devices@.contains_key(id)
    }

    pub open spec fn vg_alive(self, id: u64) -> bool {
        self.entities.vgs@.contains_key(id)
    }

    pub open spec fn dev_flags(self, id: u64) -> EntityFlags {
        self.entities.devices@[id]
    }

    /// Every key of every committed device component store addresses a
    /// live device entity, and every identifier inside a children list is
    /// live too.
    pub open spec fn inv_committed_keys_live(self) -> bool {
        let c = self.components.devices;
        &&& forall|k: u64| #[trigger] c.children@.contains_key(k) ==> self.dev_alive(k)
        &&& forall|k: u64| #[trigger] c.devices@.contains_key(k) ==> self.dev_alive(k)
        &&& forall|k: u64| #[trigger] c.disks@.contains_key(k) ==> self.dev_alive(k)
        &&& forall|k: u64| #[trigger] c.device_maps@.contains_key(k) ==> self.dev_alive(k)
        &&& forall|k: u64| #[trigger] c.loopbacks@.contains_key(k) ==> self.dev_alive(k)
        &&& forall|k: u64| #[trigger] c.luks@.contains_key(k) ==> self.dev_alive(k)
        &&& forall|k: u64| #[trigger] c.lvs@.contains_key(k) ==> self.dev_alive(k)
        &&& forall|k: u64| #[trigger] c.partitions@.contains_key(k) ==> self.dev_alive(k)
        &&& forall|k: u64| #[trigger] c.pvs@.contains_key(k) ==> self.dev_alive(k)
        &&& forall|k: u64| #[trigger] c.tables@.contains_key(k) ==> self.dev_alive(k)
        &&& forall|k: u64|
            #[trigger] self.components.vgs.children@.contains_key(k) ==> self.vg_alive(k)
        &&& forall|k: u64|
            #[trigger] self.components.vgs.volume_groups@.contains_key(k) ==> self.vg_alive(k)
        &&& forall|k: u64, i: int|
            c.children@.contains_key(k) && 0 <= i < c.children@[k]@.len() ==> self.dev_alive(
                (#[trigger] c.children@[k]@[i]).id,
            )
    }

    /// Every key of every queued store addresses a live entity.
    pub open spec fn inv_queued_keys_live(self) -> bool {
        let q = self.components.queued_changes;
        &&& forall|k: u64| #[trigger] q.devices@.contains_key(k) ==> self.dev_alive(k)
        &&& forall|k: u64| #[trigger] q.device_maps@.contains_key(k) ==> self.dev_alive(k)
        &&& forall|k: u64| #[trigger] q.formats@.contains_key(k) ==> self.dev_alive(k)
        &&& forall|k: u64| #[trigger] q.labels@.contains_key(k) ==> self.dev_alive(k)
        &&& forall|k: u64| #[trigger] q.luks@.contains_key(k) ==> self.dev_alive(k)
            && self.dev_alive(q.luks@[k].0.id)
        &&& forall|k: u64| #[trigger] q.lvs@.contains_key(k) ==> self.dev_alive(k)
        &&& forall|k: u64| #[trigger] q.parents@.contains_key(k) ==> self.dev_alive(k)
            && self.dev_alive(q.parents@[k].id)
        &&& forall|k: u64| #[trigger] q.partitions@.contains_key(k) ==> self.dev_alive(k)
        &&& forall|k: u64| #[trigger] q.pv_parents@.contains_key(k) ==> self.dev_alive(k)
        &&& forall|k: u64| #[trigger] q.pvs@.contains_key(k) ==> self.dev_alive(k)
        &&& forall|k: u64| #[trigger] q.volume_groups@.contains_key(k) ==> self.vg_alive(k)
        &&& forall|k: u64| #[trigger] q.vg_parents@.contains_key(k) ==> self.dev_alive(k)
        &&& forall|k: u64| #[trigger] q.resize@.contains_key(k) ==> self.dev_alive(k)
        &&& forall|k: u64| #[trigger] q.tables@.contains_key(k) ==> self.dev_alive(k)
    }

    /// Volume-group references held inside component values are live.
    pub open spec fn inv_vg_refs_live(self) -> bool {
        let c = self.components.devices;
        let q = self.components.queued_changes;
        &&& forall|k: u64|
            c.lvs@.contains_key(k) ==> self.vg_alive((#[trigger] c.lvs@[k]).1.id)
        &&& forall|k: u64|
            c.pvs@.contains_key(k) && (#[trigger] c.pvs@[k]).1 is Some ==> self.vg_alive(
                c.pvs@[k].1->Some_0.id,
            )
        &&& forall|k: u64, i: int|
            self.components.vgs.children@.contains_key(k) && 0 <= i
                < self.components.vgs.children@[k]@.len() ==> self.dev_alive(
                #[trigger] self.components.vgs.children@[k]@[i].id,
            )
        &&& forall|k: u64|
            q.lvs@.contains_key(k) ==> self.vg_alive((#[trigger] q.lvs@[k]).1.id)
        &&& forall|k: u64|
            q.pv_parents@.contains_key(k) ==> self.vg_alive((#[trigger] q.pv_parents@[k]).id)
        &&& forall|k: u64|
            q.vg_parents@.contains_key(k) ==> self.vg_alive((#[trigger] q.vg_parents@[k]).id)
        &&& forall|k: u64|
            q.pvs@.contains_key(k) && (#[trigger] q.pvs@[k]).1 is Some ==> self.vg_alive(
                q.pvs@[k].1->Some_0.id,
            )
    }

    /// An entity staged for creation that has no committed device record:
    /// the kind of entity that `unset` drops from the registry.
    pub open spec fn dev_staged_only(self, k: u64) -> bool {
        &&& self.dev_alive(k)
        &&& self.dev_flags(k).create
        &&& !self.components.devices.devices@.contains_key(k)
    }

    /// An entity touched by any committed store while staged for creation
    /// has a committed device record: dropping a staged-only entity leaves
    /// no dangling committed state behind.
    pub open spec fn inv_staged_fresh(self) -> bool {
        let c = self.components.devices;
        &&& forall|k: u64|
            #[trigger] c.children@.contains_key(k) && self.dev_alive(k) && self.dev_flags(k).create
                ==> c.devices@.contains_key(k)
        &&& forall|k: u64|
            #[trigger] c.disks@.contains_key(k) && self.dev_alive(k) && self.dev_flags(k).create
                ==> c.devices@.contains_key(k)
        &&& forall|k: u64|
            #[trigger] c.device_maps@.contains_key(k) && self.dev_alive(k) && self.dev_flags(
                k,
            ).create ==> c.devices@.contains_key(k)
        &&& forall|k: u64|
            #[trigger] c.loopbacks@.contains_key(k) && self.dev_alive(k) && self.dev_flags(
                k,
            ).create ==> c.devices@.contains_key(k)
        &&& forall|k: u64|
            #[trigger] c.luks@.contains_key(k) && self.dev_alive(k) && self.dev_flags(k).create
                ==> c.devices@.contains_key(k)
        &&& forall|k: u64|
            #[trigger] c.lvs@.contains_key(k) && self.dev_alive(k) && self.dev_flags(k).create
                ==> c.devices@.contains_key(k)
        &&& forall|k: u64|
            #[trigger] c.partitions@.contains_key(k) && self.dev_alive(k) && self.dev_flags(
                k,
            ).create ==> c.devices@.contains_key(k)
        &&& forall|k: u64|
            #[trigger] c.pvs@.contains_key(k) && self.dev_alive(k) && self.dev_flags(k).create
                ==> c.devices@.contains_key(k)
        &&& forall|k: u64|
            #[trigger] c.tables@.contains_key(k) && self.dev_alive(k) && self.dev_flags(k).create
                ==> c.devices@.contains_key(k)
        &&& forall|p: u64, i: int|
            c.children@.contains_key(p) && 0 <= i < c.children@[p]@.len() && self.dev_flags(
                (#[trigger] c.children@[p]@[i]).id,
            ).create ==> c.devices@.contains_key(c.children@[p]@[i].id)
        &&& forall|p: u64, i: int|
            self.components.vgs.children@.contains_key(p) && 0 <= i
                < self.components.vgs.children@[p]@.len() && self.dev_flags(
                (#[trigger] self.components.vgs.children@[p]@[i]).id,
            ).create ==> c.devices@.contains_key(self.components.vgs.children@[p]@[i].id)
    }

    /// A volume group staged for creation that has no committed record:
    /// the kind of group that `unset` drops from the registry.
    pub open spec fn vg_staged_only(self, k: u64) -> bool {
        &&& self.vg_alive(k)
        &&& self.entities.vgs@[k].create
        &&& !self.components.vgs.volume_groups@.contains_key(k)
    }

    /// A volume group referenced by committed state has a committed record
    /// whenever it is staged for creation.
    pub open spec fn inv_staged_fresh_vg(self) -> bool {
        let c = self.components.devices;
        &&& forall|k: u64|
            #[trigger] self.components.vgs.children@.contains_key(k) && self.vg_alive(k)
                && self.entities.vgs@[k].create ==> self.components.vgs.volume_groups@.contains_key(
                k,
            )
        &&& forall|k: u64|
            c.lvs@.contains_key(k) && self.entities.vgs@[(#[trigger] c.lvs@[k]).1.id].create
                ==> self.components.vgs.volume_groups@.contains_key(c.lvs@[k].1.id)
        &&& forall|k: u64|
            c.pvs@.contains_key(k) && (#[trigger] c.pvs@[k]).1 is Some
                && self.entities.vgs@[c.pvs@[k].1->Some_0.id].create
                ==> self.components.vgs.volume_groups@.contains_key(c.pvs@[k].1->Some_0.id)
    }

    /// Committed and staged device records can resolve sectors safely.
    pub open spec fn inv_devices_wf(self) -> bool {
        &&& forall|k: u64|
            self.components.devices.devices@.contains_key(k)
                ==> (#[trigger] self.components.devices.devices@[k]).wf()
        &&& forall|k: u64|
            self.components.queued_changes.devices@.contains_key(k)
                ==> (#[trigger] self.components.queued_changes.devices@[k]).wf()
    }

    /// Committed and staged volume groups are in good standing; in
    /// particular no more extents are free than exist.
    pub open spec fn inv_vgs_wf(self) -> bool {
        &&& forall|k: u64|
            self.components.vgs.volume_groups@.contains_key(k)
                ==> (#[trigger] self.components.vgs.volume_groups@[k]).wf()
        &&& forall|k: u64|
            self.components.queued_changes.volume_groups@.contains_key(k)
                ==> (#[trigger] self.components.queued_changes.volume_groups@[k]).wf()
    }

    /// The world as every operation expects and leaves it.
    pub open spec fn wf(self) -> bool {
        &&& self.entities.wf()
        &&& self.components.wf()
        &&& self.inv_committed_keys_live()
        &&& self.inv_queued_keys_live()
        &&& self.inv_devices_wf()
        &&& self.inv_vgs_wf()
        &&& self.inv_vg_refs_live()
        &&& self.inv_staged_fresh()
        &&& self.inv_staged_fresh_vg()
    }

    /// An empty world.
    pub fn new() -> (r: DiskManager)
        ensures
            r.wf(),
            r.entities.devices@ == Map::<u64, EntityFlags>::empty(),
            r.entities.vgs@ == Map::<u64, EntityFlags>::empty(),
            r.components.queued_changes.is_empty(),
            r.flags == ManagerFlags::spec_empty(),
    {
        DiskManager {
            entities: DiskEntities::new(),
            components: DiskComponents::new(),
            flags: ManagerFlags::empty(),
        }
    }

    /// Drops all recorded entities and their components.
    pub fn clear(&mut self)
        ensures
            final(self).wf(),
            final(self).entities.devices@ == Map::<u64, EntityFlags>::empty(),
            final(self).entities.vgs@ == Map::<u64, EntityFlags>::empty(),
            final(self).components.queued_changes.is_empty(),
            final(self).components.devices.devices@ == Map::<u64, Device>::empty(),
            final(self).components.devices.children@ == Map::<u64, Vec<DeviceEntity>>::empty(),
            final(self).components.devices.partitions@ == Map::<u64, Partition>::empty(),
            final(self).components.devices.tables@ == Map::<u64, PartitionTable>::empty(),
            final(self).components.vgs.volume_groups@ == Map::<u64, LvmVg>::empty(),
            final(self).flags == old(self).flags,
            final(self).entities.next_device == old(self).entities.next_device,
            final(self).entities.next_vg == old(self).entities.next_vg,
    {
        self.entities.clear();
        self.components = DiskComponents::new();
    }

    /// Whether the entity is a physical disk.
    pub fn is_disk(&self, entity: DeviceEntity) -> (r: bool)
        requires
            self.wf(),
        ensures
            r == self.components.devices.disks@.contains_key(entity.id),
    {
        self.components.devices.disks.contains_key(entity.id)
    }

    /// Whether the entity occupies a region of a parent, or carries a
    /// file system of its own.
    pub fn is_partition(&self, entity: DeviceEntity) -> (r: bool)
        requires
            self.wf(),
        ensures
            r == self.components.devices.partitions@.contains_key(entity.id),
    {
        self.components.devices.partitions.contains_key(entity.id)
    }

    /// Whether the entity is a LUKS ciphertext device.
    pub fn is_luks(&self, entity: DeviceEntity) -> (r: bool)
        requires
            self.wf(),
        ensures
            r == self.components.devices.luks@.contains_key(entity.id),
    {
        self.components.devices.luks.contains_key(entity.id)
    }

    /// Whether the entity is the block target of a logical volume.
    pub fn is_lvm_lv(&self, entity: DeviceEntity) -> (r: bool)
        requires
            self.wf(),
        ensures
            r == self.components.devices.lvs@.contains_key(entity.id),
    {
        self.components.devices.lvs.contains_key(entity.id)
    }

    /// Whether the entity is an LVM physical volume.
    pub fn is_lvm_pv(&self, entity: DeviceEntity) -> (r: bool)
        requires
            self.wf(),
        ensures
            r == self.components.devices.pvs@.contains_key(entity.id),
    {
        self.components.devices.pvs.contains_key(entity.id)
    }

    /// Fetches the device record of an entity; every committed entity has
    /// one.
    pub fn device(&self, entity: DeviceEntity) -> (r: &Device)
        requires
            self.wf(),
            self.components.devices.devices@.contains_key(entity.id),
        ensures
            *r == self.components.devices.devices@[entity.id],
    {
        self.components.devices.devices.get(entity.id).unwrap()
    }

    /// Finds a device by its path, in iteration order.
    pub fn device_by_path(&self, path: &str) -> (r: Option<(DeviceEntity, &Device)>)
        requires
            self.wf(),
        ensures
            match r {
                Some((e, d)) => {
                    &&& self.components.devices.devices@.contains_key(e.id)
                    &&& *d == self.components.devices.devices@[e.id]
                    &&& d.path@ == path@
                },
                None => forall|k: u64|
                    self.components.devices.devices@.contains_key(k) ==> (
                    #[trigger] self.components.devices.devices@[k]).path@ != path@,
            },
    {
        let devices = &self.components.devices.devices;
        let n = devices.len();
        let mut i: usize = 0;
        while i < n
            invariant
                self.wf(),
                *devices == self.components.devices.devices,
                n == devices.keys_seq().len(),
                i <= n,
                forall|j: int|
                    0 <= j < i ==> (#[trigger] devices.vals_seq()[j]).path@ != path@,
            decreases n - i,
        {
            let d = devices.val_at(i);
            if str_eq(d.path.as_str(), path) {
                let k = devices.key_at(i);
                return Some((DeviceEntity { id: k }, d));
            }
            i = i + 1;
        }
        proof {
            assert forall|k: u64| devices@.contains_key(k) implies (
            #[trigger] devices@[k]).path@ != path@ by {
                let j = choose|j: int|
                    0 <= j < devices.keys_seq().len() && devices.keys_seq()[j] == k;
                assert(devices@[k] == devices.vals_seq()[devices.keys_seq().index_of(k)]);
                assert(devices.vals_seq()[j].path@ != path@);
            }
        }
        None
    }

    /// All device entities, in iteration order.
    pub fn devices(&self) -> (r: Vec<DeviceEntity>)
        requires
            self.wf(),
        ensures
            r@.len() == self.entities.devices.keys_seq().len(),
            forall|i: int|
                0 <= i < r@.len() ==> (#[trigger] r@[i]).id == self.entities.devices.keys_seq()[i],
    {
        let keys = self.entities.devices.keys_vec();
        let mut out: Vec<DeviceEntity> = Vec::new();
        let n = keys.len();
        let mut i: usize = 0;
        while i < n
            invariant
                n == keys@.len(),
                keys@ == self.entities.devices.keys_seq(),
                i <= n,
                out@.len() == i,
                forall|j: int| 0 <= j < i ==> (#[trigger] out@[j]).id == keys@[j],
            decreases n - i,
        {
            out.push(DeviceEntity { id: keys[i] });
            i = i + 1;
        }
        out
    }

    /// If the device is a loopback, the path of its backing file.
    pub fn backing_file(&self, entity: DeviceEntity) -> (r: Option<&String>)
        requires
            self.wf(),
        ensures
            match r {
                Some(p) => self.components.devices.loopbacks@.contains_key(entity.id) && *p
                    == self.components.devices.loopbacks@[entity.id],
                None => !self.components.devices.loopbacks@.contains_key(entity.id),
            },
    {
        self.components.devices.loopbacks.get(entity.id)
    }

    /// If the device is a device map, its name.
    pub fn device_map_name(&self, entity: DeviceEntity) -> (r: Option<&String>)
        requires
            self.wf(),
        ensures
            match r {
                Some(p) => self.components.devices.device_maps@.contains_key(entity.id) && *p
                    == self.components.devices.device_maps@[entity.id],
                None => !self.components.devices.device_maps@.contains_key(entity.id),
            },
    {
        self.components.devices.device_maps.get(entity.id)
    }

    /// The children of a device, for devices that have them.
    pub fn children(&self, entity: DeviceEntity) -> (r: Option<&Vec<DeviceEntity>>)
        requires
            self.wf(),
        ensures
            match r {
                Some(v) => self.components.devices.children@.contains_key(entity.id) && *v
                    == self.components.devices.children@[entity.id],
                None => !self.components.devices.children@.contains_key(entity.id),
            },
    {
        self.components.devices.children.get(entity.id)
    }

    /// The parents of a device, found by scanning every children list.
    pub fn parents(&self, entity: DeviceEntity) -> (r: Vec<DeviceEntity>)
        requires
            self.wf(),
        ensures
            forall|i: int|
                0 <= i < r@.len() ==> {
                    let p = #[trigger] r@[i];
                    self.components.devices.children@.contains_key(p.id)
                        && self.components.devices.children@[p.id]@.contains(entity)
                },
            forall|k: u64|
                self.components.devices.children@.contains_key(k)
                    && (#[trigger] self.components.devices.children@[k])@.contains(entity)
                    ==> r@.contains(DeviceEntity { id: k }),
            forall|a: int, b: int|
                0 <= a < b < r@.len() ==> (#[trigger] r@[a]).id != (#[trigger] r@[b]).id
                    && self.components.devices.children.keys_seq().index_of(r@[a].id)
                    < self.components.devices.children.keys_seq().index_of(r@[b].id),
    {
        let children = &self.components.devices.children;
        let mut out: Vec<DeviceEntity> = Vec::new();
        let n = children.len();
        let mut i: usize = 0;
        while i < n
            invariant
                self.wf(),
                *children == self.components.devices.children,
                n == children.keys_seq().len(),
                i <= n,
                forall|j: int|
                    0 <= j < out@.len() ==> {
                        let p = #[trigger] out@[j];
                        children@.contains_key(p.id) && children@[p.id]@.contains(entity)
                    },
                forall|j: int|
                    0 <= j < i && (#[trigger] children.vals_seq()[j])@.contains(entity)
                        ==> out@.contains(DeviceEntity { id: children.keys_seq()[j] }),
                forall|a: int|
                    0 <= a < out@.len() ==> children.keys_seq().index_of(
                        (#[trigger] out@[a]).id,
                    ) < i,
                forall|a: int, b: int|
                    0 <= a < b < out@.len() ==> (#[trigger] out@[a]).id != (
                    #[trigger] out@[b]).id && children.keys_seq().index_of(out@[a].id)
                        < children.keys_seq().index_of(out@[b].id),
            decreases n - i,
        {
            let list = children.val_at(i);
            if contains_entity(list, entity) {
                let ghost before = out@;
                let k = children.key_at(i);
                out.push(DeviceEntity { id: k });
                proof {
                    assert(out@[out@.len() - 1] == DeviceEntity { id: k });
                    children.lemma_keys_distinct();
                    assert(children.keys_seq().contains(k)) by {
                        assert(children.keys_seq()[i as int] == k);
                    }
                    assert(children.keys_seq().index_of(k) == i as int) by {
                        let w = children.keys_seq().index_of(k);
                        assert(0 <= w < children.keys_seq().len() && children.keys_seq()[w]
                            == k);
                        if w != i as int {
                            assert(children.keys_seq()[w] == children.keys_seq()[i as int]);
                            assert(false);
                        }
                    }
                    assert forall|a: int, b: int|
                        0 <= a < b < out@.len() implies (#[trigger] out@[a]).id != (
                    #[trigger] out@[b]).id && children.keys_seq().index_of(out@[a].id)
                        < children.keys_seq().index_of(out@[b].id) by {
                        if b < out@.len() - 1 {
                            assert(out@[a] == before[a]);
                            assert(out@[b] == before[b]);
                        } else {
                            assert(out@[a] == before[a]);
                            assert(children.keys_seq().index_of(out@[a].id) < i as int);
                        }
                    }
                    assert forall|j: int|
                        0 <= j < i + 1 && (#[trigger] children.vals_seq()[j])@.contains(
                            entity,
                        ) implies out@.contains(DeviceEntity { id: children.keys_seq()[j] }) by {
                        if j < i {
                            let w = choose|w: int|
                                0 <= w < before.len() && before[w] == DeviceEntity {
                                    id: children.keys_seq()[j],
                                };
                            assert(out@[w] == DeviceEntity { id: children.keys_seq()[j] });
                        }
                    }
                }
            }
            i = i + 1;
        }
        proof {
            assert forall|k: u64|
                children@.contains_key(k) && (#[trigger] children@[k])@.contains(
                    entity,
                ) implies out@.contains(DeviceEntity { id: k }) by {
                let j = choose|j: int|
                    0 <= j < children.keys_seq().len() && children.keys_seq()[j] == k;
                assert(children@[k] == children.vals_seq()[children.keys_seq().index_of(k)]);
                assert(children.vals_seq()[j]@.contains(entity));
            }
        }
        out
    }

    /// The partition record of an entity, if it has one.
    pub fn partition(&self, entity: DeviceEntity) -> (r: Option<&Partition>)
        requires
            self.wf(),
        ensures
            match r {
                Some(p) => self.components.devices.partitions@.contains_key(entity.id) && *p
                    == self.components.devices.partitions@[entity.id],
                None => !self.components.devices.partitions@.contains_key(entity.id),
            },
    {
        self.components.devices.partitions.get(entity.id)
    }

    /// The disk record of an entity, if it is a whole physical disk.
    pub fn disk(&self, entity: DeviceEntity) -> (r: Option<&Disk>)
        requires
            self.wf(),
        ensures
            match r {
                Some(d) => self.components.devices.disks@.contains_key(entity.id) && *d
                    == self.components.devices.disks@[entity.id],
                None => !self.components.devices.disks@.contains_key(entity.id),
            },
    {
        self.components.devices.disks.get(entity.id)
    }

    /// The logical-volume record of an entity, if it is one.
    pub fn lv(&self, entity: DeviceEntity) -> (r: Option<&(LvmLv, VgEntity)>)
        requires
            self.wf(),
        ensures
            match r {
                Some(v) => self.components.devices.lvs@.contains_key(entity.id) && *v
                    == self.components.devices.lvs@[entity.id],
                None => !self.components.devices.lvs@.contains_key(entity.id),
            },
    {
        self.components.devices.lvs.get(entity.id)
    }

    /// The physical-volume record of an entity, if it is one.
    pub fn pv(&self, entity: DeviceEntity) -> (r: Option<&(LvmPv, Option<VgEntity>)>)
        requires
            self.wf(),
        ensures
            match r {
                Some(v) => self.components.devices.pvs@.contains_key(entity.id) && *v
                    == self.components.devices.pvs@[entity.id],
                None => !self.components.devices.pvs@.contains_key(entity.id),
            },
    {
        self.components.devices.pvs.get(entity.id)
    }

    /// Finds a volume group by name, in iteration order.
    pub fn lvm_volume_group(&self, name: &str) -> (r: Option<(VgEntity, &LvmVg)>)
        requires
            self.wf(),
        ensures
            match r {
                Some((e, vg)) => {
                    &&& self.components.vgs.volume_groups@.contains_key(e.id)
                    &&& *vg == self.components.vgs.volume_groups@[e.id]
                    &&& vg.name@ == name@
                },
                None => forall|k: u64|
                    self.components.vgs.volume_groups@.contains_key(k) ==> (
                    #[trigger] self.components.vgs.volume_groups@[k]).name@ != name@,
            },
    {
        let vgs = &self.components.vgs.volume_groups;
        let n = vgs.len();
        let mut i: usize = 0;
        while i < n
            invariant
                self.wf(),
                *vgs == self.components.vgs.volume_groups,
                n == vgs.keys_seq().len(),
                i <= n,
                forall|j: int| 0 <= j < i ==> (#[trigger] vgs.vals_seq()[j]).name@ != name@,
            decreases n - i,
        {
            let vg = vgs.val_at(i);
            if str_eq(vg.name.as_str(), name) {
                let k = vgs.key_at(i);
                return Some((VgEntity { id: k }, vg));
            }
            i = i + 1;
        }
        proof {
            assert forall|k: u64| vgs@.contains_key(k) implies (#[trigger] vgs@[k]).name@
                != name@ by {
                let j = choose|j: int| 0 <= j < vgs.keys_seq().len() && vgs.keys_seq()[j] == k;
                assert(vgs@[k] == vgs.vals_seq()[vgs.keys_seq().index_of(k)]);
                assert(vgs.vals_seq()[j].name@ != name@);
            }
        }
        None
    }

    /// All volume-group entities, in iteration order.
    pub fn lvm_volume_groups(&self) -> (r: Vec<VgEntity>)
        requires
            self.wf(),
        ensures
            r@.len() == self.components.vgs.volume_groups.keys_seq().len(),
            forall|i: int|
                0 <= i < r@.len() ==> (#[trigger] r@[i]).id
                    == self.components.vgs.volume_groups.keys_seq()[i],
    {
        let keys = self.components.vgs.volume_groups.keys_vec();
        let mut out: Vec<VgEntity> = Vec::new();
        let n = keys.len();
        let mut i: usize = 0;
        while i < n
            invariant
                n == keys@.len(),
                keys@ == self.components.vgs.volume_groups.keys_seq(),
                i <= n,
                out@.len() == i,
                forall|j: int| 0 <= j < i ==> (#[trigger] out@[j]).id == keys@[j],
            decreases n - i,
        {
            out.push(VgEntity { id: keys[i] });
            i = i + 1;
        }
        out
    }

    /// Checks whether the given sector lies inside any child of the device.
    ///
    /// A device without children covers nothing.
    pub fn sector_overlaps(&self, entity: DeviceEntity, sector: u64) -> (r: bool)
        requires
            self.wf(),
        ensures
            r == exists|i: int|
                #![trigger self.components.devices.children@[entity.id]@[i]]
                {
                    let ch = self.components.devices.children@;
                    &&& ch.contains_key(entity.id)
                    &&& 0 <= i < ch[entity.id]@.len()
                    &&& {
                        let c = ch[entity.id]@[i].id;
                        &&& self.components.devices.partitions@.contains_key(c)
                        &&& self.components.devices.devices@.contains_key(c)
                        &&& self.components.devices.partitions@[c].offset <= sector
                        &&& sector < self.components.devices.partitions@[c].offset
                            + self.components.devices.devices@[c].sectors
                    }
                },
    {
        let ch = match self.components.devices.children.get(entity.id) {
            Some(ch) => ch,
            None => {
                return false;
            },
        };
        let n = ch.len();
        let mut i: usize = 0;
        while i < n
            invariant
                self.wf(),
                self.components.devices.children@.contains_key(entity.id),
                *ch == self.components.devices.children@[entity.id],
                n == ch@.len(),
                i <= n,
                forall|j: int|
                    0 <= j < i ==> !{
                        let c = (#[trigger] ch@[j]).id;
                        &&& self.components.devices.partitions@.contains_key(c)
                        &&& self.components.devices.devices@.contains_key(c)
                        &&& self.components.devices.partitions@[c].offset <= sector
                        &&& sector < self.components.devices.partitions@[c].offset
                            + self.components.devices.devices@[c].sectors
                    },
            decreases n - i,
        {
            let c = ch[i];
            if let Some(p) = self.components.devices.partitions.get(c.id) {
                if let Some(d) = self.components.devices.devices.get(c.id) {
                    if p.offset <= sector && sector - p.offset < d.sectors {
                        return true;
                    }
                }
            }
            i = i + 1;
        }
        false
    }
}

/// A staging step leaves the committed half of the world untouched: when
/// the registries only grow, and a creation mark appears only on entities
/// that carry a committed record, the whole invariant carries over.
pub proof fn lemma_wf_committed_frame(w0: DiskManager, w1: DiskManager)
    requires
        w0.wf(),
        w1.components.devices == w0.components.devices,
        w1.components.vgs == w0.components.vgs,
        w1.components.wf(),
        w1.entities.wf(),
        w1.inv_queued_keys_live(),
        w1.inv_devices_wf(),
        w1.inv_vgs_wf(),
        forall|k: u64|
            #[trigger] w1.components.queued_changes.lvs@.contains_key(k) ==> w1.vg_alive(
                w1.components.queued_changes.lvs@[k].1.id,
            ),
        forall|k: u64|
            #[trigger] w1.components.queued_changes.pv_parents@.contains_key(k) ==> w1.vg_alive(
                w1.components.queued_changes.pv_parents@[k].id,
            ),
        forall|k: u64|
            #[trigger] w1.components.queued_changes.vg_parents@.contains_key(k) ==> w1.vg_alive(
                w1.components.queued_changes.vg_parents@[k].id,
            ),
        forall|k: u64|
            #[trigger] w1.components.queued_changes.pvs@.contains_key(k)
                && w1.components.queued_changes.pvs@[k].1 is Some ==> w1.vg_alive(
                w1.components.queued_changes.pvs@[k].1->Some_0.id,
            ),
        forall|k: u64|
            #[trigger] w0.dev_alive(k) ==> w1.dev_alive(k) && (w1.dev_flags(k).create && !w0
                .dev_flags(k).create ==> w0.components.devices.devices@.contains_key(k))
                && (w0.dev_flags(k).create ==> w1.dev_flags(k).create),
        forall|k: u64|
            #[trigger] w0.vg_alive(k) ==> w1.vg_alive(k) && (w1.entities.vgs@[k].create
                && !w0.entities.vgs@[k].create ==> w0.components.vgs.volume_groups@.contains_key(
                k,
            )),
    ensures
        w1.wf(),
{
    let c = w1.components.devices;
    assert forall|k: u64| #[trigger] c.children@.contains_key(k) implies w1.dev_alive(k) by {
        assert(w0.dev_alive(k));
    }
    assert forall|k: u64| #[trigger] c.devices@.contains_key(k) implies w1.dev_alive(k) by {
        assert(w0.dev_alive(k));
    }
    assert forall|k: u64| #[trigger] c.disks@.contains_key(k) implies w1.dev_alive(k) by {
        assert(w0.dev_alive(k));
    }
    assert forall|k: u64| #[trigger] c.device_maps@.contains_key(k) implies w1.dev_alive(k) by {
        assert(w0.dev_alive(k));
    }
    assert forall|k: u64| #[trigger] c.loopbacks@.contains_key(k) implies w1.dev_alive(k) by {
        assert(w0.dev_alive(k));
    }
    assert forall|k: u64| #[trigger] c.luks@.contains_key(k) implies w1.dev_alive(k) by {
        assert(w0.dev_alive(k));
    }
    assert forall|k: u64| #[trigger] c.lvs@.contains_key(k) implies w1.dev_alive(k) by {
        assert(w0.dev_alive(k));
    }
    assert forall|k: u64| #[trigger] c.partitions@.contains_key(k) implies w1.dev_alive(k) by {
        assert(w0.dev_alive(k));
    }
    assert forall|k: u64| #[trigger] c.pvs@.contains_key(k) implies w1.dev_alive(k) by {
        assert(w0.dev_alive(k));
    }
    assert forall|k: u64| #[trigger] c.tables@.contains_key(k) implies w1.dev_alive(k) by {
        assert(w0.dev_alive(k));
    }
    assert forall|k: u64|
        #[trigger] w1.components.vgs.children@.contains_key(k) implies w1.vg_alive(k) by {
        assert(w0.vg_alive(k));
    }
    assert forall|k: u64|
        #[trigger] w1.components.vgs.volume_groups@.contains_key(k) implies w1.vg_alive(k) by {
        assert(w0.vg_alive(k));
    }
    assert forall|k: u64, i: int|
        c.children@.contains_key(k) && 0 <= i < c.children@[k]@.len() implies w1.dev_alive(
        (#[trigger] c.children@[k]@[i]).id) by {
        assert(w0.dev_alive(c.children@[k]@[i].id));
    }
    assert forall|k: u64, i: int|
        w1.components.vgs.children@.contains_key(k) && 0 <= i
            < w1.components.vgs.children@[k]@.len() implies w1.dev_alive(
        (#[trigger] w1.components.vgs.children@[k]@[i]).id) by {
        assert(w0.dev_alive(w1.components.vgs.children@[k]@[i].id));
    }
    assert forall|k: u64| #[trigger] c.lvs@.contains_key(k) implies w1.vg_alive(c.lvs@[k].1.id) by {
        assert(w0.vg_alive(c.lvs@[k].1.id));
    }
    assert forall|k: u64|
        c.pvs@.contains_key(k) && (#[trigger] c.pvs@[k]).1 is Some implies w1.vg_alive(
        c.pvs@[k].1->Some_0.id) by {
        assert(w0.vg_alive(c.pvs@[k].1->Some_0.id));
    }
    // A creation mark on anything a committed store touches implies a
    // committed device record.
    assert forall|k: u64|
        #[trigger] c.children@.contains_key(k) && w1.dev_alive(k) && w1.dev_flags(
            k,
        ).create implies c.devices@.contains_key(k) by {
        assert(w0.dev_alive(k));
    }
    assert forall|k: u64|
        #[trigger] c.disks@.contains_key(k) && w1.dev_alive(k) && w1.dev_flags(
            k,
        ).create implies c.devices@.contains_key(k) by {
        assert(w0.dev_alive(k));
    }
    assert forall|k: u64|
        #[trigger] c.device_maps@.contains_key(k) && w1.dev_alive(k) && w1.dev_flags(
            k,
        ).create implies c.devices@.contains_key(k) by {
        assert(w0.dev_alive(k));
    }
    assert forall|k: u64|
        #[trigger] c.loopbacks@.contains_key(k) && w1.dev_alive(k) && w1.dev_flags(
            k,
        ).create implies c.devices@.contains_key(k) by {
        assert(w0.dev_alive(k));
    }
    assert forall|k: u64|
        #[trigger] c.luks@.contains_key(k) && w1.dev_alive(k) && w1.dev_flags(
            k,
        ).create implies c.devices@.contains_key(k) by {
        assert(w0.dev_alive(k));
    }
    assert forall|k: u64|
        #[trigger] c.lvs@.contains_key(k) && w1.dev_alive(k) && w1.dev_flags(
            k,
        ).create implies c.devices@.contains_key(k) by {
        assert(w0.dev_alive(k));
    }
    assert forall|k: u64|
        #[trigger] c.partitions@.contains_key(k) && w1.dev_alive(k) && w1.dev_flags(
            k,
        ).create implies c.devices@.contains_key(k) by {
        assert(w0.dev_alive(k));
    }
    assert forall|k: u64|
        #[trigger] c.pvs@.contains_key(k) && w1.dev_alive(k) && w1.dev_flags(
            k,
        ).create implies c.devices@.contains_key(k) by {
        assert(w0.dev_alive(k));
    }
    assert forall|k: u64|
        #[trigger] c.tables@.contains_key(k) && w1.dev_alive(k) && w1.dev_flags(
            k,
        ).create implies c.devices@.contains_key(k) by {
        assert(w0.dev_alive(k));
    }
    assert forall|p: u64, i: int|
        c.children@.contains_key(p) && 0 <= i < c.children@[p]@.len() && w1.dev_flags(
            (#[trigger] c.children@[p]@[i]).id,
        ).create implies c.devices@.contains_key(c.children@[p]@[i].id) by {
        let cid = c.children@[p]@[i].id;
        assert(w0.dev_alive(cid));
    }
    assert forall|p: u64, i: int|
        w1.components.vgs.children@.contains_key(p) && 0 <= i
            < w1.components.vgs.children@[p]@.len() && w1.dev_flags(
            (#[trigger] w1.components.vgs.children@[p]@[i]).id,
        ).create implies c.devices@.contains_key(w1.components.vgs.children@[p]@[i].id) by {
        let cid = w1.components.vgs.children@[p]@[i].id;
        assert(w0.dev_alive(cid));
    }
    assert forall|k: u64|
        #[trigger] w1.components.vgs.children@.contains_key(k) && w1.vg_alive(k)
            && w1.entities.vgs@[k].create implies w1.components.vgs.volume_groups@.contains_key(
        k) by {
        assert(w0.vg_alive(k));
    }
    assert forall|k: u64|
        c.lvs@.contains_key(k) && w1.entities.vgs@[(#[trigger] c.lvs@[k]).1.id].create implies w1
        .components.vgs.volume_groups@.contains_key(c.lvs@[k].1.id) by {
        assert(w0.vg_alive(c.lvs@[k].1.id));
    }
    assert forall|k: u64|
        c.pvs@.contains_key(k) && (#[trigger] c.pvs@[k]).1 is Some
            && w1.entities.vgs@[c.pvs@[k].1->Some_0.id].create implies w1
            .components.vgs.volume_groups@.contains_key(
        c.pvs@[k].1->Some_0.id) by {
        assert(w0.vg_alive(c.pvs@[k].1->Some_0.id));
    }
}

/// Registering one fresh device entity keeps the whole invariant: the
/// components are untouched and the newcomer's identifier is too young to
/// be in any of them.
pub proof fn lemma_wf_new_device(w0: DiskManager, w1: DiskManager)
    requires
        w0.wf(),
        w1.components == w0.components,
        w1.entities.vgs == w0.entities.vgs,
        w1.entities.next_vg == w0.entities.next_vg,
        w1.entities.wf(),
        forall|k: u64|
            #[trigger] w0.dev_alive(k) ==> w1.dev_alive(k) && w1.dev_flags(k) == w0.dev_flags(k),
        forall|k: u64|
            #[trigger] w1.dev_alive(k) ==> w0.dev_alive(k) || k >= w0.entities.next_device,
    ensures
        w1.wf(),
{
    let c = w1.components.devices;
    assert forall|k: u64| #[trigger] c.children@.contains_key(k) implies w1.dev_alive(k) by {
        assert(w0.dev_alive(k));
    }
    assert forall|k: u64| #[trigger] c.devices@.contains_key(k) implies w1.dev_alive(k) by {
        assert(w0.dev_alive(k));
    }
    assert forall|k: u64| #[trigger] c.disks@.contains_key(k) implies w1.dev_alive(k) by {
        assert(w0.dev_alive(k));
    }
    assert forall|k: u64| #[trigger] c.device_maps@.contains_key(k) implies w1.dev_alive(k) by {
        assert(w0.dev_alive(k));
    }
    assert forall|k: u64| #[trigger] c.loopbacks@.contains_key(k) implies w1.dev_alive(k) by {
        assert(w0.dev_alive(k));
    }
    assert forall|k: u64| #[trigger] c.luks@.contains_key(k) implies w1.dev_alive(k) by {
        assert(w0.dev_alive(k));
    }
    assert forall|k: u64| #[trigger] c.lvs@.contains_key(k) implies w1.dev_alive(k) by {
        assert(w0.dev_alive(k));
    }
    assert forall|k: u64| #[trigger] c.partitions@.contains_key(k) implies w1.dev_alive(k) by {
        assert(w0.dev_alive(k));
    }
    assert forall|k: u64| #[trigger] c.pvs@.contains_key(k) implies w1.dev_alive(k) by {
        assert(w0.dev_alive(k));
    }
    assert forall|k: u64| #[trigger] c.tables@.contains_key(k) implies w1.dev_alive(k) by {
        assert(w0.dev_alive(k));
    }
    assert forall|k: u64, i: int|
        c.children@.contains_key(k) && 0 <= i < c.children@[k]@.len() implies w1.dev_alive(
        (#[trigger] c.children@[k]@[i]).id) by {
        assert(w0.dev_alive(c.children@[k]@[i].id));
    }
    assert forall|k: u64, i: int|
        w1.components.vgs.children@.contains_key(k) && 0 <= i
            < w1.components.vgs.children@[k]@.len() implies w1.dev_alive(
        (#[trigger] w1.components.vgs.children@[k]@[i]).id) by {
        assert(w0.dev_alive(w1.components.vgs.children@[k]@[i].id));
    }
    let q = w1.components.queued_changes;
    assert forall|k: u64| #[trigger] q.devices@.contains_key(k) implies w1.dev_alive(k) by {
        assert(w0.dev_alive(k));
    }
    assert forall|k: u64| #[trigger] q.device_maps@.contains_key(k) implies w1.dev_alive(k) by {
        assert(w0.dev_alive(k));
    }
    assert forall|k: u64| #[trigger] q.formats@.contains_key(k) implies w1.dev_alive(k) by {
        assert(w0.dev_alive(k));
    }
    assert forall|k: u64| #[trigger] q.labels@.contains_key(k) implies w1.dev_alive(k) by {
        assert(w0.dev_alive(k));
    }
    assert forall|k: u64|
        #[trigger] q.luks@.contains_key(k) implies w1.dev_alive(k) && w1.dev_alive(
        q.luks@[k].0.id) by {
        assert(w0.dev_alive(k));
        assert(w0.dev_alive(q.luks@[k].0.id));
    }
    assert forall|k: u64| #[trigger] q.lvs@.contains_key(k) implies w1.dev_alive(k) by {
        assert(w0.dev_alive(k));
    }
    assert forall|k: u64|
        #[trigger] q.parents@.contains_key(k) implies w1.dev_alive(k) && w1.dev_alive(
        q.parents@[k].id) by {
        assert(w0.dev_alive(k));
        assert(w0.dev_alive(q.parents@[k].id));
    }
    assert forall|k: u64| #[trigger] q.partitions@.contains_key(k) implies w1.dev_alive(k) by {
        assert(w0.dev_alive(k));
    }
    assert forall|k: u64| #[trigger] q.pv_parents@.contains_key(k) implies w1.dev_alive(k) by {
        assert(w0.dev_alive(k));
    }
    assert forall|k: u64| #[trigger] q.pvs@.contains_key(k) implies w1.dev_alive(k) by {
        assert(w0.dev_alive(k));
    }
    assert forall|k: u64| #[trigger] q.vg_parents@.contains_key(k) implies w1.dev_alive(k) by {
        assert(w0.dev_alive(k));
    }
    assert forall|k: u64| #[trigger] q.resize@.contains_key(k) implies w1.dev_alive(k) by {
        assert(w0.dev_alive(k));
    }
    assert forall|k: u64| #[trigger] q.tables@.contains_key(k) implies w1.dev_alive(k) by {
        assert(w0.dev_alive(k));
    }
    assert forall|k: u64|
        #[trigger] c.children@.contains_key(k) && w1.dev_alive(k) && w1.dev_flags(
            k,
        ).create implies c.devices@.contains_key(k) by {
        assert(w0.dev_alive(k));
    }
    assert forall|k: u64|
        #[trigger] c.disks@.contains_key(k) && w1.dev_alive(k) && w1.dev_flags(
            k,
        ).create implies c.devices@.contains_key(k) by {
        assert(w0.dev_alive(k));
    }
    assert forall|k: u64|
        #[trigger] c.device_maps@.contains_key(k) && w1.dev_alive(k) && w1.dev_flags(
            k,
        ).create implies c.devices@.contains_key(k) by {
        assert(w0.dev_alive(k));
    }
    assert forall|k: u64|
        #[trigger] c.loopbacks@.contains_key(k) && w1.dev_alive(k) && w1.dev_flags(
            k,
        ).create implies c.devices@.contains_key(k) by {
        assert(w0.dev_alive(k));
    }
    assert forall|k: u64|
        #[trigger] c.luks@.contains_key(k) && w1.dev_alive(k) && w1.dev_flags(
            k,
        ).create implies c.devices@.contains_key(k) by {
        assert(w0.dev_alive(k));
    }
    assert forall|k: u64|
        #[trigger] c.lvs@.contains_key(k) && w1.dev_alive(k) && w1.dev_flags(
            k,
        ).create implies c.devices@.contains_key(k) by {
        assert(w0.dev_alive(k));
    }
    assert forall|k: u64|
        #[trigger] c.partitions@.contains_key(k) && w1.dev_alive(k) && w1.dev_flags(
            k,
        ).create implies c.devices@.contains_key(k) by {
        assert(w0.dev_alive(k));
    }
    assert forall|k: u64|
        #[trigger] c.pvs@.contains_key(k) && w1.dev_alive(k) && w1.dev_flags(
            k,
        ).create implies c.devices@.contains_key(k) by {
        assert(w0.dev_alive(k));
    }
    assert forall|k: u64|
        #[trigger] c.tables@.contains_key(k) && w1.dev_alive(k) && w1.dev_flags(
            k,
        ).create implies c.devices@.contains_key(k) by {
        assert(w0.dev_alive(k));
    }
    assert forall|p: u64, i: int|
        c.children@.contains_key(p) && 0 <= i < c.children@[p]@.len() && w1.dev_flags(
            (#[trigger] c.children@[p]@[i]).id,
        ).create implies c.devices@.contains_key(c.children@[p]@[i].id) by {
        assert(w0.dev_alive(c.children@[p]@[i].id));
    }
    assert forall|p: u64, i: int|
        w1.components.vgs.children@.contains_key(p) && 0 <= i
            < w1.components.vgs.children@[p]@.len() && w1.dev_flags(
            (#[trigger] w1.components.vgs.children@[p]@[i]).id,
        ).create implies c.devices@.contains_key(w1.components.vgs.children@[p]@[i].id) by {
        assert(w0.dev_alive(w1.components.vgs.children@[p]@[i].id));
    }
}

/// Registering one fresh volume-group entity keeps the whole invariant,
/// for the same reason.
pub proof fn lemma_wf_new_vg(w0: DiskManager, w1: DiskManager)
    requires
        w0.wf(),
        w1.components == w0.components,
        w1.entities.devices == w0.entities.devices,
        w1.entities.next_device == w0.entities.next_device,
        w1.entities.wf(),
        forall|k: u64|
            #[trigger] w0.vg_alive(k) ==> w1.vg_alive(k) && w1.entities.vgs@[k]
                == w0.entities.vgs@[k],
        forall|k: u64|
            #[trigger] w1.vg_alive(k) ==> w0.vg_alive(k) || (k >= w0.entities.next_vg
                && w1.entities.vgs@[k].create == false),
    ensures
        w1.wf(),
{
    let c = w1.components.devices;
    assert forall|k: u64|
        #[trigger] w1.components.vgs.children@.contains_key(k) implies w1.vg_alive(k) by {
        assert(w0.vg_alive(k));
    }
    assert forall|k: u64|
        #[trigger] w1.components.vgs.volume_groups@.contains_key(k) implies w1.vg_alive(k) by {
        assert(w0.vg_alive(k));
    }
    assert forall|k: u64| #[trigger] c.lvs@.contains_key(k) implies w1.vg_alive(c.lvs@[k].1.id) by {
        assert(w0.vg_alive(c.lvs@[k].1.id));
    }
    assert forall|k: u64|
        c.pvs@.contains_key(k) && (#[trigger] c.pvs@[k]).1 is Some implies w1.vg_alive(
        c.pvs@[k].1->Some_0.id) by {
        assert(w0.vg_alive(c.pvs@[k].1->Some_0.id));
    }
    let q = w1.components.queued_changes;
    assert forall|k: u64| #[trigger] q.volume_groups@.contains_key(k) implies w1.vg_alive(k) by {
        assert(w0.vg_alive(k));
    }
    assert forall|k: u64|
        #[trigger] q.lvs@.contains_key(k) implies w1.vg_alive(q.lvs@[k].1.id) by {
        assert(w0.vg_alive(q.lvs@[k].1.id));
    }
    assert forall|k: u64|
        #[trigger] q.pv_parents@.contains_key(k) implies w1.vg_alive(q.pv_parents@[k].id) by {
        assert(w0.vg_alive(q.pv_parents@[k].id));
    }
    assert forall|k: u64|
        #[trigger] q.vg_parents@.contains_key(k) implies w1.vg_alive(q.vg_parents@[k].id) by {
        assert(w0.vg_alive(q.vg_parents@[k].id));
    }
    assert forall|k: u64|
        #[trigger] q.pvs@.contains_key(k) && q.pvs@[k].1 is Some implies w1.vg_alive(
        q.pvs@[k].1->Some_0.id) by {
        assert(w0.vg_alive(q.pvs@[k].1->Some_0.id));
    }
    assert forall|k: u64|
        #[trigger] w1.components.vgs.children@.contains_key(k) && w1.vg_alive(k)
            && w1.entities.vgs@[k].create implies w1.components.vgs.volume_groups@.contains_key(
        k) by {
        assert(w0.vg_alive(k));
    }
    assert forall|k: u64|
        c.lvs@.contains_key(k) && w1.entities.vgs@[(#[trigger] c.lvs@[k]).1.id].create implies w1
        .components.vgs.volume_groups@.contains_key(c.lvs@[k].1.id) by {
        assert(w0.vg_alive(c.lvs@[k].1.id));
    }
    assert forall|k: u64|
        c.pvs@.contains_key(k) && (#[trigger] c.pvs@[k]).1 is Some
            && w1.entities.vgs@[c.pvs@[k].1->Some_0.id].create implies w1
        .components.vgs.volume_groups@.contains_key(c.pvs@[k].1->Some_0.id) by {
        assert(w0.vg_alive(c.pvs@[k].1->Some_0.id));
    }
}

/// Whether `list` holds `entity`.
pub fn contains_entity(list: &Vec<DeviceEntity>, entity: DeviceEntity) -> (r: bool)
    ensures
        r == list@.contains(entity),
{
    let n = list.len();
    let mut i: usize = 0;
    while i < n
        invariant
            n == list@.len(),
            i <= n,
            forall|j: int| 0 <= j < i ==> list@[j] != entity,
        decreases n - i,
    {
        if list[i] == entity {
            return true;
        }
        i = i + 1;
    }
    false
}

} // verus!
