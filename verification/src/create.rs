//! Staging the creation of partitions, tables, logical volumes and volume
//! groups, with the validation that guards them.

use vstd::prelude::*;
use crate::device::Device;
use crate::entity::{DeviceEntity, VgEntity};
use crate::flags::{EntityFlags, ManagerFlags};
use crate::fs::FileSystem;
use crate::luks::LuksParams;
use crate::lvm::{LvmLv, LvmPv, LvmVg};
use crate::partitions::{Partition, PartitionTable, PartitionType};
use crate::sector::Sector;
use crate::world::DiskManager;

verus! {

/// An error that may occur when staging creation operations.
#[derive(Clone, Copy, Debug, Eq, PartialEq, Structural)]
pub enum Error {
    /// The new partition exceeds the size of the parent device.
    ExceedsDevice,
    /// A supplied device entity was expected to be an LVM PV.
    ExpectedLvmPv,
    /// The new partition overlaps an existing partition.
    PartitionOverlap,
    /// The end sector lies before the start sector.
    InputsInverted,
    /// The parent device is not partitionable.
    NotPartitionable,
    /// A table cannot be created on the device.
    TablesUnsupported,
}

/// Defines whether to create a plain partition, or a LUKS-encrypted one.
pub enum PartitionCreate {
    /// Create a simple, plain file system on the partition.
    Plain(FileSystem),
    /// Create a LUKS device, with an optional passphrase.
    Luks(LuksParams),
}

impl PartitionCreate {
    /// The file system that the staged partition will record.
    pub open spec fn filesystem(&self) -> FileSystem {
        match self {
            PartitionCreate::Plain(fs) => *fs,
            PartitionCreate::Luks(_) => FileSystem::Luks,
        }
    }
}

/// Whether the entity has a device record to resolve sectors against,
/// staged or committed.
pub open spec fn has_eff_device(w: DiskManager, k: u64) -> bool {
    w.components.queued_changes.devices@.contains_key(k)
        || w.components.devices.devices@.contains_key(k)
}

/// The device record of an entity, staged if present, committed otherwise.
pub open spec fn eff_device(w: DiskManager, k: u64) -> Device {
    if w.components.queued_changes.devices@.contains_key(k) {
        w.components.queued_changes.devices@[k]
    } else {
        w.components.devices.devices@[k]
    }
}

/// Two half-open sector ranges that do not intersect.
pub open spec fn ranges_disjoint(o1: u64, s1: u64, o2: u64, s2: u64) -> bool {
    o1 + s1 <= o2 || o2 + s2 <= o1
}

/// A committed, not-for-removal child of `p` whose range intersects
/// `[off, end)`.
pub open spec fn committed_conflict(w: DiskManager, p: u64, off: u64, end: u64) -> bool {
    exists|i: int|
        #![trigger w.components.devices.children@[p]@[i]]
        {
            let ch = w.components.devices.children@;
            &&& ch.contains_key(p)
            &&& 0 <= i < ch[p]@.len()
            &&& {
                let c = ch[p]@[i].id;
                &&& w.dev_alive(c)
                &&& !w.dev_flags(c).remove
                &&& w.components.devices.partitions@.contains_key(c)
                &&& w.components.devices.devices@.contains_key(c)
                &&& !(end <= w.components.devices.partitions@[c].offset
                    || w.components.devices.partitions@[c].offset
                        + w.components.devices.devices@[c].sectors <= off)
            }
        }
}

/// A staged child of `p` whose range intersects `[off, end)`.
pub open spec fn queued_conflict(w: DiskManager, p: u64, off: u64, end: u64) -> bool {
    exists|c: u64|
        #![trigger w.components.queued_changes.parents@.contains_key(c)]
        {
            let q = w.components.queued_changes;
            &&& q.parents@.contains_key(c)
            &&& q.parents@[c].id == p
            &&& q.partitions@.contains_key(c)
            &&& q.devices@.contains_key(c)
            &&& !(end <= q.partitions@[c].offset || q.partitions@[c].offset
                + q.devices@[c].sectors <= off)
        }
}

/// Whether `p` may hold partitions at all: it has a children component,
/// or a partition table, committed or staged.
pub open spec fn partitionable(w: DiskManager, p: u64) -> bool {
    ||| w.components.devices.children@.contains_key(p)
    ||| w.components.devices.tables@.contains_key(p)
    ||| w.components.queued_changes.tables@.contains_key(p)
}

/// What the validator decides for a partition of `[start, end)` on `p`:
/// the absolute offset and length on success, and the exact error
/// otherwise. The end resolving at the device's last sector is allowed;
/// one past it is not. An empty range is inverted. A range that merely
/// touches a neighbour is allowed; one that shares a sector is not.
pub open spec fn spec_validate(w: DiskManager, p: u64, start: Sector, end: Sector) -> Result<
    (u64, u64),
    Error,
> {
    let d = eff_device(w, p);
    let off = d.spec_get_sector(start);
    let e = d.spec_get_sector(end);
    if !partitionable(w, p) {
        Err(Error::NotPartitionable)
    } else if off >= e {
        Err(Error::InputsInverted)
    } else if e > d.sectors {
        Err(Error::ExceedsDevice)
    } else if committed_conflict(w, p, off, e) || queued_conflict(w, p, off, e) {
        Err(Error::PartitionOverlap)
    } else {
        Ok((off, (e - off) as u64))
    }
}

impl DiskManager {
    /// Checks whether a partition spanning the given symbolic sectors can
    /// be created on this device, and where it would lie.
    pub fn can_create_on_device(
        &self,
        parent: DeviceEntity,
        start: Sector,
        end: Sector,
    ) -> (r: Result<(u64, u64), Error>)
        requires
            self.wf(),
            self.dev_alive(parent.id),
            has_eff_device(*self, parent.id),
        ensures
            r == spec_validate(*self, parent.id, start, end),
    {
        let d: &Device = match self.components.queued_changes.devices.get(parent.id) {
            Some(d) => d,
            None => self.components.devices.devices.get(parent.id).unwrap(),
        };
        proof {
            assert(*d == eff_device(*self, parent.id));
            assert(d.wf());
        }
        let offset = d.get_sector(start);
        let e = d.get_sector(end);

        if !(self.components.devices.children.contains_key(parent.id)
            || self.components.devices.tables.contains_key(parent.id)
            || self.components.queued_changes.tables.contains_key(parent.id)) {
            return Err(Error::NotPartitionable);
        }
        if offset >= e {
            return Err(Error::InputsInverted);
        }
        if e > d.sectors {
            return Err(Error::ExceedsDevice);
        }

        // No overlap with any committed child that is not marked for
        // removal.
        if let Some(ch) = self.components.devices.children.get(parent.id) {
            let n = ch.len();
            let mut i: usize = 0;
            while i < n
                invariant
                    self.wf(),
                    partitionable(*self, parent.id),
                    offset == eff_device(*self, parent.id).spec_get_sector(start),
                    e == eff_device(*self, parent.id).spec_get_sector(end),
                    offset < e,
                    e <= eff_device(*self, parent.id).sectors,
                    self.components.devices.children@.contains_key(parent.id),
                    *ch == self.components.devices.children@[parent.id],
                    n == ch@.len(),
                    i <= n,
                    forall|j: int|
                        0 <= j < i ==> !{
                            let c = (#[trigger] ch@[j]).id;
                            &&& self.dev_alive(c)
                            &&& !self.dev_flags(c).remove
                            &&& self.components.devices.partitions@.contains_key(c)
                            &&& self.components.devices.devices@.contains_key(c)
                            &&& !(e <= self.components.devices.partitions@[c].offset
                                || self.components.devices.partitions@[c].offset
                                    + self.components.devices.devices@[c].sectors <= offset)
                        },
                decreases n - i,
            {
                let c = ch[i];
                let flags = *self.entities.devices.get(c.id).unwrap();
                if !flags.remove {
                    if let Some(part) = self.components.devices.partitions.get(c.id) {
                        if let Some(cdev) = self.components.devices.devices.get(c.id) {
                            proof {
                                assert(cdev.wf());
                            }
                            if !(e <= part.offset || (part.offset as u128) + (cdev.sectors
                                as u128) <= (offset as u128)) {
                                proof {
                                    assert(self.components.devices.children@[parent.id]@[i as int]
                                        == c);
                                    assert(committed_conflict(*self, parent.id, offset, e));
                                    assert(partitionable(*self, parent.id));
                                    assert(spec_validate(*self, parent.id, start, end)
                                        == Err::<(u64, u64), Error>(Error::PartitionOverlap));
                                }
                                return Err(Error::PartitionOverlap);
                            }
                        }
                    }
                }
                i = i + 1;
            }
            proof {
                assert(!committed_conflict(*self, parent.id, offset, e));
            }
        } else {
            proof {
                assert(!committed_conflict(*self, parent.id, offset, e));
            }
        }

        // No overlap with any staged sibling.
        let q = &self.components.queued_changes;
        let np = q.parents.len();
        let mut i: usize = 0;
        while i < np
            invariant
                self.wf(),
                partitionable(*self, parent.id),
                offset == eff_device(*self, parent.id).spec_get_sector(start),
                e == eff_device(*self, parent.id).spec_get_sector(end),
                offset < e,
                e <= eff_device(*self, parent.id).sectors,
                !committed_conflict(*self, parent.id, offset, e),
                *q == self.components.queued_changes,
                np == q.parents.keys_seq().len(),
                i <= np,
                forall|j: int|
                    0 <= j < i ==> !{
                        let c = #[trigger] q.parents.keys_seq()[j];
                        &&& q.parents@[c].id == parent.id
                        &&& q.partitions@.contains_key(c)
                        &&& q.devices@.contains_key(c)
                        &&& !(e <= q.partitions@[c].offset || q.partitions@[c].offset
                            + q.devices@[c].sectors <= offset)
                    },
            decreases np - i,
        {
            let c = q.parents.key_at(i);
            let cparent = *q.parents.val_at(i);
            if cparent.id == parent.id {
                if let Some(part) = q.partitions.get(c) {
                    if let Some(cdev) = q.devices.get(c) {
                        proof {
                            assert(cdev.wf());
                        }
                        if !(e <= part.offset || (part.offset as u128) + (cdev.sectors as u128)
                            <= (offset as u128)) {
                            proof {
                                assert(q.parents@.contains_key(c));
                                assert(queued_conflict(*self, parent.id, offset, e));
                                assert(partitionable(*self, parent.id));
                                assert(spec_validate(*self, parent.id, start, end)
                                    == Err::<(u64, u64), Error>(Error::PartitionOverlap));
                            }
                            return Err(Error::PartitionOverlap);
                        }
                    }
                }
            }
            i = i + 1;
        }
        proof {
            assert(!queued_conflict(*self, parent.id, offset, e)) by {
                if queued_conflict(*self, parent.id, offset, e) {
                    let c = choose|c: u64|
                        #![trigger self.components.queued_changes.parents@.contains_key(c)]
                        {
                            let qq = self.components.queued_changes;
                            &&& qq.parents@.contains_key(c)
                            &&& qq.parents@[c].id == parent.id
                            &&& qq.partitions@.contains_key(c)
                            &&& qq.devices@.contains_key(c)
                            &&& !(e <= qq.partitions@[c].offset || qq.partitions@[c].offset
                                + qq.devices@[c].sectors <= offset)
                        };
                    let j = choose|j: int|
                        0 <= j < q.parents.keys_seq().len() && q.parents.keys_seq()[j] == c;
                }
            }
        }
        Ok((offset, e - offset))
    }
}

/// What can go wrong around a loopback device: creating or sizing its
/// backing file, opening the control node, finding a free slot, attaching,
/// or probing the device that came up.
#[derive(Clone, Copy, Debug, Eq, PartialEq, Structural)]
pub enum LoopbackError {
    Attach,
    BlockProber,
    ControlOpen,
    FileCreate,
    FileSetLen,
    NextFree,
    ProbeNotFound,
}

impl DiskManager {
    /// Materializes a freshly attached loopback device: unlike staged
    /// creations it is committed at once, since the device already exists
    /// on the machine. The entity supports tables; its backing file and
    /// any file system the probe saw are recorded.
    pub fn loopback_insert(
        &mut self,
        backing: String,
        info: &crate::prober::ProbeInfo,
    ) -> (r: DeviceEntity)
        requires
            old(self).wf(),
            crate::scan::probe_wf(*info),
            old(self).entities.next_device < u64::MAX,
        ensures
            final(self).wf(),
            final(self).dev_alive(r.id),
            !old(self).dev_alive(r.id),
            final(self).dev_flags(r.id) == (EntityFlags {
                supports_table: true,
                ..EntityFlags::spec_empty()
            }),
            final(self).components.devices.devices@.contains_key(r.id),
            final(self).components.devices.devices@[r.id].sectors == info.sectors,
            final(self).components.devices.devices@[r.id].logical_sector_size
                == info.logical_sector_size,
            final(self).components.devices.devices@[r.id].name@ == info.device@,
            final(self).components.devices.devices@[r.id].path@ == info.path@,
            final(self).components.devices.loopbacks@.contains_key(r.id),
            final(self).components.devices.loopbacks@[r.id]@ == backing@,
            final(self).components.queued_changes == old(self).components.queued_changes,
            final(self).flags == old(self).flags,
            r.id == old(self).entities.next_device,
            final(self).entities.next_device as int == old(self).entities.next_device as int + 1,
            forall|k: u64|
                #[trigger] final(self).dev_alive(k) <==> old(self).dev_alive(k) || k == r.id,
    {
        let ghost w0 = *self;
        let entity = self.entities.insert_device(
            EntityFlags { supports_table: true, ..EntityFlags::empty() },
        );
        proof {
            crate::world::lemma_wf_new_device(w0, *self);
        }
        self.components.devices.loopbacks.insert(entity.id, backing);
        self.components.devices.devices.insert(
            entity.id,
            Device {
                name: info.device.clone(),
                path: info.path.clone(),
                sectors: info.sectors,
                logical_sector_size: info.logical_sector_size,
                physical_sector_size: info.physical_sector_size,
            },
        );
        if let Some(fstype) = &info.fstype {
            let parsed = match FileSystem::from_str(fstype.as_str()) {
                Ok(fs) => Some(fs),
                Err(()) => None,
            };
            self.components.devices.partitions.insert(
                entity.id,
                Partition {
                    offset: 0,
                    number: 0,
                    filesystem: parsed,
                    partuuid: None,
                    partlabel: None,
                    mbr_variant: PartitionType::Primary,
                    uuid: crate::lvmbus::clone_opt(&info.uuid),
                },
            );
        }
        proof {
            assert(self.wf());
        }
        entity
    }
}

/// The usable byte size of an LVM PV carved from a region: the 1 MiB
/// header is set aside and the rest is rounded down to a whole number of
/// 4 MiB extents.
pub open spec fn spec_lvm_pv_size(lss: u64, sectors: u64) -> u64 {
    let bytes = lss * sectors;
    if bytes < 1048576 {
        0u64
    } else {
        (((bytes - 1048576) / 4194304) * 4194304) as u64
    }
}

impl DiskManager {
    /// Stages a new partition on a partitionable device. On success the
    /// new entity is registered, marked for creation, and its device,
    /// partition, and parent link are staged; on failure nothing changes.
    pub fn create_as_child_of(
        &mut self,
        parent: DeviceEntity,
        start: Sector,
        end: Sector,
        label: String,
        what: PartitionCreate,
    ) -> (r: Result<DeviceEntity, Error>)
        requires
            old(self).wf(),
            old(self).dev_alive(parent.id),
            has_eff_device(*old(self), parent.id),
            old(self).components.devices.devices@.contains_key(parent.id) || old(self).dev_flags(
                parent.id,
            ).create,
            old(self).entities.next_device + 2 <= u64::MAX,
        ensures
            final(self).wf(),
            r is Ok <==> spec_validate(*old(self), parent.id, start, end) is Ok,
            r matches Err(err) ==> *final(self) == *old(self) && spec_validate(
                *old(self),
                parent.id,
                start,
                end,
            ) == Err::<(u64, u64), Error>(err),
            r matches Ok(e) ==> {
                let off = spec_validate(*old(self), parent.id, start, end)->Ok_0.0;
                let len = spec_validate(*old(self), parent.id, start, end)->Ok_0.1;
                let d = eff_device(*old(self), parent.id);
                let w0 = *old(self);
                let w1 = *final(self);
                let q0 = w0.components.queued_changes;
                let q1 = w1.components.queued_changes;
                &&& e.id == w0.entities.next_device
                &&& !w0.dev_alive(e.id)
                &&& w1.dev_alive(e.id)
                &&& w1.dev_flags(e.id) == (EntityFlags {
                    create: true,
                    ..EntityFlags::spec_empty()
                })
                &&& w1.dev_flags(parent.id) == (EntityFlags {
                    create: true,
                    create_children: true,
                    ..w0.dev_flags(parent.id)
                })
                &&& forall|k: u64|
                    w0.dev_alive(k) && k != parent.id ==> #[trigger] w1.dev_flags(k)
                        == w0.dev_flags(k)
                &&& forall|k: u64| w1.dev_alive(k) <==> w0.dev_alive(k) || k == e.id || (
                    what matches PartitionCreate::Luks(_) && k == e.id + 1)
                &&& (what matches PartitionCreate::Luks(_) ==> w1.entities.next_device as int
                    == w0.entities.next_device as int + 2)
                &&& (what matches PartitionCreate::Plain(_) ==> w1.entities.next_device as int
                    == w0.entities.next_device as int + 1)
                &&& q1.devices@ == q0.devices@.insert(
                    e.id,
                    Device {
                        name: q1.devices@[e.id].name,
                        path: q1.devices@[e.id].path,
                        sectors: len,
                        logical_sector_size: d.logical_sector_size,
                        physical_sector_size: d.physical_sector_size,
                    },
                )
                &&& q1.devices@[e.id].name@ == Seq::<char>::empty()
                &&& q1.devices@[e.id].path@ == Seq::<char>::empty()
                &&& q1.partitions@ == q0.partitions@.insert(
                    e.id,
                    Partition {
                        offset: off,
                        number: 0,
                        filesystem: Some(what.filesystem()),
                        partuuid: None,
                        partlabel: Some(q1.partitions@[e.id].partlabel->Some_0),
                        mbr_variant: PartitionType::Primary,
                        uuid: None,
                    },
                )
                &&& q1.partitions@[e.id].partlabel->Some_0@ == label@
                &&& q1.parents@ == q0.parents@.insert(e.id, parent)
                &&& (what matches PartitionCreate::Luks(params) ==> {
                    &&& q1.luks@ == q0.luks@.insert(e.id, (DeviceEntity { id: (e.id + 1) as u64 }, params))
                    &&& w1.dev_flags((e.id + 1) as u64) == (EntityFlags {
                        create: true,
                        luks_child: true,
                        ..EntityFlags::spec_empty()
                    })
                })
                &&& (what matches PartitionCreate::Plain(_) ==> q1.luks@ == q0.luks@)
                &&& (what matches PartitionCreate::Plain(fs) && fs == FileSystem::Lvm ==> {
                    &&& q1.pvs@.contains_key(e.id)
                    &&& q1.pvs@[e.id].0.path@ == d.path@
                    &&& q1.pvs@[e.id].0.size_bytes == spec_lvm_pv_size(
                        d.logical_sector_size,
                        len,
                    )
                    &&& q1.pvs@[e.id].1 is None
                    &&& q1.pvs@ == q0.pvs@.insert(e.id, q1.pvs@[e.id])
                })
                &&& (!(what matches PartitionCreate::Plain(fs) && fs == FileSystem::Lvm)
                    ==> q1.pvs@ == q0.pvs@)
                &&& q1.formats == q0.formats
                &&& q1.labels == q0.labels
                &&& q1.tables == q0.tables
                &&& q1.lvs == q0.lvs
                &&& q1.vg_parents == q0.vg_parents
                &&& q1.pv_parents == q0.pv_parents
                &&& q1.volume_groups == q0.volume_groups
                &&& q1.resize == q0.resize
                &&& q1.device_maps == q0.device_maps
                &&& w1.components.devices == w0.components.devices
                &&& w1.components.vgs == w0.components.vgs
                &&& w1.entities.vgs == w0.entities.vgs
                &&& w1.flags == (ManagerFlags { create: true, ..w0.flags })
            },
    {
        let ghost w0 = *self;
        let (offset, length, lss, pss, ppath) = {
            let d: &Device = match self.components.queued_changes.devices.get(parent.id) {
                Some(d) => d,
                None => self.components.devices.devices.get(parent.id).unwrap(),
            };
            proof {
                assert(*d == eff_device(*self, parent.id));
                assert(d.wf());
            }
            let sectors = match self.can_create_on_device(parent, start, end) {
                Ok(s) => s,
                Err(err) => {
                    return Err(err);
                },
            };
            (sectors.0, sectors.1, d.logical_sector_size, d.physical_sector_size, d.path.clone())
        };

        // Register a new device entity for the staged partition.
        let entity = self.entities.insert_device(
            EntityFlags { create: true, ..EntityFlags::empty() },
        );

        let mut partition = Partition::at_offset(offset);
        partition.partlabel = Some(label);

        match what {
            PartitionCreate::Plain(filesystem) => {
                if let FileSystem::Lvm = filesystem {
                    // The region becomes an LVM PV once formatted: set
                    // aside the header and whole extents.
                    proof {
                        lemma_mul_le(length as int, eff_device(w0, parent.id).sectors as int, lss as int);
                    }
                    let size_bytes: u64 = lss * length;
                    let adjusted: u64 = if size_bytes < 1048576 {
                        0
                    } else {
                        ((size_bytes - 1048576) / 4194304) * 4194304
                    };
                    let pv = LvmPv { path: ppath, uuid: String::new(), size_bytes: adjusted };
                    self.components.queued_changes.pvs.insert(entity.id, (pv, None));
                }
                partition.filesystem = Some(filesystem);
            },
            PartitionCreate::Luks(luks) => {
                partition.filesystem = Some(FileSystem::Luks);
                let child = self.entities.insert_device(
                    EntityFlags { create: true, luks_child: true, ..EntityFlags::empty() },
                );
                self.components.queued_changes.luks.insert(entity.id, (child, luks));
            },
        }

        self.components.queued_changes.devices.insert(
            entity.id,
            Device {
                name: String::new(),
                path: String::new(),
                sectors: length,
                logical_sector_size: lss,
                physical_sector_size: pss,
            },
        );
        self.components.queued_changes.partitions.insert(entity.id, partition);
        self.components.queued_changes.parents.insert(entity.id, parent);

        let pflags = *self.entities.devices.get(parent.id).unwrap();
        self.entities.devices.insert(
            parent.id,
            EntityFlags { create: true, create_children: true, ..pflags },
        );
        self.flags = ManagerFlags { create: true, ..self.flags };
        proof {
            let d0 = eff_device(w0, parent.id);
            assert(d0.wf());
            lemma_mul_le(length as int, d0.sectors as int, d0.logical_sector_size as int);
            assert forall|k: u64|
                #[trigger] self.components.queued_changes.devices@.contains_key(k) implies (
            self.components.queued_changes.devices@[k]).wf() by {
                if k != entity.id {
                    assert(w0.components.queued_changes.devices@.contains_key(k));
                }
            }
            crate::world::lemma_wf_committed_frame(w0, *self);
        }
        Ok(entity)
    }
}

/// The PV record of an entity, staged or committed, if it has one.
pub open spec fn eff_pv(w: DiskManager, k: u64) -> Option<LvmPv> {
    if w.components.devices.pvs@.contains_key(k) {
        Some(w.components.devices.pvs@[k].0)
    } else if w.components.queued_changes.pvs@.contains_key(k) {
        Some(w.components.queued_changes.pvs@[k].0)
    } else {
        None
    }
}

/// The extents that the listed members contribute to a new volume group,
/// at 4 MiB per extent.
pub open spec fn spec_extent_sum(w: DiskManager, members: Seq<DeviceEntity>) -> int
    decreases members.len(),
{
    if members.len() == 0 {
        0
    } else {
        spec_extent_sum(w, members.drop_last()) + (match eff_pv(w, members.last().id) {
            Some(pv) => pv.size_bytes as int / 4194304,
            None => 0,
        })
    }
}

impl DiskManager {
    /// Stages a file system to be created directly on an existing device,
    /// without a partition table; a partition record covering the device
    /// is staged, reusing its committed offset if it already had one.
    #[verifier::rlimit(40)]
    pub fn create_on(&mut self, device: DeviceEntity, what: PartitionCreate) -> (r: Result<
        (),
        Error,
    >)
        requires
            old(self).wf(),
            old(self).dev_alive(device.id),
            old(self).components.devices.devices@.contains_key(device.id),
            old(self).entities.next_device < u64::MAX,
        ensures
            final(self).wf(),
            r is Ok,
            ({
                let w0 = *old(self);
                let w1 = *final(self);
                let q0 = w0.components.queued_changes;
                let q1 = w1.components.queued_changes;
                let d = w0.components.devices.devices@[device.id];
                let off = if w0.components.devices.partitions@.contains_key(device.id) {
                    w0.components.devices.partitions@[device.id].offset
                } else {
                    0u64
                };
                &&& w1.dev_flags(device.id) == (EntityFlags {
                    create: true,
                    ..w0.dev_flags(device.id)
                })
                &&& forall|k: u64|
                    w0.dev_alive(k) && k != device.id ==> #[trigger] w1.dev_flags(k)
                        == w0.dev_flags(k)
                &&& forall|k: u64| w1.dev_alive(k) <==> w0.dev_alive(k) || (
                    what matches PartitionCreate::Luks(_) && k == w0.entities.next_device)
                &&& (what matches PartitionCreate::Luks(_) ==> w1.entities.next_device as int
                    == w0.entities.next_device as int + 1)
                &&& (what matches PartitionCreate::Plain(_) ==> w1.entities.next_device
                    == w0.entities.next_device)
                &&& q1.devices@.contains_key(device.id)
                &&& q1.devices@[device.id].sectors == d.sectors
                &&& q1.devices@[device.id].logical_sector_size == d.logical_sector_size
                &&& q1.partitions@.contains_key(device.id)
                &&& q1.partitions@[device.id].offset == off
                &&& q1.partitions@[device.id].filesystem == Some(what.filesystem())
                &&& q1.partitions@[device.id].partlabel is None
                &&& q1.parents == q0.parents
                &&& w1.components.devices == w0.components.devices
                &&& w1.components.vgs == w0.components.vgs
                &&& w1.entities.vgs == w0.entities.vgs
                &&& w1.flags == (ManagerFlags { create: true, ..w0.flags })
            }),
    {
        let ghost w0 = *self;
        let (sectors, lss, pss, dpath) = {
            let d = self.components.devices.devices.get(device.id).unwrap();
            proof {
                assert(d.wf());
            }
            (d.sectors, d.logical_sector_size, d.physical_sector_size, d.path.clone())
        };
        let offset = match self.components.devices.partitions.get(device.id) {
            Some(p) => p.offset,
            None => 0,
        };

        let mut partition = Partition::at_offset(offset);
        match what {
            PartitionCreate::Plain(filesystem) => {
                if let FileSystem::Lvm = filesystem {
                    proof {
                        assert(w0.components.devices.devices@[device.id].wf());
                    }
                    let size_bytes: u64 = sectors * lss;
                    let adjusted: u64 = if size_bytes < 1048576 {
                        0
                    } else {
                        ((size_bytes - 1048576) / 4194304) * 4194304
                    };
                    let pv = LvmPv { path: dpath, uuid: String::new(), size_bytes: adjusted };
                    self.components.queued_changes.pvs.insert(device.id, (pv, None));
                }
                partition.filesystem = Some(filesystem);
            },
            PartitionCreate::Luks(luks) => {
                partition.filesystem = Some(FileSystem::Luks);
                let child = self.entities.insert_device(
                    EntityFlags { create: true, luks_child: true, ..EntityFlags::empty() },
                );
                self.components.queued_changes.luks.insert(device.id, (child, luks));
            },
        }

        self.components.queued_changes.devices.insert(
            device.id,
            Device {
                name: String::new(),
                path: String::new(),
                sectors,
                logical_sector_size: lss,
                physical_sector_size: pss,
            },
        );
        self.components.queued_changes.partitions.insert(device.id, partition);

        let dflags = *self.entities.devices.get(device.id).unwrap();
        self.entities.devices.insert(device.id, EntityFlags { create: true, ..dflags });
        self.flags = ManagerFlags { create: true, ..self.flags };
        proof {
            assert forall|k: u64|
                #[trigger] self.components.queued_changes.devices@.contains_key(k) implies (
            self.components.queued_changes.devices@[k]).wf() by {
                if k != device.id {
                    assert(w0.components.queued_changes.devices@.contains_key(k));
                }
            }
            crate::world::lemma_wf_committed_frame(w0, *self);
        }
        Ok(())
    }

    /// Defines that a new partition table will be written to this device.
    /// The device must support tables; it is marked for creation, its
    /// current content is marked for removal, children included.
    pub fn create_table(&mut self, entity: DeviceEntity, kind: PartitionTable) -> (r: Result<
        (),
        Error,
    >)
        requires
            old(self).wf(),
            old(self).dev_alive(entity.id),
            old(self).dev_flags(entity.id).supports_table ==> old(
                self,
            ).components.devices.devices@.contains_key(entity.id),
        ensures
            final(self).wf(),
            r matches Err(err) ==> err == Error::TablesUnsupported && !old(self).dev_flags(
                entity.id,
            ).supports_table && *final(self) == *old(self),
            r is Ok ==> old(self).dev_flags(entity.id).supports_table,
            r is Ok ==> {
                let w0 = *old(self);
                let w1 = *final(self);
                &&& w1.components.queued_changes.tables@
                    == w0.components.queued_changes.tables@.insert(entity.id, kind)
                &&& w1.components.queued_changes.devices == w0.components.queued_changes.devices
                &&& w1.components.queued_changes.partitions
                    == w0.components.queued_changes.partitions
                &&& w1.components.queued_changes.parents == w0.components.queued_changes.parents
                &&& w1.components.devices == w0.components.devices
                &&& w1.components.vgs == w0.components.vgs
                &&& w1.entities.vgs == w0.entities.vgs
                &&& (forall|k: u64| w1.dev_alive(k) <==> w0.dev_alive(k))
                &&& (forall|k: u64|
                    w0.dev_alive(k) ==> w1.dev_flags(k) == (EntityFlags {
                        create: w0.dev_flags(k).create || k == entity.id,
                        remove: w0.dev_flags(k).remove || crate::modify::spec_descendants(
                            w0,
                            entity,
                        ).contains(k),
                        ..w0.dev_flags(k)
                    }))
                &&& w1.flags == (ManagerFlags { create: true, remove: true, ..w0.flags })
            },
    {
        let ghost w0 = *self;
        let flags = *self.entities.devices.get(entity.id).unwrap();
        if !flags.supports_table {
            return Err(Error::TablesUnsupported);
        }

        self.components.queued_changes.tables.insert(entity.id, kind);
        self.entities.devices.insert(entity.id, EntityFlags { create: true, ..flags });
        self.flags = ManagerFlags { create: true, ..self.flags };
        proof {
            crate::world::lemma_wf_committed_frame(w0, *self);
        }
        let ghost w_mid = *self;

        // Mark this device to be wiped, and its children freed.
        self.remove(entity);
        proof {
            assert(crate::modify::children_ids(w_mid) =~= crate::modify::children_ids(w0));
            assert(w_mid.entities.devices.keys_seq() == w0.entities.devices.keys_seq());
            assert(crate::modify::spec_descendants(w_mid, entity) == crate::modify::spec_descendants(
                w0,
                entity,
            ));
        }
        Ok(())
    }

    /// Defines that a new volume group is to be created from the listed
    /// PV members. Every member must be a PV, staged or committed; the
    /// group starts with every extent free.
    pub fn volume_group_create(&mut self, name: &str, with: &Vec<DeviceEntity>) -> (r: Result<
        (),
        Error,
    >)
        requires
            old(self).wf(),
            forall|i: int| 0 <= i < with@.len() ==> old(self).dev_alive((#[trigger] with@[i]).id),
            old(self).entities.next_vg < u64::MAX,
            spec_extent_sum(*old(self), with@) * 4194304 <= u64::MAX,
        ensures
            final(self).wf(),
            r matches Err(err) ==> {
                &&& err == Error::ExpectedLvmPv
                &&& exists|i: int|
                    0 <= i < with@.len() && eff_pv(*old(self), (#[trigger] with@[i]).id) is None
                &&& *final(self) == *old(self)
            },
            r is Ok ==> {
                let w0 = *old(self);
                let w1 = *final(self);
                let v = w0.entities.next_vg;
                &&& (forall|i: int|
                    0 <= i < with@.len() ==> eff_pv(w0, (#[trigger] with@[i]).id) is Some)
                &&& w1.vg_alive(v)
                &&& !w0.vg_alive(v)
                &&& w1.entities.vgs@[v] == (EntityFlags {
                    create: true,
                    ..EntityFlags::spec_empty()
                })
                &&& w1.components.queued_changes.volume_groups@.contains_key(v)
                &&& {
                    let vg = w1.components.queued_changes.volume_groups@[v];
                    &&& vg.name@ == name@
                    &&& vg.extent_size == 4194304
                    &&& vg.extents == spec_extent_sum(w0, with@)
                    &&& vg.extents_free == vg.extents
                }
                &&& (forall|i: int|
                    0 <= i < with@.len()
                        ==> w1.components.queued_changes.pv_parents@.contains_key(
                        (#[trigger] with@[i]).id,
                    ) && w1.components.queued_changes.pv_parents@[with@[i].id].id == v)
                &&& (forall|k: u64|
                    #[trigger] w1.components.queued_changes.pv_parents@.contains_key(k)
                        ==> w0.components.queued_changes.pv_parents@.contains_key(k) || exists|
                        i: int,
                    | 0 <= i < with@.len() && (#[trigger] with@[i]).id == k)
                &&& w1.components.devices == w0.components.devices
                &&& w1.components.vgs == w0.components.vgs
                &&& w1.entities.devices == w0.entities.devices
                &&& w1.flags == w0.flags
            },
    {
        let ghost w0 = *self;
        let n = with.len();
        let mut extents: u64 = 0;
        let mut i: usize = 0;
        while i < n
            invariant
                self.wf(),
                *self == w0,
                n == with@.len(),
                i <= n,
                forall|j: int| 0 <= j < with@.len() ==> self.dev_alive((#[trigger] with@[j]).id),
                spec_extent_sum(w0, with@) * 4194304 <= u64::MAX,
                extents == spec_extent_sum(w0, with@.subrange(0, i as int)),
                forall|j: int| 0 <= j < i ==> eff_pv(w0, (#[trigger] with@[j]).id) is Some,
            decreases n - i,
        {
            let entity = with[i];
            let size_bytes: u64 = match self.components.devices.pvs.get(entity.id) {
                Some(pv) => pv.0.size_bytes,
                None => {
                    match self.components.queued_changes.pvs.get(entity.id) {
                        Some(pv) => pv.0.size_bytes,
                        None => {
                            proof {
                                assert(eff_pv(w0, with@[i as int].id) is None);
                            }
                            return Err(Error::ExpectedLvmPv);
                        },
                    }
                },
            };
            proof {
                assert(with@.subrange(0, i as int + 1).drop_last() =~= with@.subrange(
                    0,
                    i as int,
                ));
                assert(with@.subrange(0, i as int + 1).last() == with@[i as int]);
                lemma_extent_sum_bound(w0, with@, i as int + 1);
            }
            extents = extents + size_bytes / 4194304;
            i = i + 1;
        }
        proof {
            assert(with@.subrange(0, n as int) =~= with@);
        }

        let vg_entity = self.entities.insert_vg(
            EntityFlags { create: true, ..EntityFlags::empty() },
        );

        let lvm_vg = LvmVg {
            name: String::from_str(name),
            extent_size: 4194304,
            extents,
            extents_free: extents,
        };
        proof {
            lemma_extent_sum_nonneg(w0, with@);
            assert(lvm_vg.wf()) by {
                assert(extents * 4194304 <= u64::MAX) by (nonlinear_arith)
                    requires
                        extents == spec_extent_sum(w0, with@),
                        spec_extent_sum(w0, with@) * 4194304 <= u64::MAX,
                ;
                assert(4194304 * extents == extents * 4194304) by (nonlinear_arith);
            }
        }
        self.components.queued_changes.volume_groups.insert(vg_entity.id, lvm_vg);

        let mut i: usize = 0;
        while i < n
            invariant
                n == with@.len(),
                i <= n,
                self.components.devices == w0.components.devices,
                self.components.vgs == w0.components.vgs,
                self.entities.devices == w0.entities.devices,
                self.entities.vgs.wf(),
                self.entities.next_vg == w0.entities.next_vg + 1,
                self.entities.wf(),
                self.flags == w0.flags,
                vg_entity.id == w0.entities.next_vg,
                self.vg_alive(vg_entity.id),
                self.entities.vgs@ == w0.entities.vgs@.insert(
                    vg_entity.id,
                    EntityFlags { create: true, ..EntityFlags::spec_empty() },
                ),
                forall|j: int| 0 <= j < with@.len() ==> self.dev_alive((#[trigger] with@[j]).id),
                self.components.queued_changes.wf(),
                self.components.queued_changes.volume_groups@
                    == w0.components.queued_changes.volume_groups@.insert(vg_entity.id, lvm_vg),
                self.components.queued_changes.devices == w0.components.queued_changes.devices,
                self.components.queued_changes.device_maps
                    == w0.components.queued_changes.device_maps,
                self.components.queued_changes.formats == w0.components.queued_changes.formats,
                self.components.queued_changes.labels == w0.components.queued_changes.labels,
                self.components.queued_changes.luks == w0.components.queued_changes.luks,
                self.components.queued_changes.lvs == w0.components.queued_changes.lvs,
                self.components.queued_changes.parents == w0.components.queued_changes.parents,
                self.components.queued_changes.partitions
                    == w0.components.queued_changes.partitions,
                self.components.queued_changes.pvs == w0.components.queued_changes.pvs,
                self.components.queued_changes.vg_parents
                    == w0.components.queued_changes.vg_parents,
                self.components.queued_changes.resize == w0.components.queued_changes.resize,
                self.components.queued_changes.tables == w0.components.queued_changes.tables,
                forall|j: int|
                    0 <= j < i ==> self.components.queued_changes.pv_parents@.contains_key(
                        (#[trigger] with@[j]).id,
                    ) && self.components.queued_changes.pv_parents@[with@[j].id].id
                        == vg_entity.id,
                forall|k: u64|
                    #[trigger] self.components.queued_changes.pv_parents@.contains_key(k)
                        ==> w0.components.queued_changes.pv_parents@.contains_key(k) || exists|
                        j: int,
                    | 0 <= j < with@.len() && (#[trigger] with@[j]).id == k,
                forall|k: u64|
                    #[trigger] self.components.queued_changes.pv_parents@.contains_key(k) ==> (
                    self.components.queued_changes.pv_parents@[k].id == vg_entity.id || (
                    w0.components.queued_changes.pv_parents@.contains_key(k)
                        && self.components.queued_changes.pv_parents@[k]
                        == w0.components.queued_changes.pv_parents@[k])),
            decreases n - i,
        {
            self.components.queued_changes.pv_parents.insert(with[i].id, vg_entity);
            i = i + 1;
        }

        proof {
            assert forall|k: u64|
                #[trigger] self.components.queued_changes.pv_parents@.contains_key(
                    k,
                ) implies self.dev_alive(k) by {
                if !w0.components.queued_changes.pv_parents@.contains_key(k) {
                    let j = choose|j: int|
                        0 <= j < with@.len() && (#[trigger] with@[j]).id == k;
                }
            }
            assert forall|k: u64|
                #[trigger] self.components.queued_changes.pv_parents@.contains_key(
                    k,
                ) implies self.vg_alive(self.components.queued_changes.pv_parents@[k].id) by {
                if self.components.queued_changes.pv_parents@[k].id != vg_entity.id {
                    assert(w0.vg_alive(w0.components.queued_changes.pv_parents@[k].id));
                }
            }
            crate::world::lemma_wf_committed_frame(w0, *self);
        }
        Ok(())
    }
}

/// The volume-group record of an entity, staged if present, committed
/// otherwise.
pub open spec fn eff_vg(w: DiskManager, k: u64) -> LvmVg {
    if w.components.queued_changes.volume_groups@.contains_key(k) {
        w.components.queued_changes.volume_groups@[k]
    } else {
        w.components.vgs.volume_groups@[k]
    }
}

pub open spec fn has_eff_vg(w: DiskManager, k: u64) -> bool {
    w.components.queued_changes.volume_groups@.contains_key(k)
        || w.components.vgs.volume_groups@.contains_key(k)
}

/// The 512-byte sectors that the staged logical volume `c` takes from
/// volume group `vg`; zero when `c` is no such volume.
pub open spec fn lv_len(w: DiskManager, vg: u64, c: u64) -> int {
    let q = w.components.queued_changes;
    if q.lvs@.contains_key(c) && q.lvs@[c].1.id == vg && q.devices@.contains_key(c) {
        q.devices@[c].logical_sector_size * q.devices@[c].sectors / 512
    } else {
        0
    }
}

/// The 512-byte sectors that the staged logical volumes under `keys` have
/// already claimed from volume group `vg`.
pub open spec fn spec_lv_sum(w: DiskManager, vg: u64, keys: Seq<u64>) -> int
    decreases keys.len(),
{
    if keys.len() == 0 {
        0
    } else {
        spec_lv_sum(w, vg, keys.drop_last()) + lv_len(w, vg, keys.last())
    }
}

/// What the volume-group validator decides for a logical volume of the
/// given symbolic length: the resolved length in 512-byte sectors, or
/// `ExceedsDevice` when the free extents, less what staged volumes have
/// claimed, cannot hold it.
pub open spec fn spec_validate_vg(w: DiskManager, vg_id: u64, length: Sector) -> Result<u64, Error> {
    let vg = eff_vg(w, vg_id);
    let len = vg.spec_get_sector(length);
    let adding = spec_lv_sum(w, vg_id, w.components.queued_changes.lvs.keys_seq());
    if len + adding > vg.spec_sectors_free() {
        Err(Error::ExceedsDevice)
    } else {
        Ok(len)
    }
}

/// Every term of the staged-volume sum is small and never negative.
pub proof fn lemma_lv_sum_bounds(w: DiskManager, vg: u64, keys: Seq<u64>)
    requires
        w.wf(),
    ensures
        0 <= spec_lv_sum(w, vg, keys),
        spec_lv_sum(w, vg, keys) <= keys.len() * 0xFFFF_FFFF_FFFF_FFFF,
    decreases keys.len(),
{
    if keys.len() == 0 {
    } else {
        lemma_lv_sum_bounds(w, vg, keys.drop_last());
        let t = lv_len(w, vg, keys.last());
        assert(0 <= t <= 0xFFFF_FFFF_FFFF_FFFF) by {
            let q = w.components.queued_changes;
            let c = keys.last();
            if q.lvs@.contains_key(c) && q.lvs@[c].1.id == vg && q.devices@.contains_key(c) {
                assert(q.devices@[c].wf());
                vstd::arithmetic::div_mod::lemma_div_is_ordered_by_denominator(
                    q.devices@[c].logical_sector_size * q.devices@[c].sectors,
                    1int,
                    512int,
                );
                assert(q.devices@[c].logical_sector_size * q.devices@[c].sectors
                    == q.devices@[c].sectors * q.devices@[c].logical_sector_size) by (
                nonlinear_arith);
            }
        }
        assert((keys.len() - 1) * 0xFFFF_FFFF_FFFF_FFFF + 0xFFFF_FFFF_FFFF_FFFF == keys.len()
            * 0xFFFF_FFFF_FFFF_FFFF) by (nonlinear_arith);
    }
}

impl DiskManager {
    /// Checks whether a logical volume of the given symbolic length fits
    /// the free extents of the volume group, counting what staged volumes
    /// have already claimed, and resolves the length.
    pub fn can_create_on_vg(&self, entity: VgEntity, length: Sector) -> (r: Result<u64, Error>)
        requires
            self.wf(),
            self.vg_alive(entity.id),
            has_eff_vg(*self, entity.id),
        ensures
            r == spec_validate_vg(*self, entity.id, length),
    {
        let vg: &LvmVg = match self.components.queued_changes.volume_groups.get(entity.id) {
            Some(vg) => vg,
            None => self.components.vgs.volume_groups.get(entity.id).unwrap(),
        };
        proof {
            assert(*vg == eff_vg(*self, entity.id));
            assert(vg.wf());
        }
        let len = vg.get_sector(length);

        // Staged logical volumes of this group claim part of the pool.
        let q = &self.components.queued_changes;
        let n = q.lvs.len();
        let mut adding: u128 = 0;
        let mut i: usize = 0;
        while i < n
            invariant
                self.wf(),
                *q == self.components.queued_changes,
                n == q.lvs.keys_seq().len(),
                i <= n,
                adding == spec_lv_sum(*self, entity.id, q.lvs.keys_seq().subrange(0, i as int)),
                adding <= i * 0xFFFF_FFFF_FFFF_FFFF,
            decreases n - i,
        {
            let c = q.lvs.key_at(i);
            let lv = q.lvs.val_at(i);
            let ghost pre = adding;
            if lv.1.id == entity.id {
                if let Some(d) = q.devices.get(c) {
                    proof {
                        assert(d.wf());
                        vstd::arithmetic::div_mod::lemma_div_is_ordered_by_denominator(
                            d.logical_sector_size * d.sectors,
                            1int,
                            512int,
                        );
                        assert(d.logical_sector_size * d.sectors == d.sectors
                            * d.logical_sector_size) by (nonlinear_arith);
                        assert(pre + (d.logical_sector_size * d.sectors / 512) <= (i + 1)
                            * 0xFFFF_FFFF_FFFF_FFFF) by (nonlinear_arith)
                            requires
                                pre <= i * 0xFFFF_FFFF_FFFF_FFFF,
                                0 <= d.logical_sector_size * d.sectors / 512
                                    <= 0xFFFF_FFFF_FFFF_FFFF,
                        ;
                    }
                    adding = adding + ((d.logical_sector_size as u128) * (d.sectors as u128))
                        / 512;
                }
            }
            proof {
                assert(q.lvs.keys_seq().subrange(0, i as int + 1).drop_last()
                    =~= q.lvs.keys_seq().subrange(0, i as int));
                assert(q.lvs.keys_seq().subrange(0, i as int + 1).last()
                    == q.lvs.keys_seq()[i as int]);
                assert(adding <= (i + 1) * 0xFFFF_FFFF_FFFF_FFFF) by (nonlinear_arith)
                    requires
                        pre <= i * 0xFFFF_FFFF_FFFF_FFFF,
                        adding - pre <= 0xFFFF_FFFF_FFFF_FFFF,
                        adding >= pre,
                ;
            }
            i = i + 1;
        }
        proof {
            assert(q.lvs.keys_seq().subrange(0, n as int) =~= q.lvs.keys_seq());
            crate::lvm::lemma_vg_sector_bounds(*vg);
        }

        if (len as u128) + adding > (vg.sectors_free() as u128) {
            Err(Error::ExceedsDevice)
        } else {
            Ok(len)
        }
    }

    /// Stages a new logical volume on a volume group: the volume's device
    /// map, LV record and group link are staged, and the new entity is
    /// marked for creation. On failure nothing changes.
    pub fn create_as_logical_volume_of(
        &mut self,
        parent: VgEntity,
        sector: Sector,
        name: String,
        what: PartitionCreate,
    ) -> (r: Result<DeviceEntity, Error>)
        requires
            old(self).wf(),
            old(self).vg_alive(parent.id),
            has_eff_vg(*old(self), parent.id),
            old(self).entities.next_device + 2 <= u64::MAX,
        ensures
            final(self).wf(),
            r is Ok <==> spec_validate_vg(*old(self), parent.id, sector) is Ok,
            r matches Err(err) ==> *final(self) == *old(self) && spec_validate_vg(
                *old(self),
                parent.id,
                sector,
            ) == Err::<u64, Error>(err),
            r matches Ok(e) ==> {
                let w0 = *old(self);
                let w1 = *final(self);
                let q0 = w0.components.queued_changes;
                let q1 = w1.components.queued_changes;
                let len = spec_validate_vg(w0, parent.id, sector)->Ok_0;
                let vg = eff_vg(w0, parent.id);
                &&& e.id == w0.entities.next_device
                &&& !w0.dev_alive(e.id)
                &&& w1.dev_alive(e.id)
                &&& w1.dev_flags(e.id) == (EntityFlags {
                    create: true,
                    ..EntityFlags::spec_empty()
                })
                &&& (what matches PartitionCreate::Luks(_) ==> w1.entities.next_device as int
                    == w0.entities.next_device as int + 2)
                &&& (what matches PartitionCreate::Plain(_) ==> w1.entities.next_device as int
                    == w0.entities.next_device as int + 1)
                &&& forall|k: u64|
                    w0.dev_alive(k) ==> #[trigger] w1.dev_flags(k) == w0.dev_flags(k)
                &&& q1.devices@.contains_key(e.id)
                &&& q1.devices@[e.id].sectors == len
                &&& q1.devices@[e.id].logical_sector_size == 512
                &&& q1.partitions@.contains_key(e.id)
                &&& q1.partitions@[e.id].offset == 0
                &&& q1.partitions@[e.id].filesystem == Some(what.filesystem())
                &&& q1.partitions@[e.id].partlabel is None
                &&& q1.vg_parents@ == q0.vg_parents@.insert(e.id, parent)
                &&& q1.device_maps@.contains_key(e.id)
                &&& q1.device_maps@[e.id]@ == crate::common::spec_double_dashes(vg.name@)
                    + seq!['-'] + crate::common::spec_double_dashes(name@)
                &&& q1.lvs@.contains_key(e.id)
                &&& q1.lvs@[e.id].1 == parent
                &&& q1.lvs@[e.id].0.name@ == name@
                &&& q1.lvs@[e.id].0.path@ == "/dev/mapper/"@ + vg.name@ + seq!['/'] + name@
                &&& q1.lvs@[e.id].0.uuid@ == Seq::<char>::empty()
                &&& q1.parents == q0.parents
                &&& q1.tables == q0.tables
                &&& q1.volume_groups == q0.volume_groups
                &&& w1.components.devices == w0.components.devices
                &&& w1.components.vgs == w0.components.vgs
                &&& w1.entities.vgs == w0.entities.vgs
                &&& w1.flags == (ManagerFlags { create: true, ..w0.flags })
            },
    {
        let ghost w0 = *self;
        let length = match self.can_create_on_vg(parent, sector) {
            Ok(l) => l,
            Err(err) => {
                return Err(err);
            },
        };
        let (vgname, sectors_free) = {
            let vg: &LvmVg = match self.components.queued_changes.volume_groups.get(parent.id) {
                Some(vg) => vg,
                None => self.components.vgs.volume_groups.get(parent.id).unwrap(),
            };
            proof {
                assert(*vg == eff_vg(w0, parent.id));
                assert(vg.wf());
                crate::lvm::lemma_vg_sector_bounds(*vg);
            }
            (vg.name.clone(), vg.sectors_free())
        };
        proof {
            lemma_lv_sum_bounds(
                w0,
                parent.id,
                w0.components.queued_changes.lvs.keys_seq(),
            );
            assert(length <= sectors_free);
            assert(length * 512 <= sectors_free * 512) by (nonlinear_arith)
                requires
                    0 <= length <= sectors_free,
            ;
            lemma_free_sectors_bytes_bound(eff_vg(w0, parent.id));
        }

        let dmname = crate::common::double_dashes(vgname.as_str()).concat("-").concat(
            crate::common::double_dashes(name.as_str()).as_str(),
        );
        let lvpath = String::from_str("/dev/mapper/").concat(vgname.as_str()).concat("/").concat(
            name.as_str(),
        );

        // Register a new device entity for the staged volume.
        let entity = self.entities.insert_device(
            EntityFlags { create: true, ..EntityFlags::empty() },
        );

        let mut partition = Partition::at_offset(0);
        match what {
            PartitionCreate::Plain(filesystem) => {
                if let FileSystem::Lvm = filesystem {
                    let size_bytes: u64 = 512 * length;
                    let adjusted: u64 = if size_bytes < 1048576 {
                        0
                    } else {
                        ((size_bytes - 1048576) / 4194304) * 4194304
                    };
                    let pv = LvmPv {
                        path: lvpath.clone(),
                        uuid: String::new(),
                        size_bytes: adjusted,
                    };
                    self.components.queued_changes.pvs.insert(entity.id, (pv, None));
                }
                partition.filesystem = Some(filesystem);
            },
            PartitionCreate::Luks(luks) => {
                partition.filesystem = Some(FileSystem::Luks);
                let child = self.entities.insert_device(
                    EntityFlags { create: true, luks_child: true, ..EntityFlags::empty() },
                );
                self.components.queued_changes.luks.insert(entity.id, (child, luks));
            },
        }

        self.components.queued_changes.devices.insert(
            entity.id,
            Device {
                name: String::new(),
                path: String::new(),
                sectors: length,
                logical_sector_size: 512,
                physical_sector_size: 512,
            },
        );
        self.components.queued_changes.partitions.insert(entity.id, partition);
        self.components.queued_changes.vg_parents.insert(entity.id, parent);

        proof {
            reveal_strlit("-");
            reveal_strlit("/");
            assert(dmname@ =~= crate::common::spec_double_dashes(
                eff_vg(w0, parent.id).name@,
            ) + seq!['-'] + crate::common::spec_double_dashes(name@));
            assert(lvpath@ =~= "/dev/mapper/"@ + eff_vg(w0, parent.id).name@ + seq!['/']
                + name@);
        }
        let lv = LvmLv { name, path: lvpath, uuid: String::new() };
        self.components.queued_changes.device_maps.insert(entity.id, dmname);
        self.components.queued_changes.lvs.insert(entity.id, (lv, parent));
        self.flags = ManagerFlags { create: true, ..self.flags };
        proof {
            assert forall|k: u64|
                #[trigger] self.components.queued_changes.devices@.contains_key(k) implies (
            self.components.queued_changes.devices@[k]).wf() by {
                if k != entity.id {
                    assert(w0.components.queued_changes.devices@.contains_key(k));
                }
            }
            crate::world::lemma_wf_committed_frame(w0, *self);
        }
        Ok(entity)
    }
}

/// The free sectors of a well-formed volume group fit in bytes within
/// sixty-four bits.
pub proof fn lemma_free_sectors_bytes_bound(vg: LvmVg)
    requires
        vg.wf(),
    ensures
        vg.spec_sectors_free() * 512 <= u64::MAX,
{
    let es = vg.extent_size as int;
    let per = es / 512;
    let ef = vg.extents_free as int;
    crate::lvm::lemma_vg_sector_bounds(vg);
    vstd::arithmetic::div_mod::lemma_fundamental_div_mod(es, 512);
    assert(per * 512 <= es);
    assert(vg.spec_sectors_free() == per * ef);
    assert((per * ef) * 512 == (per * 512) * ef) by (nonlinear_arith);
    assert((per * 512) * ef <= es * ef) by (nonlinear_arith)
        requires
            0 <= per * 512 <= es,
            0 <= ef,
    ;
    assert(es * ef <= es * vg.extents) by (nonlinear_arith)
        requires
            0 <= es,
            0 <= ef <= vg.extents,
    ;
}

/// A prefix of the member list contributes no more extents than the
/// whole, and no prefix contributes a negative count.
pub proof fn lemma_extent_sum_nonneg(w: DiskManager, members: Seq<DeviceEntity>)
    ensures
        spec_extent_sum(w, members) >= 0,
    decreases members.len(),
{
    if members.len() > 0 {
        lemma_extent_sum_nonneg(w, members.drop_last());
    }
}

/// Growing the prefix of members never shrinks the extent sum, so every
/// prefix stays within the bound on the whole.
pub proof fn lemma_extent_sum_bound(w: DiskManager, members: Seq<DeviceEntity>, i: int)
    requires
        0 <= i <= members.len(),
    ensures
        spec_extent_sum(w, members.subrange(0, i)) <= spec_extent_sum(w, members),
    decreases members.len() - i,
{
    if i == members.len() {
        assert(members.subrange(0, i) =~= members);
    } else {
        lemma_extent_sum_bound(w, members, i + 1);
        assert(members.subrange(0, i + 1).drop_last() =~= members.subrange(0, i));
        lemma_extent_sum_nonneg(w, members.subrange(0, i));
        assert(spec_extent_sum(w, members.subrange(0, i)) <= spec_extent_sum(
            w,
            members.subrange(0, i + 1),
        ));
    }
}

/// Multiplying by a common factor keeps an ordering.
pub proof fn lemma_mul_le(a: int, b: int, c: int)
    requires
        0 <= a <= b,
        0 <= c,
    ensures
        a * c <= b * c,
{
    vstd::arithmetic::mul::lemma_mul_inequality(a, b, c);
}

} // verus!
