//! A transactional disk-management engine for Linux.
//!
//! The engine models every block device on a host — disks, partitions,
//! loopbacks, device-map targets, LUKS containers, LVM volumes — as an
//! entity in a world, its traits held in separate component stores.
//! Callers stage a batch of mutations: new tables, new partitions, new
//! volume groups, labels, formats, removals. The apply engine then carries
//! the batch onto the machine in dependency order — remove, create,
//! format, label — or drops it without a trace.
//!
//! Everything that touches a device is handed out as an `Action` for the
//! surrounding program to run; the engine itself only decides and records,
//! and all of that is verified: the validator admits a partition exactly
//! when it lies inside its parent and overlaps no sibling, an unset leaves
//! no staged state behind, and the world's books stay consistent through
//! every step.

pub mod builder;
pub mod common;
pub mod create;
pub mod device;
pub mod entity;
pub mod flags;
pub mod fs;
pub mod gpt;
pub mod laws;
pub mod luks;
pub mod lvm;
pub mod lvmbus;
pub mod modify;
pub mod partitions;
pub mod prober;
pub mod scan;
pub mod sector;
pub mod store;
pub mod systems;
pub mod world;

pub use crate::device::{Device, DeviceExt, Disk};
pub use crate::entity::{DeviceEntity, VgEntity};
pub use crate::flags::{EntityFlags, ManagerFlags};
pub use crate::fs::{FileSystem, PartitionSizeError};
pub use crate::luks::{CryptType, CryptTypeStr, LuksParams, LuksPassphrase};
pub use crate::lvm::{LvmLv, LvmPv, LvmVg};
pub use crate::partitions::{Partition, PartitionTable, PartitionType};
pub use crate::sector::Sector;
pub use crate::world::{
    DeviceComponents, DiskComponents, DiskEntities, DiskManager, QueuedChanges, VgComponents,
};
