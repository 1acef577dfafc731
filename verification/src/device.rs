//! Block-device records and the capabilities common to everything that
//! behaves as one.

use vstd::prelude::*;
use crate::sector::{Sector, spec_resolve_sector, resolve_sector};

verus! {

/// What every block-device-like value can tell about itself.
pub trait DeviceExt {
    fn name(&self) -> &str;

    fn path(&self) -> &str;

    fn sectors(&self) -> u64;

    fn logical_sector_size(&self) -> u64;

    fn physical_sector_size(&self) -> u64;
}

/// A block device: its kernel name, device node path, and geometry.
#[derive(Debug, Clone)]
pub struct Device {
    pub name: String,
    pub path: String,
    pub sectors: u64,
    pub logical_sector_size: u64,
    pub physical_sector_size: u64,
}

impl Device {
    /// A device record fit for resolving sectors against: a positive
    /// logical sector size, and an addressable range that stays within
    /// sixty-four bits of bytes.
    pub open spec fn wf(self) -> bool {
        &&& self.logical_sector_size > 0
        &&& self.sectors * self.logical_sector_size <= u64::MAX
    }

    /// The absolute sector that `s` names on this device.
    pub open spec fn spec_get_sector(self, s: Sector) -> u64 {
        spec_resolve_sector(self.sectors, self.logical_sector_size, s)
    }

    /// Resolves a symbolic sector against this device's geometry.
    pub fn get_sector(&self, s: Sector) -> (r: u64)
        requires
            self.logical_sector_size > 0,
        ensures
            r == self.spec_get_sector(s),
    {
        resolve_sector(self.sectors, self.logical_sector_size, s)
    }
}

impl DeviceExt for Device {
    fn name(&self) -> (r: &str)
        ensures
            r@ == self.name@,
    {
        self.name.as_str()
    }

    fn path(&self) -> (r: &str)
        ensures
            r@ == self.path@,
    {
        self.path.as_str()
    }

    fn sectors(&self) -> (r: u64)
        ensures
            r == self.sectors,
    {
        self.sectors
    }

    fn logical_sector_size(&self) -> (r: u64)
        ensures
            r == self.logical_sector_size,
    {
        self.logical_sector_size
    }

    fn physical_sector_size(&self) -> (r: u64)
        ensures
            r == self.physical_sector_size,
    {
        self.physical_sector_size
    }
}

/// A whole physical disk.
#[derive(Debug, Clone)]
pub struct Disk {
    pub serial: String,
}

} // verus!
