//! LVM records: logical volumes, physical volumes and volume groups.

use vstd::prelude::*;
use crate::sector::{Sector, spec_resolve_sector, resolve_sector};

verus! {

/// A logical volume as the LVM bus reports it.
#[derive(Debug, Clone)]
pub struct LvmLv {
    pub name: String,
    pub path: String,
    pub uuid: String,
}

/// A physical volume as the LVM bus reports it.
#[derive(Debug, Clone)]
pub struct LvmPv {
    pub path: String,
    pub uuid: String,
    pub size_bytes: u64,
}

/// A volume group: a pool of extents carved into logical volumes.
#[derive(Debug, Clone)]
pub struct LvmVg {
    pub name: String,
    pub extent_size: u64,
    pub extents: u64,
    pub extents_free: u64,
}

impl LvmVg {
    /// A volume group in good standing: the extent is a positive multiple
    /// of 512 bytes, no more extents are free than exist, and the pool's
    /// byte size fits in sixty-four bits.
    pub open spec fn wf(self) -> bool {
        &&& self.extent_size > 0
        &&& self.extent_size % 512 == 0
        &&& self.extents_free <= self.extents
        &&& self.extent_size * self.extents <= u64::MAX
    }

    pub open spec fn spec_extent_sectors(self) -> u64 {
        (self.extent_size / 512) as u64
    }

    /// How many 512-byte sectors one extent spans.
    pub fn extent_size_as_512_byte_sectors(&self) -> (r: u64)
        requires
            self.extent_size % 512 == 0,
        ensures
            r == self.spec_extent_sectors(),
    {
        self.extent_size / 512
    }

    /// How many 512-byte sectors the free extents of the group cover.
    pub open spec fn spec_sectors_free(self) -> int {
        self.spec_extent_sectors() * self.extents_free
    }

    pub fn sectors_free(&self) -> (r: u64)
        requires
            self.wf(),
        ensures
            r == self.spec_sectors_free(),
    {
        proof {
            lemma_vg_sector_bounds(*self);
        }
        (self.extent_size / 512) * self.extents_free
    }

    /// The whole pool, in 512-byte sectors.
    pub open spec fn spec_sectors(self) -> int {
        self.spec_extent_sectors() * self.extents
    }

    /// The absolute 512-byte sector that `s` names on this pool.
    pub open spec fn spec_get_sector(self, s: Sector) -> u64 {
        spec_resolve_sector((self.spec_extent_sectors() * self.extents) as u64, 512, s)
    }

    /// Resolves a symbolic sector against the pool, read as a synthetic
    /// device of 512-byte sectors.
    pub fn get_sector(&self, s: Sector) -> (r: u64)
        requires
            self.wf(),
        ensures
            r == self.spec_get_sector(s),
    {
        proof {
            lemma_vg_sector_bounds(*self);
        }
        let sectors: u64 = (self.extent_size / 512) * self.extents;
        resolve_sector(sectors, 512, s)
    }
}

/// The sector products of a well-formed volume group stay within bounds.
pub proof fn lemma_vg_sector_bounds(vg: LvmVg)
    requires
        vg.wf(),
    ensures
        vg.spec_sectors_free() <= vg.spec_sectors(),
        vg.spec_sectors() <= u64::MAX,
{
    let es = vg.extent_size as int;
    let sectors_per = es / 512;
    assert(sectors_per * vg.extents_free <= sectors_per * vg.extents) by (nonlinear_arith)
        requires
            vg.extents_free <= vg.extents,
            sectors_per >= 0,
    ;
    assert(sectors_per <= es) by {
        vstd::arithmetic::div_mod::lemma_div_is_ordered_by_denominator(es, 1, 512);
        assert(es / 1 == es);
    }
    assert(sectors_per * vg.extents <= es * vg.extents) by (nonlinear_arith)
        requires
            0 <= sectors_per <= es,
            vg.extents >= 0,
    ;
}

impl LvmVg {
    /// The whole pool, in 512-byte sectors, as a device-like value.
    pub fn sectors(&self) -> (r: u64)
        requires
            self.wf(),
        ensures
            r == self.spec_sectors(),
    {
        proof {
            lemma_vg_sector_bounds(*self);
        }
        (self.extent_size / 512) * self.extents
    }
}

} // verus!
