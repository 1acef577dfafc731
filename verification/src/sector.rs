//! Symbolic sector addresses and their resolution against a device.

use vstd::prelude::*;

verus! {

/// A sector address given symbolically. `Start` is the first sector and
/// `End` one past the last; `Megabyte` counts from the start of the device
/// and `MegabyteFromEnd` back from its end; `Percent` takes a share of the
/// whole device, values above one hundred reading as the whole of it.
#[derive(Debug, PartialEq, Eq, Copy, Clone, Structural)]
pub enum Sector {
    Start,
    End,
    Unit(u64),
    Megabyte(u64),
    MegabyteFromEnd(u64),
    Percent(u64),
}

/// The absolute sector that `s` names on a device of `sectors` sectors of
/// `lss` bytes each. A position past the end of the addressable range
/// saturates at `u64::MAX`; one before the start saturates at zero.
pub open spec fn spec_resolve_sector(sectors: u64, lss: u64, s: Sector) -> u64
    recommends
        lss > 0,
{
    match s {
        Sector::Start => 0u64,
        Sector::End => sectors,
        Sector::Unit(u) => u,
        Sector::Megabyte(m) => {
            let r = m * 1048576 / (lss as int);
            if r > u64::MAX {
                u64::MAX
            } else {
                r as u64
            }
        },
        Sector::MegabyteFromEnd(m) => {
            let back = m * 1048576 / (lss as int);
            if back > sectors {
                0u64
            } else {
                (sectors - back) as u64
            }
        },
        Sector::Percent(p) => {
            let share = if p > 100 {
                100int
            } else {
                p as int
            };
            ((sectors * share) / 100) as u64
        },
    }
}

/// Resolves a symbolic sector against a device of `sectors` sectors of
/// `lss` bytes each.
pub fn resolve_sector(sectors: u64, lss: u64, s: Sector) -> (r: u64)
    requires
        lss > 0,
    ensures
        r == spec_resolve_sector(sectors, lss, s),
{
    match s {
        Sector::Start => 0,
        Sector::End => sectors,
        Sector::Unit(u) => u,
        Sector::Megabyte(m) => {
            let wide: u128 = (m as u128) * 1048576 / (lss as u128);
            proof {
                assert((m as u128) * 1048576 == (m as int) * 1048576) by (nonlinear_arith);
                vstd::arithmetic::div_mod::lemma_div_is_ordered_by_denominator(
                    m as int * 1048576,
                    1int,
                    lss as int,
                );
                assert(wide == m * 1048576 / (lss as int));
            }
            if wide > 0xFFFF_FFFF_FFFF_FFFF {
                u64::MAX
            } else {
                wide as u64
            }
        },
        Sector::MegabyteFromEnd(m) => {
            let back: u128 = (m as u128) * 1048576 / (lss as u128);
            proof {
                assert((m as u128) * 1048576 == (m as int) * 1048576) by (nonlinear_arith);
            }
            if back > sectors as u128 {
                0
            } else {
                sectors - (back as u64)
            }
        },
        Sector::Percent(p) => {
            let share: u64 = if p > 100 {
                100
            } else {
                p
            };
            proof {
                assert((sectors as int) * (share as int) <= (sectors as int) * 100) by (
                nonlinear_arith)
                    requires
                        share <= 100,
                        sectors >= 0,
                ;
            }
            let wide: u128 = (sectors as u128) * (share as u128) / 100;
            proof {
                vstd::arithmetic::div_mod::lemma_div_is_ordered(
                    (sectors as int) * (share as int),
                    (sectors as int) * 100,
                    100int,
                );
                assert((sectors as int) * 100 / 100 == sectors as int) by (nonlinear_arith);
            }
            wide as u64
        },
    }
}

} // verus!
