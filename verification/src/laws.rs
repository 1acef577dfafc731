//! The standing laws of the world, written out and proved, so a reader
//! sees them stated rather than buried in the invariant.

use vstd::prelude::*;
use crate::create::{committed_conflict, eff_device, spec_validate, Error};
use crate::entity::DeviceEntity;
use crate::flags::EntityFlags;
use crate::sector::Sector;
use crate::world::DiskManager;

verus! {

/// Every identifier inside any children list addresses a live entity: a
/// parent never points at an entity that has left the registry.
pub proof fn lemma_children_are_registered(w: DiskManager)
    requires
        w.wf(),
    ensures
        forall|p: u64, i: int|
            w.components.devices.children@.contains_key(p) && 0 <= i
                < w.components.devices.children@[p]@.len() ==> w.dev_alive(
                (#[trigger] w.components.devices.children@[p]@[i]).id,
            ),
{
}

/// No committed volume group claims more free extents than it has.
pub proof fn lemma_vg_extents_bounded(w: DiskManager)
    requires
        w.wf(),
    ensures
        forall|k: u64|
            #[trigger] w.components.vgs.volume_groups@.contains_key(k)
                ==> w.components.vgs.volume_groups@[k].extents_free
                <= w.components.vgs.volume_groups@[k].extents,
{
}

/// A region the validator passes lies inside its parent: its end does not
/// outrun the device.
pub proof fn lemma_validated_region_bounded(
    w: DiskManager,
    p: u64,
    start: Sector,
    end: Sector,
    off: u64,
    len: u64,
)
    requires
        spec_validate(w, p, start, end) == Ok::<(u64, u64), Error>((off, len)),
    ensures
        len > 0,
        off + len <= eff_device(w, p).sectors,
{
}

/// A region the validator passes is disjoint from every committed child
/// of the parent that is not marked for removal: the two half-open sector
/// ranges share nothing, though they may touch.
pub proof fn lemma_validated_region_disjoint(
    w: DiskManager,
    p: u64,
    start: Sector,
    end: Sector,
    off: u64,
    len: u64,
    i: int,
)
    requires
        w.wf(),
        spec_validate(w, p, start, end) == Ok::<(u64, u64), Error>((off, len)),
        w.components.devices.children@.contains_key(p),
        0 <= i < w.components.devices.children@[p]@.len(),
        ({
            let c = w.components.devices.children@[p]@[i].id;
            &&& !w.dev_flags(c).remove
            &&& w.components.devices.partitions@.contains_key(c)
            &&& w.components.devices.devices@.contains_key(c)
        }),
    ensures
        ({
            let c = w.components.devices.children@[p]@[i].id;
            let coff = w.components.devices.partitions@[c].offset;
            let csec = w.components.devices.devices@[c].sectors;
            off + len <= coff || coff + csec <= off
        }),
{
    let c = w.components.devices.children@[p]@[i].id;
    let coff = w.components.devices.partitions@[c].offset;
    let csec = w.components.devices.devices@[c].sectors;
    if !(off + len <= coff || coff + csec <= off) {
        assert(w.dev_alive(c));
        assert(committed_conflict(w, p, off, (off + len) as u64)) by {
            assert(w.components.devices.children@[p]@[i] == w.components.devices.children@[p]@[i]);
        }
        assert(false);
    }
}

/// Staging a creation and unsetting is the same as unsetting alone: the
/// committed half of the world, the registry, and every mark end up
/// exactly as an unset of the original world leaves them. The relations
/// below are the ones `create_as_child_of` and `unset` promise.
pub proof fn lemma_create_then_unset_is_unset(
    w0: DiskManager,
    w1: DiskManager,
    after_create_unset: DiskManager,
    after_plain_unset: DiskManager,
    e: DeviceEntity,
    two: bool,
    parent: DeviceEntity,
)
    requires
        w0.wf(),
        w0.dev_alive(parent.id),
        w0.components.devices.devices@.contains_key(parent.id) || w0.dev_flags(parent.id).create,
        // What the creation staged: fresh entities, marks, untouched
        // committed state.
        e.id == w0.entities.next_device,
        !w0.dev_alive(e.id),
        w1.dev_alive(e.id),
        !w1.components.devices.devices@.contains_key(e.id),
        w1.dev_flags(e.id).create,
        two ==> !w0.dev_alive((e.id + 1) as u64) && w1.dev_alive((e.id + 1) as u64) && w1.dev_flags(
            (e.id + 1) as u64,
        ).create && !w1.components.devices.devices@.contains_key((e.id + 1) as u64),
        forall|k: u64|
            #[trigger] w1.dev_alive(k) <==> w0.dev_alive(k) || k == e.id || (two && k == e.id + 1),
        forall|k: u64|
            #[trigger] w0.dev_alive(k) && k != parent.id ==> w1.dev_flags(k) == w0.dev_flags(k),
        w1.dev_flags(parent.id) == (EntityFlags {
            create: true,
            create_children: true,
            ..w0.dev_flags(parent.id)
        }),
        w1.components.devices == w0.components.devices,
        w1.components.vgs == w0.components.vgs,
        w1.entities.vgs == w0.entities.vgs,
        // What each unset leaves behind.
        unset_shape(w1, after_create_unset),
        unset_shape(w0, after_plain_unset),
    ensures
        after_create_unset.components.devices == after_plain_unset.components.devices,
        after_create_unset.components.vgs == after_plain_unset.components.vgs,
        after_create_unset.components.queued_changes.is_empty(),
        after_plain_unset.components.queued_changes.is_empty(),
        forall|k: u64|
            #[trigger] after_create_unset.dev_alive(k) <==> after_plain_unset.dev_alive(k),
        forall|k: u64|
            #[trigger] after_create_unset.dev_alive(k) ==> after_create_unset.dev_flags(k)
                == after_plain_unset.dev_flags(k),
{
    assert forall|k: u64|
        #[trigger] after_create_unset.dev_alive(k) <==> after_plain_unset.dev_alive(k) by {
        if k == e.id || (two && k == e.id + 1) {
            assert(w1.dev_staged_only(k));
            assert(!w0.dev_alive(k));
        } else {
            if w0.dev_alive(k) {
                if k == parent.id {
                    if w0.components.devices.devices@.contains_key(parent.id) {
                        assert(!w1.dev_staged_only(k));
                        assert(!w0.dev_staged_only(k));
                    } else {
                        assert(w0.dev_flags(parent.id).create);
                        assert(w1.dev_staged_only(k) == w0.dev_staged_only(k));
                    }
                } else {
                    assert(w1.dev_flags(k) == w0.dev_flags(k));
                }
            }
        }
    }
    assert forall|k: u64|
        #[trigger] after_create_unset.dev_alive(k) implies after_create_unset.dev_flags(k)
        == after_plain_unset.dev_flags(k) by {
        assert(w0.dev_alive(k));
        if k == parent.id {
            assert(w1.dev_flags(k).spec_cleared() == w0.dev_flags(k).spec_cleared());
        } else {
            assert(w1.dev_flags(k) == w0.dev_flags(k));
        }
    }
}

/// What an unset makes of a world: staged-only entities dropped, staging
/// marks cleared, committed components untouched, staged changes gone.
/// This is the relation `unset` ensures between its old and new world.
pub open spec fn unset_shape(before: DiskManager, after: DiskManager) -> bool {
    &&& after.components.queued_changes.is_empty()
    &&& after.components.devices == before.components.devices
    &&& after.components.vgs == before.components.vgs
    &&& forall|k: u64|
        #[trigger] after.dev_alive(k) <==> before.dev_alive(k) && !before.dev_staged_only(k)
    &&& forall|k: u64|
        #[trigger] after.dev_alive(k) ==> after.dev_flags(k) == before.dev_flags(
            k,
        ).spec_cleared()
}

} // verus!
