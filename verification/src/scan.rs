//! Building the world from a scan of the machine: every probed device
//! becomes an entity with its components, parent edges are drawn from the
//! slave listings, and the LVM snapshot attaches volume-group identity.
//!
//! The probing itself is input; this module verifies what the world makes
//! of it.

use vstd::prelude::*;
use crate::device::{Device, Disk};
use crate::entity::{DeviceEntity, VgEntity};
use crate::flags::EntityFlags;
use crate::fs::FileSystem;
use crate::lvm::{LvmPv, LvmVg};
use crate::partitions::{Partition, PartitionType};
use crate::prober::{DeviceVariant, ProbeInfo, VgInfo};
use crate::world::DiskManager;
use crate::common::str_eq;

verus! {

/// A probed device whose geometry arithmetic stays within bounds: a
/// positive sector size, and byte sizes that fit sixty-four bits.
pub open spec fn probe_wf(p: ProbeInfo) -> bool {
    &&& p.logical_sector_size > 0
    &&& p.sectors * p.logical_sector_size <= u64::MAX
    &&& forall|i: int|
        0 <= i < p.partitions@.len() ==> (#[trigger] p.partitions@[i]).sectors
            * p.logical_sector_size <= u64::MAX
}

/// How many entities a probe materializes: the device and its partitions.
pub open spec fn probe_count(probes: Seq<ProbeInfo>) -> int
    decreases probes.len(),
{
    if probes.len() == 0 {
        0
    } else {
        probe_count(probes.drop_last()) + 1 + probes.last().partitions@.len()
    }
}

/// The count never goes negative.
pub proof fn lemma_probe_count_nonneg(probes: Seq<ProbeInfo>)
    ensures
        probe_count(probes) >= 0,
    decreases probes.len(),
{
    if probes.len() > 0 {
        lemma_probe_count_nonneg(probes.drop_last());
    }
}

/// The count of a non-empty sequence splits off its head.
pub proof fn lemma_probe_count_head(s: Seq<ProbeInfo>)
    requires
        s.len() > 0,
    ensures
        probe_count(s) == 1 + s[0].partitions@.len() + probe_count(s.drop_first()),
    decreases s.len(),
{
    if s.len() == 1 {
        assert(s.drop_last() =~= s.drop_first());
    } else {
        lemma_probe_count_head(s.drop_last());
        assert(s.drop_last()[0] == s[0]);
        assert(s.drop_last().drop_first() =~= s.drop_first().drop_last());
        assert(s.drop_first().last() == s.last());
    }
}

/// The count of a prefix extends by its new last probe.
pub proof fn lemma_probe_count_snoc(probes: Seq<ProbeInfo>, i: int)
    requires
        0 <= i < probes.len(),
    ensures
        probe_count(probes.subrange(0, i + 1)) == probe_count(probes.subrange(0, i)) + 1
            + probes[i].partitions@.len(),
{
    assert(probes.subrange(0, i + 1).drop_last() =~= probes.subrange(0, i));
    assert(probes.subrange(0, i + 1).last() == probes[i]);
}

/// The count of a suffix splits off its head.
pub proof fn lemma_probe_count_split(probes: Seq<ProbeInfo>, i: int)
    requires
        0 <= i < probes.len(),
    ensures
        probe_count(probes.subrange(i, probes.len() as int)) == 1 + probes[i].partitions@.len()
            + probe_count(probes.subrange(i + 1, probes.len() as int)),
{
    let s = probes.subrange(i, probes.len() as int);
    lemma_probe_count_head(s);
    assert(s.drop_first() =~= probes.subrange(i + 1, probes.len() as int));
    assert(s[0] == probes[i]);
}

/// The file system a probe's type token stands for: the parse of the
/// token where one was reported, nothing where none was.
pub open spec fn probed_filesystem(t: Option<String>) -> Option<FileSystem> {
    match t {
        Some(s) => crate::fs::spec_parse_fs(s@),
        None => None,
    }
}

/// Whether a device record carries exactly what a probe reported of the
/// whole device.
pub open spec fn device_matches_probe(d: Device, p: ProbeInfo) -> bool {
    d == (Device {
        name: p.device,
        path: p.path,
        sectors: p.sectors,
        logical_sector_size: p.logical_sector_size,
        physical_sector_size: p.physical_sector_size,
    })
}

/// Whether the whole-device file system the probe reported is recorded:
/// a partition record at offset zero holding the parsed type and the
/// probe's UUID.
pub open spec fn whole_fs_recorded(w: DiskManager, e: u64, p: ProbeInfo) -> bool {
    p.fstype is Some ==> w.components.devices.partitions@.contains_key(e)
        && w.components.devices.partitions@[e] == (Partition {
        offset: 0,
        number: 0,
        filesystem: probed_filesystem(p.fstype),
        partuuid: None,
        partlabel: None,
        mbr_variant: PartitionType::Primary,
        uuid: p.uuid,
    })
}

/// Whether the entity carries the component the probe's classification
/// calls for: the loopback's backing file, the device map's name, or the
/// disk record with its table kind.
pub open spec fn variant_classified(w: DiskManager, e: u64, p: ProbeInfo) -> bool {
    match p.variant {
        DeviceVariant::Loopback(backing) => w.components.devices.loopbacks@.contains_key(e)
            && w.components.devices.loopbacks@[e] == backing,
        DeviceVariant::DevMap(map_name) => w.components.devices.device_maps@.contains_key(e)
            && w.components.devices.device_maps@[e] == map_name,
        DeviceVariant::Physical(table) => w.components.devices.disks@.contains_key(e) && (
        match table {
            Some(kind) => w.components.devices.tables@.contains_key(e)
                && w.components.devices.tables@[e] == kind,
            None => true,
        }),
    }
}

/// Whether the child entity stands for the probe's `j`-th partition: live,
/// with a device record named and sized as listed, and a partition record
/// carrying the listed offset and number.
pub open spec fn child_matches_part(
    w: DiskManager,
    c: DeviceEntity,
    p: ProbeInfo,
    j: int,
) -> bool {
    &&& w.dev_alive(c.id)
    &&& w.components.devices.devices@.contains_key(c.id)
    &&& w.components.devices.devices@[c.id] == (Device {
        name: p.partitions@[j].device,
        path: p.partitions@[j].path,
        sectors: p.partitions@[j].sectors,
        logical_sector_size: p.logical_sector_size,
        physical_sector_size: p.physical_sector_size,
    })
    &&& w.components.devices.partitions@.contains_key(c.id)
    &&& w.components.devices.partitions@[c.id] == (Partition {
        offset: p.partitions@[j].offset,
        number: p.partitions@[j].no,
        filesystem: probed_filesystem(p.partitions@[j].fstype),
        partuuid: p.partitions@[j].partuuid,
        partlabel: p.partitions@[j].partlabel,
        mbr_variant: PartitionType::Primary,
        uuid: p.partitions@[j].uuid,
    })
}

/// Whether the entity is the probe's image in the world: live, its device
/// record as reported, classified by the probe's variant, and its children
/// opening with one entity per listed partition, in listing order.
pub open spec fn probe_entity(w: DiskManager, e: u64, p: ProbeInfo) -> bool {
    &&& w.dev_alive(e)
    &&& w.components.devices.devices@.contains_key(e)
    &&& device_matches_probe(w.components.devices.devices@[e], p)
    &&& whole_fs_recorded(w, e, p)
    &&& variant_classified(w, e, p)
    &&& w.components.devices.children@.contains_key(e)
    &&& w.components.devices.children@[e]@.len() >= p.partitions@.len()
    &&& forall|j: int|
        0 <= j < p.partitions@.len() ==> child_matches_part(
            w,
            #[trigger] w.components.devices.children@[e]@[j],
            p,
            j,
        )
}

/// Whether the entity's partition record says the device holds a LUKS
/// container.
pub open spec fn luks_partition(w: DiskManager, k: u64) -> bool {
    &&& w.components.devices.partitions@.contains_key(k)
    &&& w.components.devices.partitions@[k].filesystem == Some(FileSystem::Luks)
}

/// Whether some entity of the world is the probe's image.
pub open spec fn probe_materialized(w: DiskManager, p: ProbeInfo) -> bool {
    exists|e: u64| #[trigger] w.components.devices.devices@.contains_key(e) && probe_entity(w, e, p)
}

/// Whether some entity of the world is the probe's image with its
/// children list exactly the probe's partitions: nothing else has been
/// drawn under it yet.
pub open spec fn probe_materialized_exact(w: DiskManager, p: ProbeInfo) -> bool {
    exists|e: u64|
        #[trigger] w.components.devices.devices@.contains_key(e) && probe_entity(w, e, p)
            && w.components.devices.children@[e]@.len() == p.partitions@.len()
}

/// Whether the child under `parent` is drawn by the slave listings: some
/// listing names the child's device, and `parent` is one of its slaves.
pub open spec fn slave_edge(
    devs: Map<u64, Device>,
    slaves: Seq<(String, Vec<String>)>,
    parent: u64,
    child: DeviceEntity,
) -> bool {
    exists|a: int, b: int|
        0 <= a < slaves.len() && 0 <= b < slaves[a].1@.len() && devs.contains_key(child.id)
            && devs[child.id].name@ == slaves[a].0@ && devs.contains_key(parent)
            && devs[parent].name@ == (#[trigger] slaves[a].1@[b])@
}

/// Whether the slave listings name the device as somebody's slave: only
/// such a device can gain a children list the probes did not give it.
pub open spec fn slave_named(
    devs: Map<u64, Device>,
    slaves: Seq<(String, Vec<String>)>,
    k: u64,
) -> bool {
    exists|a: int, b: int|
        0 <= a < slaves.len() && 0 <= b < slaves[a].1@.len() && devs.contains_key(k)
            && devs[k].name@ == (#[trigger] slaves[a].1@[b])@
}

/// Whether some entity of the world is the probe's image, its children
/// opening with the probe's partitions and closing with entities the
/// slave listings drew under it.
pub open spec fn probe_materialized_scanned(
    w: DiskManager,
    slaves: Seq<(String, Vec<String>)>,
    p: ProbeInfo,
) -> bool {
    exists|e: u64|
        #[trigger] w.components.devices.devices@.contains_key(e) && probe_entity(w, e, p) && (
        forall|j: int|
            p.partitions@.len() <= j < w.components.devices.children@[e]@.len() ==> slave_edge(
                w.components.devices.devices@,
                slaves,
                e,
                #[trigger] w.components.devices.children@[e]@[j],
            ))
}

/// Whether `b` keeps everything of `a` that a probe's image rests on:
/// every committed record, every classification component, every children
/// list as a prefix, and every live entity.
pub open spec fn scan_extends(a: DiskManager, b: DiskManager) -> bool {
    &&& forall|k: u64|
        #[trigger] a.components.devices.devices@.contains_key(k)
            ==> b.components.devices.devices@.contains_key(k)
            && b.components.devices.devices@[k] == a.components.devices.devices@[k]
    &&& forall|k: u64|
        #[trigger] a.components.devices.partitions@.contains_key(k)
            ==> b.components.devices.partitions@.contains_key(k)
            && b.components.devices.partitions@[k] == a.components.devices.partitions@[k]
    &&& forall|k: u64|
        #[trigger] a.components.devices.loopbacks@.contains_key(k)
            ==> b.components.devices.loopbacks@.contains_key(k)
            && b.components.devices.loopbacks@[k] == a.components.devices.loopbacks@[k]
    &&& forall|k: u64|
        #[trigger] a.components.devices.device_maps@.contains_key(k)
            ==> b.components.devices.device_maps@.contains_key(k)
            && b.components.devices.device_maps@[k] == a.components.devices.device_maps@[k]
    &&& forall|k: u64|
        #[trigger] a.components.devices.disks@.contains_key(k)
            ==> b.components.devices.disks@.contains_key(k)
    &&& forall|k: u64|
        #[trigger] a.components.devices.tables@.contains_key(k)
            ==> b.components.devices.tables@.contains_key(k) && b.components.devices.tables@[k]
            == a.components.devices.tables@[k]
    &&& forall|k: u64|
        #[trigger] a.components.devices.children@.contains_key(k)
            ==> b.components.devices.children@.contains_key(k)
            && b.components.devices.children@[k]@.len() >= a.components.devices.children@[k]@.len()
            && (forall|j: int|
            0 <= j < a.components.devices.children@[k]@.len()
                ==> b.components.devices.children@[k]@[j]
                == #[trigger] a.components.devices.children@[k]@[j])
    &&& forall|k: u64| #[trigger] a.dev_alive(k) ==> b.dev_alive(k)
}

/// A probe's image at a fixed entity survives any extension of the
/// world: what was built stands, whatever is added around it.
pub proof fn lemma_probe_entity_preserved(a: DiskManager, b: DiskManager, e: u64, p: ProbeInfo)
    requires
        scan_extends(a, b),
        a.components.devices.devices@.contains_key(e),
        probe_entity(a, e, p),
    ensures
        probe_entity(b, e, p),
{
    assert(probe_entity(b, e, p)) by {
        assert(a.components.devices.children@.contains_key(e));
        assert forall|j: int|
            0 <= j < p.partitions@.len() implies child_matches_part(
            b,
            #[trigger] b.components.devices.children@[e]@[j],
            p,
            j,
        ) by {
            let c = a.components.devices.children@[e]@[j];
            assert(child_matches_part(a, c, p, j));
            assert(b.components.devices.children@[e]@[j] == c);
            assert(a.components.devices.devices@.contains_key(c.id));
            assert(a.components.devices.partitions@.contains_key(c.id));
        }
        match p.variant {
            DeviceVariant::Loopback(backing) => {
                assert(a.components.devices.loopbacks@.contains_key(e));
            },
            DeviceVariant::DevMap(map_name) => {
                assert(a.components.devices.device_maps@.contains_key(e));
            },
            DeviceVariant::Physical(table) => {
                assert(a.components.devices.disks@.contains_key(e));
                if table is Some {
                    assert(a.components.devices.tables@.contains_key(e));
                }
            },
        }
    }
}

/// A probe's image survives any extension of the world.
pub proof fn lemma_probe_preserved(a: DiskManager, b: DiskManager, p: ProbeInfo)
    requires
        scan_extends(a, b),
        probe_materialized(a, p),
    ensures
        probe_materialized(b, p),
{
    let e = choose|e: u64|
        #[trigger] a.components.devices.devices@.contains_key(e) && probe_entity(a, e, p);
    lemma_probe_entity_preserved(a, b, e, p);
    assert(b.components.devices.devices@.contains_key(e) && probe_entity(b, e, p));
}

/// The exact image survives an extension that leaves every existing
/// children list untouched.
pub proof fn lemma_probe_exact_preserved(a: DiskManager, b: DiskManager, p: ProbeInfo)
    requires
        scan_extends(a, b),
        forall|k: u64|
            #[trigger] a.components.devices.children@.contains_key(k)
                ==> b.components.devices.children@[k] == a.components.devices.children@[k],
        probe_materialized_exact(a, p),
    ensures
        probe_materialized_exact(b, p),
{
    let e = choose|e: u64|
        #[trigger] a.components.devices.devices@.contains_key(e) && probe_entity(a, e, p)
            && a.components.devices.children@[e]@.len() == p.partitions@.len();
    lemma_probe_entity_preserved(a, b, e, p);
    assert(b.components.devices.devices@.contains_key(e) && probe_entity(b, e, p)
        && b.components.devices.children@[e]@.len() == p.partitions@.len());
}

/// Extension composes: growing the world twice still keeps everything of
/// the first world.
pub proof fn lemma_scan_extends_trans(a: DiskManager, b: DiskManager, c: DiskManager)
    requires
        scan_extends(a, b),
        scan_extends(b, c),
    ensures
        scan_extends(a, c),
{
    assert forall|k: u64|
        #[trigger] a.components.devices.children@.contains_key(
            k,
        ) implies c.components.devices.children@.contains_key(k)
        && c.components.devices.children@[k]@.len() >= a.components.devices.children@[k]@.len() && (
    forall|j: int|
        0 <= j < a.components.devices.children@[k]@.len()
            ==> c.components.devices.children@[k]@[j]
            == #[trigger] a.components.devices.children@[k]@[j]) by {
        assert(b.components.devices.children@.contains_key(k));
    }
}

/// The characters after the last slash of `s`; all of `s` when it has
/// none.
pub open spec fn spec_file_name(s: Seq<char>) -> Seq<char> {
    if exists|i: int| 0 <= i < s.len() && s[i] == '/' {
        let cut = choose|i: int|
            0 <= i < s.len() && s[i] == '/' && forall|j: int| i < j < s.len() ==> s[j] != '/';
        s.subrange(cut + 1, s.len() as int)
    } else {
        s
    }
}

/// Reads the file name off a path: everything after its last slash.
pub fn file_name_of(s: &str) -> (r: String)
    ensures
        r@ == spec_file_name(s@),
{
    let n = s.unicode_len();
    let mut cut: usize = 0;
    let mut found = false;
    let mut i: usize = 0;
    while i < n
        invariant
            n == s@.len(),
            i <= n,
            found ==> cut < i && s@[cut as int] == '/' && (forall|j: int|
                cut < j < i ==> s@[j] != '/'),
            !found ==> forall|j: int| 0 <= j < i ==> s@[j] != '/',
        decreases n - i,
    {
        if s.get_char(i) == '/' {
            cut = i;
            found = true;
        }
        i = i + 1;
    }
    if found {
        let tail = s.substring_char(cut + 1, n);
        proof {
            let w = choose|w: int|
                0 <= w < s@.len() && s@[w] == '/' && forall|j: int|
                    w < j < s@.len() ==> s@[j] != '/';
            assert(w == cut as int) by {
                if w < cut {
                    assert(s@[cut as int] == '/');
                }
                if w > cut {
                    assert(s@[w] != '/');
                }
            }
            assert(tail@ =~= spec_file_name(s@));
        }
        String::from_str(tail)
    } else {
        proof {
            assert(spec_file_name(s@) == s@);
        }
        String::from_str(s)
    }
}

impl DiskManager {
    /// Builds the world afresh from probe results: one entity per device
    /// and per partition, classified as the probe reports, with parent and
    /// LVM edges drawn afterwards. The staged state is left empty; a world
    /// built here carries no marks.
    pub fn scan(
        &mut self,
        probes: &Vec<ProbeInfo>,
        slaves: &Vec<(String, Vec<String>)>,
        vgs: &Vec<VgInfo>,
        solo_pvs: &Vec<(u32, LvmPv)>,
    )
        requires
            old(self).wf(),
            forall|i: int| 0 <= i < probes@.len() ==> probe_wf(#[trigger] probes@[i]),
            old(self).entities.next_device + probe_count(probes@) <= u64::MAX,
            old(self).entities.next_vg + vgs@.len() <= u64::MAX,
        ensures
            final(self).wf(),
            final(self).components.queued_changes.is_empty(),
            final(self).flags == old(self).flags,
            forall|i: int|
                0 <= i < probes@.len() ==> probe_materialized(
                    *final(self),
                    #[trigger] probes@[i],
                ),
            // Each children list is exactly the probe's partitions, then
            // whatever the slave listings drew under the device.
            forall|i: int|
                0 <= i < probes@.len() ==> probe_materialized_scanned(
                    *final(self),
                    slaves@,
                    #[trigger] probes@[i],
                ),
            forall|k: u64|
                luks_partition(*final(self), k)
                    ==> final(self).components.devices.luks@.contains_key(k),
            // A children list belongs to a probe's image, or to a device
            // the slave listings name as somebody's slave.
            forall|k: u64|
                #[trigger] final(self).components.devices.children@.contains_key(k) ==> (exists|
                    a: int,
                |
                    0 <= a < probes@.len() && probe_entity(
                        *final(self),
                        k,
                        #[trigger] probes@[a],
                    )) || slave_named(final(self).components.devices.devices@, slaves@, k),
            // The registry holds exactly one entity per probe and per
            // listed partition, nothing else.
            final(self).entities.next_device as int == old(self).entities.next_device as int
                + probe_count(probes@),
            forall|k: u64|
                #[trigger] final(self).dev_alive(k) <==> (old(self).entities.next_device <= k
                    < final(self).entities.next_device),
    {
        self.clear();
        self.scan_devices(probes);
        let ghost w1 = *self;
        self.associate_children(slaves);
        let ghost w2 = *self;
        self.associate_lvm_devices(vgs, solo_pvs);
        let ghost w3 = *self;
        self.mark_luks();
        proof {
            assert(scan_extends(w3, *self));
            assert forall|i: int|
                0 <= i < probes@.len() implies probe_materialized(
                *self,
                #[trigger] probes@[i],
            ) by {
                lemma_probe_preserved(w1, w2, probes@[i]);
                lemma_probe_preserved(w2, w3, probes@[i]);
                lemma_probe_preserved(w3, *self, probes@[i]);
            }
            assert forall|k: u64|
                #[trigger] self.dev_alive(k) <==> (old(self).entities.next_device <= k
                    < self.entities.next_device) by {
                assert(self.dev_alive(k) == w1.dev_alive(k));
            }
            assert forall|i: int|
                0 <= i < probes@.len() implies probe_materialized_scanned(
                *self,
                slaves@,
                #[trigger] probes@[i],
            ) by {
                let p = probes@[i];
                let e = choose|e: u64|
                    #[trigger] w1.components.devices.devices@.contains_key(e) && probe_entity(
                        w1,
                        e,
                        p,
                    ) && w1.components.devices.children@[e]@.len() == p.partitions@.len();
                lemma_probe_entity_preserved(w1, w2, e, p);
                assert(w2.components.devices.devices@.contains_key(e));
                lemma_probe_entity_preserved(w2, w3, e, p);
                assert(w3.components.devices.devices@.contains_key(e));
                lemma_probe_entity_preserved(w3, *self, e, p);
                assert(self.components.devices.children@[e]
                    == w2.components.devices.children@[e]);
                assert(self.components.devices.devices@ == w2.components.devices.devices@);
                assert forall|j: int|
                    p.partitions@.len() <= j
                        < self.components.devices.children@[e]@.len() implies slave_edge(
                    self.components.devices.devices@,
                    slaves@,
                    e,
                    #[trigger] self.components.devices.children@[e]@[j],
                ) by {
                    assert(w2.components.devices.children@.contains_key(e));
                    assert(!(w1.components.devices.children@.contains_key(e) && j
                        < w1.components.devices.children@[e]@.len()));
                    assert(w2.components.devices.children@[e]@[j]
                        == self.components.devices.children@[e]@[j]);
                    assert(slave_edge(
                        w2.components.devices.devices@,
                        slaves@,
                        e,
                        w2.components.devices.children@[e]@[j],
                    ));
                }
                assert(self.components.devices.devices@.contains_key(e) && probe_entity(
                    *self,
                    e,
                    p,
                ));
            }
            assert forall|k: u64|
                #[trigger] self.components.devices.children@.contains_key(k) implies (exists|
                a: int,
            |
                0 <= a < probes@.len() && probe_entity(*self, k, #[trigger] probes@[a]))
                || slave_named(self.components.devices.devices@, slaves@, k) by {
                assert(self.components.devices.children@ == w2.components.devices.children@);
                assert(self.components.devices.devices@ == w2.components.devices.devices@);
                assert(w2.components.devices.children@.contains_key(k));
                if w1.components.devices.children@.contains_key(k) {
                    let a = choose|a: int|
                        0 <= a < probes@.len() && probe_entity(w1, k, #[trigger] probes@[a]);
                    lemma_scan_extends_trans(w1, w2, w3);
                    lemma_scan_extends_trans(w1, w3, *self);
                    lemma_probe_entity_preserved(w1, *self, k, probes@[a]);
                    assert(0 <= a < probes@.len() && probe_entity(*self, k, probes@[a]));
                } else {
                    assert(slave_named(w2.components.devices.devices@, slaves@, k));
                }
            }
        }
    }

    /// Materializes every probed device and its partitions as entities
    /// with their committed components: the device record and, as the
    /// probe classified it, the loopback, device-map or disk component,
    /// its table, the whole-device file system, and one entity per
    /// partition, pushed into the device's children in listing order.
    #[verifier::rlimit(80)]
    fn scan_devices(&mut self, probes: &Vec<ProbeInfo>)
        requires
            old(self).wf(),
            forall|i: int| 0 <= i < probes@.len() ==> probe_wf(#[trigger] probes@[i]),
            old(self).entities.next_device + probe_count(probes@) <= u64::MAX,
        ensures
            final(self).wf(),
            final(self).components.queued_changes == old(self).components.queued_changes,
            final(self).components.vgs == old(self).components.vgs,
            final(self).entities.vgs == old(self).entities.vgs,
            final(self).entities.next_vg == old(self).entities.next_vg,
            final(self).flags == old(self).flags,
            forall|i: int|
                0 <= i < probes@.len() ==> probe_materialized_exact(
                    *final(self),
                    #[trigger] probes@[i],
                ),
            // The registry is exactly one entity per probe and per listed
            // partition, on top of what was already alive.
            final(self).entities.next_device as int == old(self).entities.next_device as int
                + probe_count(probes@),
            forall|k: u64|
                #[trigger] final(self).dev_alive(k) <==> old(self).dev_alive(k) || (old(
                    self,
                ).entities.next_device <= k < final(self).entities.next_device),
            // Only the probes' images gain children lists here.
            forall|k: u64|
                #[trigger] final(self).components.devices.children@.contains_key(k) ==> old(
                    self,
                ).components.devices.children@.contains_key(k) || exists|a: int|
                    0 <= a < probes@.len() && probe_entity(
                        *final(self),
                        k,
                        #[trigger] probes@[a],
                    ),
    {
        let ghost w0 = *self;
        let n = probes.len();
        proof {
            assert(probes@.subrange(0, n as int) =~= probes@);
        }
        let mut i: usize = 0;
        while i < n
            invariant
                self.wf(),
                n == probes@.len(),
                i <= n,
                forall|a: int| 0 <= a < probes@.len() ==> probe_wf(#[trigger] probes@[a]),
                self.entities.next_device + probe_count(probes@.subrange(i as int, n as int))
                    <= u64::MAX,
                self.components.queued_changes == w0.components.queued_changes,
                self.components.vgs == w0.components.vgs,
                self.entities.vgs == w0.entities.vgs,
                self.entities.next_vg == w0.entities.next_vg,
                self.flags == w0.flags,
                forall|a: int|
                    0 <= a < i ==> probe_materialized_exact(*self, #[trigger] probes@[a]),
                self.entities.next_device as int == w0.entities.next_device as int + probe_count(
                    probes@.subrange(0, i as int),
                ),
                forall|k: u64|
                    #[trigger] self.dev_alive(k) <==> w0.dev_alive(k) || (
                    w0.entities.next_device <= k < self.entities.next_device),
                forall|k: u64|
                    #[trigger] self.components.devices.children@.contains_key(k)
                        ==> w0.components.devices.children@.contains_key(k) || exists|a: int|
                        0 <= a < i && probe_entity(*self, k, #[trigger] probes@[a]),
            decreases n - i,
        {
            proof {
                lemma_probe_count_split(probes@, i as int);
                lemma_probe_count_nonneg(probes@.subrange(0, i as int));
                lemma_probe_count_nonneg(probes@.subrange(i as int + 1, n as int));
            }
            let info = &probes[i];
            let supports = match &info.variant {
                DeviceVariant::Physical(_) => true,
                _ => false,
            };
            let ghost w_pre = *self;
            let whole = self.entities.insert_device(
                EntityFlags { supports_table: supports, ..EntityFlags::empty() },
            );
            proof {
                crate::world::lemma_wf_new_device(w_pre, *self);
                assert(probe_wf(*info));
            }
            let ghost w_ok0 = *self;
            self.components.devices.devices.insert(
                whole.id,
                Device {
                    name: info.device.clone(),
                    path: info.path.clone(),
                    sectors: info.sectors,
                    logical_sector_size: info.logical_sector_size,
                    physical_sector_size: info.physical_sector_size,
                },
            );
            match &info.variant {
                DeviceVariant::Loopback(backing) => {
                    self.components.devices.loopbacks.insert(whole.id, backing.clone());
                },
                DeviceVariant::DevMap(map_name) => {
                    self.components.devices.device_maps.insert(whole.id, map_name.clone());
                },
                DeviceVariant::Physical(table) => {
                    self.components.devices.disks.insert(whole.id, Disk { serial: String::new() });
                    if let Some(kind) = table {
                        self.components.devices.tables.insert(whole.id, *kind);
                    }
                },
            }
            if let Some(fstype) = &info.fstype {
                let parsed = match FileSystem::from_str(fstype.as_str()) {
                    Ok(fs) => Some(fs),
                    Err(()) => None,
                };
                self.components.devices.partitions.insert(
                    whole.id,
                    Partition {
                        offset: 0,
                        number: 0,
                        filesystem: parsed,
                        partuuid: None,
                        partlabel: None,
                        mbr_variant: PartitionType::Primary,
                        uuid: crate::lvmbus::clone_opt(&info.uuid),
                    },
                );
            }
            proof {
                assert(self.wf());
                assert forall|k: u64|
                    #[trigger] w_pre.dev_alive(k) implies self.dev_alive(k) && k != whole.id by {
                    assert(!w_pre.dev_alive(whole.id));
                }
                assert(scan_extends(w_pre, *self)) by {
                    assert forall|k: u64|
                        #[trigger] w_pre.components.devices.devices@.contains_key(
                            k,
                        ) implies self.components.devices.devices@.contains_key(k)
                        && self.components.devices.devices@[k]
                        == w_pre.components.devices.devices@[k] by {
                        assert(w_pre.dev_alive(k));
                    }
                    assert forall|k: u64|
                        #[trigger] w_pre.components.devices.partitions@.contains_key(
                            k,
                        ) implies self.components.devices.partitions@.contains_key(k)
                        && self.components.devices.partitions@[k]
                        == w_pre.components.devices.partitions@[k] by {
                        assert(w_pre.dev_alive(k));
                    }
                    assert forall|k: u64|
                        #[trigger] w_pre.components.devices.loopbacks@.contains_key(
                            k,
                        ) implies self.components.devices.loopbacks@.contains_key(k)
                        && self.components.devices.loopbacks@[k]
                        == w_pre.components.devices.loopbacks@[k] by {
                        assert(w_pre.dev_alive(k));
                    }
                    assert forall|k: u64|
                        #[trigger] w_pre.components.devices.device_maps@.contains_key(
                            k,
                        ) implies self.components.devices.device_maps@.contains_key(k)
                        && self.components.devices.device_maps@[k]
                        == w_pre.components.devices.device_maps@[k] by {
                        assert(w_pre.dev_alive(k));
                    }
                    assert forall|k: u64|
                        #[trigger] w_pre.components.devices.disks@.contains_key(
                            k,
                        ) implies self.components.devices.disks@.contains_key(k) by {
                        assert(w_pre.dev_alive(k));
                    }
                    assert forall|k: u64|
                        #[trigger] w_pre.components.devices.tables@.contains_key(
                            k,
                        ) implies self.components.devices.tables@.contains_key(k)
                        && self.components.devices.tables@[k]
                        == w_pre.components.devices.tables@[k] by {
                        assert(w_pre.dev_alive(k));
                    }
                }
                assert(device_matches_probe(
                    self.components.devices.devices@[whole.id],
                    probes@[i as int],
                ));
                assert(variant_classified(*self, whole.id, probes@[i as int]));
                assert(whole_fs_recorded(*self, whole.id, probes@[i as int]));
            }

            let mut kids: Vec<DeviceEntity> = Vec::new();
            let pn = info.partitions.len();
            let mut j: usize = 0;
            while j < pn
                invariant
                    self.wf(),
                    pn == info.partitions@.len(),
                    j <= pn,
                    self.dev_alive(whole.id),
                    self.components.devices.devices@.contains_key(whole.id),
                    probe_wf(*info),
                    self.entities.next_device + (pn - j) + probe_count(
                        probes@.subrange(i as int + 1, n as int),
                    ) <= u64::MAX,
                    probe_count(probes@.subrange(i as int + 1, n as int)) >= 0,
                    forall|a: int|
                        0 <= a < kids@.len() ==> self.dev_alive((#[trigger] kids@[a]).id)
                            && self.components.devices.devices@.contains_key(kids@[a].id),
                    kids@.len() == j,
                    i < n,
                    *info == probes@[i as int],
                    !w_pre.dev_alive(whole.id),
                    self.entities.next_device as int == w_pre.entities.next_device as int + 1
                        + j as int,
                    forall|k: u64|
                        #[trigger] self.dev_alive(k) <==> w_pre.dev_alive(k) || (
                        w_pre.entities.next_device <= k < self.entities.next_device),
                    self.components.devices.children == w_pre.components.devices.children,
                    scan_extends(w_pre, *self),
                    device_matches_probe(
                        self.components.devices.devices@[whole.id],
                        probes@[i as int],
                    ),
                    variant_classified(*self, whole.id, probes@[i as int]),
                    whole_fs_recorded(*self, whole.id, probes@[i as int]),
                    forall|a: int|
                        0 <= a < kids@.len() ==> child_matches_part(
                            *self,
                            #[trigger] kids@[a],
                            probes@[i as int],
                            a,
                        ),
                    self.components.queued_changes == w0.components.queued_changes,
                    self.components.vgs == w0.components.vgs,
                    self.entities.vgs == w0.entities.vgs,
                    self.entities.next_vg == w0.entities.next_vg,
                    self.flags == w0.flags,
                decreases pn - j,
            {
                let part = &info.partitions[j];
                let ghost w_prek = *self;
                let child = self.entities.insert_device(EntityFlags::empty());
                let ghost w_ok = *self;
                proof {
                    crate::world::lemma_wf_new_device(w_prek, *self);
                    assert(info.partitions@[j as int].sectors * info.logical_sector_size
                        <= u64::MAX);
                }
                self.components.devices.devices.insert(
                    child.id,
                    Device {
                        name: part.device.clone(),
                        path: part.path.clone(),
                        sectors: part.sectors,
                        logical_sector_size: info.logical_sector_size,
                        physical_sector_size: info.physical_sector_size,
                    },
                );
                let parsed = match &part.fstype {
                    Some(t) => match FileSystem::from_str(t.as_str()) {
                        Ok(fs) => Some(fs),
                        Err(()) => None,
                    },
                    None => None,
                };
                self.components.devices.partitions.insert(
                    child.id,
                    Partition {
                        offset: part.offset,
                        number: part.no,
                        filesystem: parsed,
                        partuuid: crate::lvmbus::clone_opt(&part.partuuid),
                        partlabel: crate::lvmbus::clone_opt(&part.partlabel),
                        mbr_variant: PartitionType::Primary,
                        uuid: crate::lvmbus::clone_opt(&part.uuid),
                    },
                );
                let ghost kb = kids@;
                kids.push(child);
                proof {
                    assert(self.components.devices.children == w_ok.components.devices.children);
                    assert(self.entities == w_ok.entities);
                    assert forall|k: u64|
                        #[trigger] self.components.devices.children@.contains_key(
                            k,
                        ) implies self.dev_alive(k) by {
                        assert(w_ok.components.devices.children@.contains_key(k));
                        assert(w_ok.dev_alive(k));
                    }
                    assert(self.wf());
                    assert forall|k: u64|
                        #[trigger] w_prek.dev_alive(k) implies self.dev_alive(k) && k
                        != child.id by {
                        assert(!w_prek.dev_alive(child.id));
                    }
                    assert(scan_extends(w_prek, *self)) by {
                        assert forall|k: u64|
                            #[trigger] w_prek.components.devices.devices@.contains_key(
                                k,
                            ) implies self.components.devices.devices@.contains_key(k)
                            && self.components.devices.devices@[k]
                            == w_prek.components.devices.devices@[k] by {
                            assert(w_prek.dev_alive(k));
                        }
                        assert forall|k: u64|
                            #[trigger] w_prek.components.devices.partitions@.contains_key(
                                k,
                            ) implies self.components.devices.partitions@.contains_key(k)
                            && self.components.devices.partitions@[k]
                            == w_prek.components.devices.partitions@[k] by {
                            assert(w_prek.dev_alive(k));
                        }
                    }
                    lemma_scan_extends_trans(w_pre, w_prek, *self);
                    assert(whole.id != child.id) by {
                        assert(w_prek.dev_alive(whole.id));
                    }
                    assert(device_matches_probe(
                        self.components.devices.devices@[whole.id],
                        probes@[i as int],
                    ));
                    assert(variant_classified(*self, whole.id, probes@[i as int])) by {
                        assert(variant_classified(w_prek, whole.id, probes@[i as int]));
                    }
                    assert(whole_fs_recorded(*self, whole.id, probes@[i as int])) by {
                        assert(whole_fs_recorded(w_prek, whole.id, probes@[i as int]));
                        if probes@[i as int].fstype is Some {
                            assert(w_prek.components.devices.partitions@.contains_key(whole.id));
                        }
                    }
                    assert forall|k: u64|
                        #[trigger] self.dev_alive(k) <==> w_pre.dev_alive(k) || (
                    w_pre.entities.next_device <= k < self.entities.next_device) by {
                        assert(w_prek.dev_alive(k) <==> w_pre.dev_alive(k) || (
                        w_pre.entities.next_device <= k < w_prek.entities.next_device));
                        assert(self.dev_alive(k) <==> w_prek.dev_alive(k) || k == child.id);
                    }
                    assert forall|a: int|
                        0 <= a < kids@.len() implies child_matches_part(
                        *self,
                        #[trigger] kids@[a],
                        probes@[i as int],
                        a,
                    ) by {
                        if a < kids@.len() - 1 {
                            assert(kids@[a] == kb[a]);
                            assert(child_matches_part(w_prek, kb[a], probes@[i as int], a));
                            assert(w_prek.dev_alive(kb[a].id));
                            assert(w_prek.components.devices.devices@.contains_key(kb[a].id));
                            assert(w_prek.components.devices.partitions@.contains_key(kb[a].id));
                        } else {
                            assert(kids@[a] == child);
                            assert(a == j as int);
                            assert(*info == probes@[i as int]);
                            assert(*part == info.partitions@[j as int]);
                            assert(parsed == probed_filesystem(part.fstype));
                            assert(self.components.devices.devices@.contains_key(child.id));
                            assert(self.components.devices.devices@[child.id] == (Device {
                                name: part.device,
                                path: part.path,
                                sectors: part.sectors,
                                logical_sector_size: info.logical_sector_size,
                                physical_sector_size: info.physical_sector_size,
                            }));
                            assert(self.components.devices.partitions@.contains_key(child.id));
                            assert(self.components.devices.partitions@[child.id] == (Partition {
                                offset: part.offset,
                                number: part.no,
                                filesystem: probed_filesystem(part.fstype),
                                partuuid: part.partuuid,
                                partlabel: part.partlabel,
                                mbr_variant: PartitionType::Primary,
                                uuid: part.uuid,
                            }));
                        }
                    }
                }
                j = j + 1;
            }
            let ghost w_mid = *self;
            self.components.devices.children.insert(whole.id, kids);
            proof {
                assert(self.entities == w_mid.entities);
                assert forall|k: u64|
                    #[trigger] self.components.devices.children@.contains_key(
                        k,
                    ) implies self.dev_alive(k) by {
                    if k != whole.id {
                        assert(w_mid.components.devices.children@.contains_key(k));
                        assert(w_mid.dev_alive(k));
                    } else {
                        assert(w_mid.dev_alive(whole.id));
                    }
                }
                assert(self.wf());
                let ghost gp = probes@[i as int];
                assert(self.components.devices.children@[whole.id]@ == kids@);
                assert(probe_entity(*self, whole.id, gp)) by {
                    assert(device_matches_probe(
                        self.components.devices.devices@[whole.id],
                        gp,
                    ));
                    assert(variant_classified(*self, whole.id, gp)) by {
                        assert(variant_classified(w_mid, whole.id, gp));
                    }
                    assert(whole_fs_recorded(*self, whole.id, gp)) by {
                        assert(whole_fs_recorded(w_mid, whole.id, gp));
                        if gp.fstype is Some {
                            assert(w_mid.components.devices.partitions@.contains_key(whole.id));
                        }
                    }
                    assert forall|j2: int|
                        0 <= j2 < gp.partitions@.len() implies child_matches_part(
                        *self,
                        #[trigger] self.components.devices.children@[whole.id]@[j2],
                        gp,
                        j2,
                    ) by {
                        assert(self.components.devices.children@[whole.id]@[j2] == kids@[j2]);
                        assert(child_matches_part(w_mid, kids@[j2], gp, j2));
                    }
                }
                assert(scan_extends(w_mid, *self)) by {
                    assert forall|k: u64|
                        #[trigger] w_mid.components.devices.children@.contains_key(
                            k,
                        ) implies self.components.devices.children@.contains_key(k)
                        && self.components.devices.children@[k]@.len()
                        >= w_mid.components.devices.children@[k]@.len() && (forall|j2: int|
                        0 <= j2 < w_mid.components.devices.children@[k]@.len()
                            ==> self.components.devices.children@[k]@[j2]
                            == #[trigger] w_mid.components.devices.children@[k]@[j2]) by {
                        assert(w_pre.components.devices.children@.contains_key(k));
                        assert(w_pre.dev_alive(k));
                        assert(k != whole.id);
                    }
                }
                lemma_scan_extends_trans(w_pre, w_mid, *self);
                assert forall|a: int|
                    0 <= a < i + 1 implies probe_materialized_exact(
                    *self,
                    #[trigger] probes@[a],
                ) by {
                    if a < i {
                        assert forall|k: u64|
                            #[trigger] w_pre.components.devices.children@.contains_key(
                                k,
                            ) implies self.components.devices.children@[k]
                            == w_pre.components.devices.children@[k] by {
                            assert(w_pre.dev_alive(k));
                            assert(k != whole.id);
                            assert(w_mid.components.devices.children@[k]
                                == w_pre.components.devices.children@[k]);
                        }
                        lemma_probe_exact_preserved(w_pre, *self, probes@[a]);
                    } else {
                        assert(self.components.devices.devices@.contains_key(whole.id)
                            && probe_entity(*self, whole.id, probes@[a])
                            && self.components.devices.children@[whole.id]@.len()
                            == probes@[a].partitions@.len());
                    }
                }
                lemma_probe_count_snoc(probes@, i as int);
                assert forall|k: u64|
                    #[trigger] self.components.devices.children@.contains_key(
                        k,
                    ) implies w0.components.devices.children@.contains_key(k) || exists|a: int|
                    0 <= a < i + 1 && probe_entity(*self, k, #[trigger] probes@[a]) by {
                    if k == whole.id {
                        assert(probe_entity(*self, k, probes@[i as int]));
                        assert((i as int) < i + 1 && probe_entity(*self, k, probes@[i as int]));
                    } else {
                        assert(w_mid.components.devices.children@.contains_key(k));
                        assert(w_pre.components.devices.children@.contains_key(k));
                        if !w0.components.devices.children@.contains_key(k) {
                            let a = choose|a: int|
                                0 <= a < i && probe_entity(w_pre, k, #[trigger] probes@[a]);
                            lemma_probe_entity_preserved(w_pre, *self, k, probes@[a]);
                            assert(0 <= a < i + 1 && probe_entity(*self, k, probes@[a]));
                        }
                    }
                }
                assert forall|k: u64|
                    #[trigger] self.dev_alive(k) <==> w0.dev_alive(k) || (
                w0.entities.next_device <= k < self.entities.next_device) by {
                    assert(w_pre.dev_alive(k) <==> w0.dev_alive(k) || (w0.entities.next_device
                        <= k < w_pre.entities.next_device));
                    assert(w_mid.dev_alive(k) <==> w_pre.dev_alive(k) || (
                    w_pre.entities.next_device <= k < w_mid.entities.next_device));
                    assert(self.dev_alive(k) == w_mid.dev_alive(k));
                }
            }
            i = i + 1;
        }
    }

    /// Draws the parent edges that the slave listings describe: for each
    /// listed device, every named slave gains it as a child.
    fn associate_children(&mut self, slaves: &Vec<(String, Vec<String>)>)
        requires
            old(self).wf(),
        ensures
            final(self).wf(),
            final(self).components.queued_changes == old(self).components.queued_changes,
            final(self).components.vgs == old(self).components.vgs,
            final(self).entities == old(self).entities,
            final(self).flags == old(self).flags,
            scan_extends(*old(self), *final(self)),
            final(self).components.devices.devices == old(self).components.devices.devices,
            // Whatever was drawn under a parent beyond its old list came
            // from the slave listings.
            forall|k: u64, j: int|
                #![trigger final(self).components.devices.children@[k]@[j]]
                ({
                    let cn = final(self).components.devices.children@;
                    let co = old(self).components.devices.children@;
                    cn.contains_key(k) && 0 <= j < cn[k]@.len() && !(co.contains_key(k) && j
                        < co[k]@.len()) ==> slave_edge(
                        final(self).components.devices.devices@,
                        slaves@,
                        k,
                        cn[k]@[j],
                    )
                }),
            forall|k: u64|
                #[trigger] final(self).components.devices.children@.contains_key(k) ==> old(
                    self,
                ).components.devices.children@.contains_key(k) || slave_named(
                    final(self).components.devices.devices@,
                    slaves@,
                    k,
                ),
    {
        let ghost w0 = *self;
        let n = slaves.len();
        let mut i: usize = 0;
        while i < n
            invariant
                self.wf(),
                n == slaves@.len(),
                i <= n,
                self.components.queued_changes == w0.components.queued_changes,
                self.components.vgs == w0.components.vgs,
                self.entities == w0.entities,
                self.flags == w0.flags,
                scan_extends(w0, *self),
                self.components.devices.devices == w0.components.devices.devices,
                forall|k: u64, j: int|
                    self.components.devices.children@.contains_key(k) && 0 <= j
                        < self.components.devices.children@[k]@.len() && !(
                    w0.components.devices.children@.contains_key(k) && j
                        < w0.components.devices.children@[k]@.len()) ==> slave_edge(
                        self.components.devices.devices@,
                        slaves@,
                        k,
                        #[trigger] self.components.devices.children@[k]@[j],
                    ),
                forall|k: u64|
                    #[trigger] self.components.devices.children@.contains_key(k)
                        ==> w0.components.devices.children@.contains_key(k) || slave_named(
                        self.components.devices.devices@,
                        slaves@,
                        k,
                    ),
            decreases n - i,
        {
            let (name, slave_names) = &slaves[i];
            if let Some(child) = self.find_device_by_name(name.as_str()) {
                let sn = slave_names.len();
                let mut j: usize = 0;
                while j < sn
                    invariant
                        self.wf(),
                                sn == slave_names@.len(),
                        j <= sn,
                        self.dev_alive(child.id),
                        self.components.devices.devices@.contains_key(child.id),
                        self.components.queued_changes == w0.components.queued_changes,
                        self.components.vgs == w0.components.vgs,
                        self.entities == w0.entities,
                        self.flags == w0.flags,
                        scan_extends(w0, *self),
                        self.components.devices.devices == w0.components.devices.devices,
                        i < n,
                        n == slaves@.len(),
                        (*name, *slave_names) == slaves@[i as int],
                        self.components.devices.devices@.contains_key(child.id),
                        self.components.devices.devices@[child.id].name@ == name@,
                        forall|k: u64, j2: int|
                            self.components.devices.children@.contains_key(k) && 0 <= j2
                                < self.components.devices.children@[k]@.len() && !(
                            w0.components.devices.children@.contains_key(k) && j2
                                < w0.components.devices.children@[k]@.len()) ==> slave_edge(
                                self.components.devices.devices@,
                                slaves@,
                                k,
                                #[trigger] self.components.devices.children@[k]@[j2],
                            ),
                        forall|k: u64|
                            #[trigger] self.components.devices.children@.contains_key(k)
                                ==> w0.components.devices.children@.contains_key(k)
                                || slave_named(
                                self.components.devices.devices@,
                                slaves@,
                                k,
                            ),
                    decreases sn - j,
                {
                    if let Some(parent) = self.find_device_by_name(slave_names[j].as_str()) {
                        let ghost wb = *self;
                        self.push_child(parent, child);
                        proof {
                            lemma_scan_extends_trans(w0, wb, *self);
                            let ghost plist = self.components.devices.children@[parent.id]@;
                            assert(slave_edge(
                                self.components.devices.devices@,
                                slaves@,
                                parent.id,
                                child,
                            )) by {
                                assert(slaves@[i as int].0 == *name);
                                assert(slaves@[i as int].1 == *slave_names);
                                assert(slaves@[i as int].1@[j as int] == slave_names@[j as int]);
                                assert(self.components.devices.devices@
                                    == wb.components.devices.devices@);
                                assert(wb.components.devices.devices@.contains_key(parent.id)
                                    && wb.components.devices.devices@[parent.id].name@
                                    == slave_names@[j as int]@);
                                assert((i as int) < slaves@.len() && (j as int)
                                    < slaves@[i as int].1@.len()
                                    && self.components.devices.devices@.contains_key(child.id)
                                    && self.components.devices.devices@[child.id].name@
                                    == slaves@[i as int].0@
                                    && self.components.devices.devices@.contains_key(parent.id)
                                    && self.components.devices.devices@[parent.id].name@
                                    == slaves@[i as int].1@[j as int]@);
                            }
                            assert forall|k: u64|
                                #[trigger] self.components.devices.children@.contains_key(
                                    k,
                                ) implies w0.components.devices.children@.contains_key(k)
                                || slave_named(
                                self.components.devices.devices@,
                                slaves@,
                                k,
                            ) by {
                                if k == parent.id {
                                    assert((j as int) < slaves@[i as int].1@.len());
                                    assert(self.components.devices.devices@.contains_key(
                                        parent.id,
                                    ) && self.components.devices.devices@[parent.id].name@
                                        == slaves@[i as int].1@[j as int]@);
                                } else {
                                    assert(wb.components.devices.children@.contains_key(k));
                                    if !w0.components.devices.children@.contains_key(k) {
                                        assert(slave_named(
                                            wb.components.devices.devices@,
                                            slaves@,
                                            k,
                                        ));
                                        assert(self.components.devices.devices@
                                            == wb.components.devices.devices@);
                                    }
                                }
                            }
                            assert forall|k: u64, j2: int|
                                self.components.devices.children@.contains_key(k) && 0 <= j2
                                    < self.components.devices.children@[k]@.len() && !(
                            w0.components.devices.children@.contains_key(k) && j2
                                < w0.components.devices.children@[k]@.len()) implies slave_edge(
                                self.components.devices.devices@,
                                slaves@,
                                k,
                                #[trigger] self.components.devices.children@[k]@[j2],
                            ) by {
                                assert(self.components.devices.devices@
                                    == wb.components.devices.devices@);
                                if k != parent.id {
                                    assert(wb.components.devices.children@.contains_key(k));
                                    assert(self.components.devices.children@[k]
                                        == wb.components.devices.children@[k]);
                                    assert(slave_edge(
                                        wb.components.devices.devices@,
                                        slaves@,
                                        k,
                                        wb.components.devices.children@[k]@[j2],
                                    ));
                                } else {
                                    if j2 < plist.len() - 1 {
                                        assert(self.components.devices.children@[k]@[j2]
                                            == wb.components.devices.children@[k]@[j2]);
                                        assert(slave_edge(
                                            wb.components.devices.devices@,
                                            slaves@,
                                            k,
                                            wb.components.devices.children@[k]@[j2],
                                        ));
                                    } else {
                                        assert(self.components.devices.children@[k]@[j2]
                                            == child);
                                    }
                                }
                            }
                        }
                    }
                    j = j + 1;
                }
            }
            i = i + 1;
        }
    }

    /// Appends `child` to the children of `parent`, creating the list if
    /// the parent had none.
    fn push_child(&mut self, parent: DeviceEntity, child: DeviceEntity)
        requires
            old(self).wf(),
            old(self).dev_alive(parent.id),
            old(self).dev_alive(child.id),
            old(self).components.devices.devices@.contains_key(parent.id),
            old(self).components.devices.devices@.contains_key(child.id),
        ensures
            final(self).wf(),
            final(self).entities == old(self).entities,
            final(self).flags == old(self).flags,
            final(self).components.queued_changes == old(self).components.queued_changes,
            final(self).components.vgs == old(self).components.vgs,
            final(self).components.devices.devices == old(self).components.devices.devices,
            final(self).components.devices.partitions == old(self).components.devices.partitions,
            final(self).components.devices.disks == old(self).components.devices.disks,
            final(self).components.devices.device_maps == old(
                self,
            ).components.devices.device_maps,
            final(self).components.devices.loopbacks == old(self).components.devices.loopbacks,
            final(self).components.devices.luks == old(self).components.devices.luks,
            final(self).components.devices.lvs == old(self).components.devices.lvs,
            final(self).components.devices.pvs == old(self).components.devices.pvs,
            final(self).components.devices.tables == old(self).components.devices.tables,
            scan_extends(*old(self), *final(self)),
            final(self).components.devices.children@.contains_key(parent.id),
            ({
                let before = if old(self).components.devices.children@.contains_key(parent.id) {
                    old(self).components.devices.children@[parent.id]@
                } else {
                    Seq::<DeviceEntity>::empty()
                };
                final(self).components.devices.children@[parent.id]@ == before.push(child)
            }),
            forall|k: u64|
                k != parent.id ==> (#[trigger] final(self).components.devices.children@.contains_key(k)
                    <==> old(self).components.devices.children@.contains_key(k)),
            forall|k: u64|
                k != parent.id && old(self).components.devices.children@.contains_key(k)
                    ==> #[trigger] final(self).components.devices.children@[k]
                    == old(self).components.devices.children@[k],
    {
        let ghost w0 = *self;
        let mut list: Vec<DeviceEntity> = Vec::new();
        if let Some(existing) = self.components.devices.children.get(parent.id) {
            let en = existing.len();
            let mut a: usize = 0;
            while a < en
                invariant
                    self.wf(),
                    *self == w0,
                    w0.components.devices.children@.contains_key(parent.id),
                    *existing == w0.components.devices.children@[parent.id],
                    en == existing@.len(),
                    a <= en,
                    list@ == existing@.subrange(0, a as int),
                decreases en - a,
            {
                list.push(existing[a]);
                proof {
                    assert(list@ =~= existing@.subrange(0, a as int + 1));
                }
                a = a + 1;
            }
            proof {
                assert(list@ =~= existing@);
            }
        }
        list.push(child);
        let ghost lseq = list@;
        proof {
            assert forall|a: int|
                0 <= a < lseq.len() implies self.dev_alive((#[trigger] lseq[a]).id) && (
            self.dev_flags(lseq[a].id).create ==> self.components.devices.devices@.contains_key(
                lseq[a].id,
            )) by {
                if a < lseq.len() - 1 {
                    assert(w0.components.devices.children@[parent.id]@[a] == lseq[a]);
                }
            }
        }
        self.components.devices.children.insert(parent.id, list);
        proof {
            assert(self.entities == w0.entities);
            assert forall|k: u64|
                #[trigger] self.components.devices.children@.contains_key(k) implies self
                .dev_alive(k) && (self.dev_flags(k).create
                ==> self.components.devices.devices@.contains_key(k)) by {
                if k != parent.id {
                    assert(w0.components.devices.children@.contains_key(k));
                    assert(w0.dev_alive(k));
                } else {
                    assert(w0.dev_alive(parent.id));
                    assert(w0.components.devices.devices@.contains_key(parent.id));
                }
            }
            assert forall|p2: u64, i2: int|
                self.components.devices.children@.contains_key(p2) && 0 <= i2
                    < self.components.devices.children@[p2]@.len() implies {
                let d = #[trigger] self.components.devices.children@[p2]@[i2];
                &&& self.dev_alive(d.id)
                &&& (self.dev_flags(d.id).create
                    ==> self.components.devices.devices@.contains_key(d.id))
            } by {
                if p2 == parent.id {
                    assert(self.components.devices.children@[p2]@ == lseq);
                } else {
                    assert(w0.components.devices.children@.contains_key(p2));
                    assert(w0.dev_alive(w0.components.devices.children@[p2]@[i2].id));
                }
            }
            assert(self.wf());
            assert forall|k: u64|
                #[trigger] w0.components.devices.children@.contains_key(
                    k,
                ) implies self.components.devices.children@.contains_key(k)
                && self.components.devices.children@[k]@.len()
                >= w0.components.devices.children@[k]@.len() && (forall|j: int|
                0 <= j < w0.components.devices.children@[k]@.len()
                    ==> self.components.devices.children@[k]@[j]
                    == #[trigger] w0.components.devices.children@[k]@[j]) by {
                if k == parent.id {
                    assert(self.components.devices.children@[k]@ == lseq);
                }
            }
            assert(scan_extends(w0, *self));
        }
    }

    /// The first entity whose device record carries the kernel name.
    fn find_device_by_name(&self, name: &str) -> (r: Option<DeviceEntity>)
        requires
            self.wf(),
        ensures
            r matches Some(e) ==> self.dev_alive(e.id)
                && self.components.devices.devices@.contains_key(e.id)
                && self.components.devices.devices@[e.id].name@ == name@,
    {
        let devices = &self.components.devices.devices;
        let n = devices.len();
        let mut i: usize = 0;
        while i < n
            invariant
                self.wf(),
                *devices == self.components.devices.devices,
                n == devices.keys_seq().len(),
                i <= n,
            decreases n - i,
        {
            let d = devices.val_at(i);
            if str_eq(d.name.as_str(), name) {
                let k = devices.key_at(i);
                return Some(DeviceEntity { id: k });
            }
            i = i + 1;
        }
        None
    }

    /// Attaches volume-group identity: one entity per group whose
    /// geometry can be represented — a positive extent size in whole
    /// 512-byte sectors, no more free extents than exist, the pool's byte
    /// size within sixty-four bits — each LV matched to the device map
    /// sharing its path's file name, each PV to the device map named like
    /// its path's file name. A PV already matched keeps its first group.
    fn associate_lvm_devices(&mut self, vgs: &Vec<VgInfo>, solo_pvs: &Vec<(u32, LvmPv)>)
        requires
            old(self).wf(),
            old(self).entities.next_vg + vgs@.len() <= u64::MAX,
        ensures
            final(self).wf(),
            final(self).components.queued_changes == old(self).components.queued_changes,
            final(self).flags == old(self).flags,
            final(self).components.devices.devices == old(self).components.devices.devices,
            final(self).components.devices.partitions == old(self).components.devices.partitions,
            final(self).components.devices.children == old(self).components.devices.children,
            final(self).components.devices.disks == old(self).components.devices.disks,
            final(self).components.devices.device_maps == old(
                self,
            ).components.devices.device_maps,
            final(self).components.devices.loopbacks == old(self).components.devices.loopbacks,
            final(self).components.devices.luks == old(self).components.devices.luks,
            final(self).components.devices.tables == old(self).components.devices.tables,
            final(self).entities.devices == old(self).entities.devices,
            final(self).entities.next_device == old(self).entities.next_device,
            scan_extends(*old(self), *final(self)),
    {
        let ghost w0 = *self;
        let n = vgs.len();
        let mut i: usize = 0;
        while i < n
            invariant
                self.wf(),
                n == vgs@.len(),
                i <= n,
                self.entities.next_vg + (n - i) <= u64::MAX,
                self.components.queued_changes == w0.components.queued_changes,
                self.flags == w0.flags,
                self.components.devices.devices == w0.components.devices.devices,
                self.components.devices.partitions == w0.components.devices.partitions,
                self.components.devices.children == w0.components.devices.children,
                self.components.devices.disks == w0.components.devices.disks,
                self.components.devices.device_maps == w0.components.devices.device_maps,
                self.components.devices.loopbacks == w0.components.devices.loopbacks,
                self.components.devices.luks == w0.components.devices.luks,
                self.components.devices.tables == w0.components.devices.tables,
                self.entities.devices == w0.entities.devices,
                self.entities.next_device == w0.entities.next_device,
            decreases n - i,
        {
            let vg = &vgs[i];
            let free = if vg.extents_free <= vg.extents {
                vg.extents_free
            } else {
                vg.extents
            };
            let representable = vg.extent_size >= 512 && vg.extent_size % 512 == 0 && (vg.extents
                == 0 || vg.extent_size <= 0xFFFF_FFFF_FFFF_FFFF / vg.extents);
            if representable {
                let ghost w_prev = *self;
                let vg_entity = self.entities.insert_vg(EntityFlags::empty());
                proof {
                    crate::world::lemma_wf_new_vg(w_prev, *self);
                }
                let record = LvmVg {
                    name: vg.name.clone(),
                    extent_size: vg.extent_size,
                    extents: vg.extents,
                    extents_free: free,
                };
                proof {
                    if vg.extents > 0 {
                        vstd::arithmetic::div_mod::lemma_fundamental_div_mod(
                            u64::MAX as int,
                            record.extents as int,
                        );
                        assert(record.extent_size * record.extents <= u64::MAX) by (
                        nonlinear_arith)
                            requires
                                record.extent_size <= u64::MAX as int / (record.extents as int),
                                record.extents > 0,
                                u64::MAX as int == (u64::MAX as int / (record.extents as int)) * (
                                record.extents as int) + (u64::MAX as int % (
                                record.extents as int)),
                                u64::MAX as int % (record.extents as int) >= 0,
                        ;
                    }
                    assert(record.wf());
                }
                let ghost wr = *self;
                self.components.vgs.volume_groups.insert(vg_entity.id, record);
                proof {
                    assert(self.entities == wr.entities);
                    assert forall|k: u64|
                        #[trigger] self.components.vgs.volume_groups@.contains_key(
                            k,
                        ) implies self.vg_alive(k) by {
                        if k != vg_entity.id {
                            assert(wr.components.vgs.volume_groups@.contains_key(k));
                            assert(wr.vg_alive(k));
                        } else {
                            assert(wr.vg_alive(vg_entity.id));
                        }
                    }
                    assert(self.wf());
                }

                // The group's logical volumes match device maps by the
                // file name of their path.
                let mut child_devices: Vec<DeviceEntity> = Vec::new();
                let ln = vg.lvs.len();
                let mut j: usize = 0;
                while j < ln
                    invariant
                        self.wf(),
                        ln == vg.lvs@.len(),
                        j <= ln,
                        self.entities.next_vg == w_prev.entities.next_vg + 1,
                        self.vg_alive(vg_entity.id),
                        self.components.vgs.volume_groups@.contains_key(vg_entity.id),
                        self.entities.vgs@[vg_entity.id].create == false,
                        forall|a: int|
                            0 <= a < child_devices@.len() ==> self.dev_alive(
                                (#[trigger] child_devices@[a]).id,
                            ) && self.components.devices.devices@.contains_key(
                                child_devices@[a].id,
                            ),
                        self.components.queued_changes == w0.components.queued_changes,
                        self.flags == w0.flags,
                        self.components.devices.devices == w0.components.devices.devices,
                        self.components.devices.partitions == w0.components.devices.partitions,
                        self.components.devices.children == w0.components.devices.children,
                        self.components.devices.disks == w0.components.devices.disks,
                        self.components.devices.device_maps == w0.components.devices.device_maps,
                        self.components.devices.loopbacks == w0.components.devices.loopbacks,
                        self.components.devices.luks == w0.components.devices.luks,
                        self.components.devices.tables == w0.components.devices.tables,
                        self.entities.devices == w0.entities.devices,
                        self.entities.next_device == w0.entities.next_device,
                    decreases ln - j,
                {
                    let lv = &vg.lvs[j];
                    let fname = file_name_of(lv.path.as_str());
                    if let Some(e) = self.find_dm_by_path_file_name(fname.as_str()) {
                        let record = crate::lvm::LvmLv {
                            name: lv.name.clone(),
                            path: lv.path.clone(),
                            uuid: lv.uuid.clone(),
                        };
                        let ghost wl = *self;
                        self.components.devices.lvs.insert(e.id, (record, vg_entity));
                        child_devices.push(e);
                        proof {
                            assert(self.entities == wl.entities);
                            assert forall|k: u64|
                                #[trigger] self.components.devices.lvs@.contains_key(
                                    k,
                                ) implies self.dev_alive(k) && self.vg_alive(
                                self.components.devices.lvs@[k].1.id) by {
                                if k != e.id {
                                    assert(wl.components.devices.lvs@.contains_key(k));
                                    assert(wl.dev_alive(k));
                                    assert(wl.vg_alive(wl.components.devices.lvs@[k].1.id));
                                } else {
                                    assert(wl.dev_alive(e.id));
                                    assert(wl.vg_alive(vg_entity.id));
                                    assert(wl.components.devices.device_maps@.contains_key(e.id));
                                    assert(wl.components.devices.devices@.contains_key(e.id));
                                }
                            }
                            assert(self.wf());
                        }
                    }
                    j = j + 1;
                }
                let ghost wv2 = *self;
                self.components.vgs.children.insert(vg_entity.id, child_devices);
                proof {
                    assert(self.entities == wv2.entities);
                    assert forall|k: u64|
                        #[trigger] self.components.vgs.children@.contains_key(
                            k,
                        ) implies self.vg_alive(k) by {
                        if k != vg_entity.id {
                            assert(wv2.components.vgs.children@.contains_key(k));
                            assert(wv2.vg_alive(k));
                        } else {
                            assert(wv2.vg_alive(vg_entity.id));
                        }
                    }
                    assert(self.wf());
                }

                // The group's physical volumes match device maps by name.
                let pn = vg.pvs.len();
                let mut j: usize = 0;
                while j < pn
                    invariant
                        self.wf(),
                        pn == vg.pvs@.len(),
                        j <= pn,
                        self.entities.next_vg == w_prev.entities.next_vg + 1,
                        self.vg_alive(vg_entity.id),
                        self.components.vgs.volume_groups@.contains_key(vg_entity.id),
                        self.entities.vgs@[vg_entity.id].create == false,
                        self.components.queued_changes == w0.components.queued_changes,
                        self.flags == w0.flags,
                        self.components.devices.devices == w0.components.devices.devices,
                        self.components.devices.partitions == w0.components.devices.partitions,
                        self.components.devices.children == w0.components.devices.children,
                        self.components.devices.disks == w0.components.devices.disks,
                        self.components.devices.device_maps == w0.components.devices.device_maps,
                        self.components.devices.loopbacks == w0.components.devices.loopbacks,
                        self.components.devices.luks == w0.components.devices.luks,
                        self.components.devices.tables == w0.components.devices.tables,
                        self.entities.devices == w0.entities.devices,
                        self.entities.next_device == w0.entities.next_device,
                    decreases pn - j,
                {
                    let (_node, pv) = &vg.pvs[j];
                    self.attach_pv(pv, Some(vg_entity));
                    j = j + 1;
                }
            }
            i = i + 1;
        }

        // Volumes outside every group come last, unassigned.
        let sn = solo_pvs.len();
        let mut j: usize = 0;
        while j < sn
            invariant
                self.wf(),
                sn == solo_pvs@.len(),
                j <= sn,
                self.components.queued_changes == w0.components.queued_changes,
                self.flags == w0.flags,
                self.components.devices.devices == w0.components.devices.devices,
                self.components.devices.partitions == w0.components.devices.partitions,
                self.components.devices.children == w0.components.devices.children,
                self.components.devices.disks == w0.components.devices.disks,
                self.components.devices.device_maps == w0.components.devices.device_maps,
                self.components.devices.loopbacks == w0.components.devices.loopbacks,
                self.components.devices.luks == w0.components.devices.luks,
                self.components.devices.tables == w0.components.devices.tables,
                self.entities.devices == w0.entities.devices,
                self.entities.next_device == w0.entities.next_device,
            decreases sn - j,
        {
            let (_node, pv) = &solo_pvs[j];
            self.attach_pv(pv, None);
            j = j + 1;
        }
    }

    /// Attaches one physical volume to the device map named like the file
    /// name of the volume's path, unless that device already carries one.
    fn attach_pv(&mut self, pv: &LvmPv, vg: Option<VgEntity>)
        requires
            old(self).wf(),
            vg matches Some(v) ==> old(self).vg_alive(v.id) && (
            old(self).entities.vgs@[v.id].create
                ==> old(self).components.vgs.volume_groups@.contains_key(v.id)),
        ensures
            final(self).wf(),
            final(self).components.queued_changes == old(self).components.queued_changes,
            final(self).components.vgs == old(self).components.vgs,
            final(self).entities == old(self).entities,
            final(self).flags == old(self).flags,
            final(self).components.devices.devices == old(self).components.devices.devices,
            final(self).components.devices.partitions == old(self).components.devices.partitions,
            final(self).components.devices.children == old(self).components.devices.children,
            final(self).components.devices.disks == old(self).components.devices.disks,
            final(self).components.devices.device_maps == old(
                self,
            ).components.devices.device_maps,
            final(self).components.devices.loopbacks == old(self).components.devices.loopbacks,
            final(self).components.devices.luks == old(self).components.devices.luks,
            final(self).components.devices.lvs == old(self).components.devices.lvs,
            final(self).components.devices.tables == old(self).components.devices.tables,
    {
        let fname = file_name_of(pv.path.as_str());
        if let Some(e) = self.find_dm_by_name(fname.as_str()) {
            if !self.components.devices.pvs.contains_key(e.id) {
                let record = LvmPv {
                    path: pv.path.clone(),
                    uuid: pv.uuid.clone(),
                    size_bytes: pv.size_bytes,
                };
                let ghost wb = *self;
                self.components.devices.pvs.insert(e.id, (record, vg));
                proof {
                    assert(self.entities == wb.entities);
                    assert(self.components.vgs == wb.components.vgs);
                    assert forall|k: u64|
                        #[trigger] self.components.devices.pvs@.contains_key(
                            k,
                        ) implies self.dev_alive(k) && (self.dev_flags(k).create
                        ==> self.components.devices.devices@.contains_key(k)) by {
                        if k != e.id {
                            assert(wb.components.devices.pvs@.contains_key(k));
                            assert(wb.dev_alive(k));
                        } else {
                            assert(wb.dev_alive(e.id));
                            assert(wb.components.devices.device_maps@.contains_key(e.id));
                        }
                    }
                    assert(self.wf());
                }
            }
        }
    }

    /// The first entity whose device map carries the given name.
    fn find_dm_by_name(&self, name: &str) -> (r: Option<DeviceEntity>)
        requires
            self.wf(),
        ensures
            r matches Some(e) ==> self.dev_alive(e.id)
                && self.components.devices.device_maps@.contains_key(e.id),
    {
        let maps = &self.components.devices.device_maps;
        let n = maps.len();
        let mut i: usize = 0;
        while i < n
            invariant
                self.wf(),
                *maps == self.components.devices.device_maps,
                n == maps.keys_seq().len(),
                i <= n,
            decreases n - i,
        {
            let m = maps.val_at(i);
            if str_eq(m.as_str(), name) {
                let k = maps.key_at(i);
                return Some(DeviceEntity { id: k });
            }
            i = i + 1;
        }
        None
    }

    /// The first device-map entity whose device path ends in the given
    /// file name.
    fn find_dm_by_path_file_name(&self, fname: &str) -> (r: Option<DeviceEntity>)
        requires
            self.wf(),
        ensures
            r matches Some(e) ==> self.dev_alive(e.id)
                && self.components.devices.device_maps@.contains_key(e.id)
                && self.components.devices.devices@.contains_key(e.id),
    {
        let maps = &self.components.devices.device_maps;
        let n = maps.len();
        let mut i: usize = 0;
        while i < n
            invariant
                self.wf(),
                *maps == self.components.devices.device_maps,
                n == maps.keys_seq().len(),
                i <= n,
            decreases n - i,
        {
            let k = maps.key_at(i);
            proof {
                assert(self.components.devices.device_maps@.contains_key(k));
            }
            if let Some(d) = self.components.devices.devices.get(k) {
                let dname = file_name_of(d.path.as_str());
                if str_eq(dname.as_str(), fname) {
                    return Some(DeviceEntity { id: k });
                }
            }
            i = i + 1;
        }
        None
    }

    /// Marks every entity whose file system is a LUKS container: it gains
    /// a LUKS component with no remembered passphrase.
    fn mark_luks(&mut self)
        requires
            old(self).wf(),
        ensures
            final(self).wf(),
            final(self).components.queued_changes == old(self).components.queued_changes,
            final(self).entities == old(self).entities,
            final(self).flags == old(self).flags,
            final(self).components.devices.devices == old(self).components.devices.devices,
            final(self).components.devices.partitions == old(self).components.devices.partitions,
            final(self).components.devices.children == old(self).components.devices.children,
            final(self).components.devices.disks == old(self).components.devices.disks,
            final(self).components.devices.device_maps == old(
                self,
            ).components.devices.device_maps,
            final(self).components.devices.loopbacks == old(self).components.devices.loopbacks,
            final(self).components.devices.lvs == old(self).components.devices.lvs,
            final(self).components.devices.pvs == old(self).components.devices.pvs,
            final(self).components.devices.tables == old(self).components.devices.tables,
            final(self).components.vgs == old(self).components.vgs,
            forall|k: u64|
                luks_partition(*final(self), k)
                    ==> final(self).components.devices.luks@.contains_key(k),
    {
        let ghost w0 = *self;
        let keys = self.components.devices.partitions.keys_vec();
        let n = keys.len();
        let mut i: usize = 0;
        while i < n
            invariant
                self.wf(),
                n == keys@.len(),
                keys@ == w0.components.devices.partitions.keys_seq(),
                i <= n,
                self.components.devices.partitions == w0.components.devices.partitions,
                self.components.devices.devices == w0.components.devices.devices,
                self.components.devices.children == w0.components.devices.children,
                self.components.devices.disks == w0.components.devices.disks,
                self.components.devices.device_maps == w0.components.devices.device_maps,
                self.components.devices.loopbacks == w0.components.devices.loopbacks,
                self.components.devices.lvs == w0.components.devices.lvs,
                self.components.devices.pvs == w0.components.devices.pvs,
                self.components.devices.tables == w0.components.devices.tables,
                self.components.queued_changes == w0.components.queued_changes,
                self.components.vgs == w0.components.vgs,
                self.entities == w0.entities,
                self.flags == w0.flags,
                forall|k: u64|
                    w0.components.devices.luks@.contains_key(k)
                        ==> self.components.devices.luks@.contains_key(k),
                forall|j: int|
                    0 <= j < i && w0.components.devices.partitions@[#[trigger] keys@[j]].filesystem
                        == Some(FileSystem::Luks) ==> self.components.devices.luks@.contains_key(
                        keys@[j],
                    ),
            decreases n - i,
        {
            let k = keys[i];
            proof {
                assert(w0.components.devices.partitions.keys_seq().contains(k));
            }
            let is_luks = match self.components.devices.partitions.get(k) {
                Some(p) => p.filesystem == Some(FileSystem::Luks),
                None => false,
            };
            if is_luks {
                let ghost wb = *self;
                self.components.devices.luks.insert(k, None);
                proof {
                    assert(self.entities == wb.entities);
                    assert forall|k2: u64|
                        #[trigger] self.components.devices.luks@.contains_key(
                            k2,
                        ) implies self.dev_alive(k2) by {
                        if k2 != k {
                            assert(wb.components.devices.luks@.contains_key(k2));
                            assert(wb.dev_alive(k2));
                        } else {
                            assert(wb.components.devices.partitions@.contains_key(k));
                            assert(wb.dev_alive(k));
                        }
                    }
                    assert(self.wf());
                }
            }
            i = i + 1;
        }
        proof {
            assert forall|k: u64| luks_partition(*self, k) implies self
                .components
                .devices
                .luks@
                .contains_key(k) by {
                assert(w0.components.devices.partitions.keys_seq().contains(k));
                let j = choose|j: int|
                    0 <= j < w0.components.devices.partitions.keys_seq().len()
                        && w0.components.devices.partitions.keys_seq()[j] == k;
                assert(keys@[j] == k);
            }
        }
    }
}

} // verus!
