//! The apply engine: the ordered systems that carry staged changes onto
//! the machine and then into the committed world.
//!
//! Everything that touches a device — wiping, writing tables, formatting,
//! the cryptsetup call — is an `Action` handed to the caller; the engine
//! only decides what to do next and commits the outcome. The caller runs
//! each action and reports how it went; on the first failure, and at the
//! end of every run, the staged state is discarded by `unset`, exactly as
//! a batch that was never applied.

use vstd::prelude::*;
use crate::device::Device;
use crate::entity::DeviceEntity;
use crate::flags::{EntityFlags, ManagerFlags};
use crate::fs::FileSystem;
use crate::luks::LuksPassphrase;
use crate::partitions::{Partition, PartitionTable};
use crate::world::DiskManager;

verus! {

/// Why an apply run ended without completing its work.
#[derive(Debug, Clone, Copy, PartialEq, Eq, Structural)]
pub enum ApplyError {
    /// The cancellation flag was set at a system boundary.
    Cancelled,
    /// Wiping the device's signatures failed.
    Wipefs,
    /// A fresh partition table could not be created.
    TableCreate,
    /// An existing partition table could not be read.
    TableRead,
    /// A partition could not be added to the table.
    TableAdd,
    /// The table could not be written back.
    TableWrite,
    /// A partition could not be removed from the table.
    TableRemove,
    /// The cryptsetup format call failed.
    LuksCreate,
    /// A file system could not be created.
    Mkfs,
    /// A partition label could not be written.
    LabelWrite,
}

/// One region to add to a table: absolute start, one past the last
/// sector, and the label to record.
pub struct PartitionSpec {
    pub start: u64,
    pub end: u64,
    pub label: Option<String>,
}

/// Work the engine asks the caller to carry out on the machine.
pub enum Action {
    /// Wipe every signature from the device.
    Wipefs { path: String },
    /// Write a fresh, empty table of the kind to the device.
    CreateTable { path: String, sector_size: u64, kind: PartitionTable },
    /// Open the device's table, remove the partition containing each
    /// listed sector, and write the table back once.
    RemoveFromTable { path: String, sectors: Vec<u64> },
    /// Open the device's table, add each listed partition, and write the
    /// table back once; report the slot numbers the additions took.
    AddToTable { path: String, parts: Vec<PartitionSpec> },
    /// Format the device as a LUKS container.
    LuksFormat {
        path: String,
        key_size: u16,
        kind: String,
        passphrase: Option<LuksPassphrase>,
    },
    /// Create the file system on the device.
    Mkfs { path: String, fs: FileSystem },
    /// Open the device's table, rename the partition containing each
    /// listed sector, and write the table back once.
    LabelInTable { path: String, labels: Vec<(u64, String)> },
}

/// How the last action went.
pub enum Event {
    /// The run begins; no action has been issued yet.
    Begin,
    /// The action succeeded.
    Done,
    /// The additions succeeded and took these slot numbers, one for each
    /// part in order.
    Added(Vec<u32>),
    /// The action failed.
    Failed(ApplyError),
}

/// What the engine answers: more work, or the run's outcome.
pub enum Directive {
    Next(Action),
    Complete(Result<(), ApplyError>),
}

/// The remove system: its work stands in the wipe and free phases of a
/// run. It keeps no state of its own between runs.
pub struct RemoveSystem;

/// The resize system. Resizing is reserved: a run passes it without work,
/// so a staged resize stays staged until it is unset.
pub struct ResizeSystem;

/// The job whose action is in the caller's hands.
enum Job {
    Idle,
    Wipe(DeviceEntity),
    Free(DeviceEntity, Vec<DeviceEntity>),
    Table(DeviceEntity, PartitionTable),
    Children(DeviceEntity, Vec<DeviceEntity>),
    Luks(DeviceEntity, DeviceEntity, crate::luks::LuksParams),
    Format(DeviceEntity, FileSystem),
    Labels(Vec<(DeviceEntity, String)>),
}

/// Where the run stands in the fixed order of systems.
#[derive(PartialEq, Eq, Structural, Clone, Copy, Debug)]
enum Phase {
    RemoveWipes,
    RemoveFrees,
    CreateTables,
    CreateChildren,
    LuksFormats,
    Formats,
    Labels,
    Finished,
}

/// A run of the apply engine over one world.
pub struct ApplyRun {
    phase: Phase,
    current: Job,
    wipes: Vec<DeviceEntity>,
    frees: Vec<(DeviceEntity, Vec<DeviceEntity>)>,
    tables: Vec<(DeviceEntity, PartitionTable)>,
    parents: Vec<DeviceEntity>,
    luks_jobs: Vec<(DeviceEntity, DeviceEntity, crate::luks::LuksParams)>,
    formats: Vec<(DeviceEntity, FileSystem)>,
    labels: Vec<(DeviceEntity, Vec<(DeviceEntity, String)>)>,
}

impl ApplyRun {
    /// The stored work still addresses live entities of `w`, so a commit
    /// never writes a component for an entity that is gone.
    pub closed spec fn inv(self, w: DiskManager) -> bool {
        match self.current {
            Job::Idle => true,
            Job::Wipe(e) => w.dev_alive(e.id) && w.dev_flags(e.id).remove
                && w.components.devices.devices@.contains_key(e.id),
            Job::Free(_, _) => true,
            Job::Table(p, _) => w.dev_alive(p.id),
            Job::Children(p, ref kids) => w.dev_alive(p.id)
                && w.components.devices.tables@.contains_key(p.id) && (forall|j: int|
                0 <= j < kids@.len() ==> w.dev_alive((#[trigger] kids@[j]).id)) && (forall|
                a: int,
                b: int,
            | 0 <= a < b < kids@.len() ==> kids@[a].id != kids@[b].id),
            Job::Luks(p, c, _) => w.dev_alive(p.id) && w.dev_alive(c.id)
                && w.components.devices.devices@.contains_key(p.id),
            Job::Format(e, _) => w.dev_alive(e.id) && w.components.devices.devices@.contains_key(
                e.id,
            ),
            Job::Labels(_) => true,
        }
    }

    /// Whether the run has ended; a finished run answers `Complete` and
    /// nothing else.
    pub closed spec fn finished(self) -> bool {
        self.phase == Phase::Finished
    }

    /// A run that has not started: no work planned, nothing pending,
    /// everything ahead.
    pub closed spec fn fresh(self) -> bool {
        &&& self.phase == Phase::RemoveWipes
        &&& self.current is Idle
        &&& self.wipes@.len() == 0
        &&& self.frees@.len() == 0
        &&& self.tables@.len() == 0
        &&& self.parents@.len() == 0
        &&& self.luks_jobs@.len() == 0
        &&& self.formats@.len() == 0
        &&& self.labels@.len() == 0
    }

    /// The event a caller owes the engine: an answer fitting the action
    /// last issued.
    pub closed spec fn expects(self, event: Event) -> bool {
        match self.current {
            Job::Idle => event matches Event::Begin,
            Job::Children(_, _) => event matches Event::Added(_) || event matches Event::Failed(
                _,
            ),
            _ => event matches Event::Done || event matches Event::Failed(_),
        }
    }

    /// The whole-device wipe in the caller's hands, if that is the
    /// pending job.
    pub closed spec fn pending_wipe(self) -> Option<DeviceEntity> {
        match self.current {
            Job::Wipe(e) => Some(e),
            _ => None,
        }
    }

    /// The parent whose removed children are being taken out of its
    /// table, with those children.
    pub closed spec fn pending_free(self) -> Option<(DeviceEntity, Seq<DeviceEntity>)> {
        match self.current {
            Job::Free(p, ref kids) => Some((p, kids@)),
            _ => None,
        }
    }

    /// The device receiving a fresh table, with the table's kind.
    pub closed spec fn pending_table(self) -> Option<(DeviceEntity, PartitionTable)> {
        match self.current {
            Job::Table(p, kind) => Some((p, kind)),
            _ => None,
        }
    }

    /// The parent whose staged children are being written, with those
    /// children in the order their regions were handed out.
    pub closed spec fn pending_children(self) -> Option<(DeviceEntity, Seq<DeviceEntity>)> {
        match self.current {
            Job::Children(p, ref kids) => Some((p, kids@)),
            _ => None,
        }
    }

    /// The container being formatted: the ciphertext entity, its future
    /// plaintext child, the key size, the container kind, the map name,
    /// and the passphrase bytes handed to the caller.
    pub closed spec fn pending_luks(self) -> Option<
        (DeviceEntity, DeviceEntity, u16, Seq<char>, Seq<char>, Option<Seq<u8>>),
    > {
        match self.current {
            Job::Luks(p, c, ref params) => Some(
                (
                    p,
                    c,
                    params.key_size,
                    params.kind@,
                    params.target_name@,
                    match params.passphrase {
                        Some(ref k) => Some(k@),
                        None => None,
                    },
                ),
            ),
            _ => None,
        }
    }

    /// The entity being formatted with a file system.
    pub closed spec fn pending_format(self) -> Option<(DeviceEntity, FileSystem)> {
        match self.current {
            Job::Format(e, fs) => Some((e, fs)),
            _ => None,
        }
    }

    /// The children being relabelled, each with its new label.
    pub closed spec fn pending_labels(self) -> Option<Seq<(DeviceEntity, String)>> {
        match self.current {
            Job::Labels(ref items) => Some(items@),
            _ => None,
        }
    }
}

/// Whether `s` addresses the inside of one of the children: it is one
/// past some child's committed partition offset.
pub open spec fn sector_sourced(w: DiskManager, kids: Seq<DeviceEntity>, s: u64) -> bool {
    exists|i: int|
        0 <= i < kids.len() && w.components.devices.partitions@.contains_key(
            (#[trigger] kids[i]).id,
        ) && w.components.devices.partitions@[kids[i].id].offset + 1 == s
}

/// Whether the sector-label pair comes from one of the items: the sector
/// is one past that child's committed partition offset, and the label is
/// that item's.
pub open spec fn label_sourced(
    w: DiskManager,
    items: Seq<(DeviceEntity, String)>,
    s: u64,
    l: Seq<char>,
) -> bool {
    exists|i: int|
        0 <= i < items.len() && w.components.devices.partitions@.contains_key(
            (#[trigger] items[i]).0.id,
        ) && w.components.devices.partitions@[items[i].0.id].offset + 1 == s && items[i].1@ == l
}

/// What the issued action must carry, read against the run's pending job
/// and the world it was issued over: the paths, geometry, regions, labels
/// and container parameters all come from the world's own records.
pub open spec fn action_describes(run: ApplyRun, w: DiskManager, a: Action) -> bool {
    let c = w.components.devices;
    match a {
        Action::Wipefs { path } => {
            &&& run.pending_wipe() matches Some(e)
            &&& {
                let e = run.pending_wipe()->Some_0;
                &&& w.dev_alive(e.id)
                &&& w.dev_flags(e.id).remove
                &&& c.devices@.contains_key(e.id)
                &&& path@ == c.devices@[e.id].path@
            }
        },
        Action::CreateTable { path, sector_size, kind } => {
            &&& run.pending_table() matches Some((p, k)) && k == kind
            &&& {
                let p = run.pending_table()->Some_0.0;
                &&& w.dev_alive(p.id)
                &&& c.devices@.contains_key(p.id)
                &&& path@ == c.devices@[p.id].path@
                &&& sector_size == c.devices@[p.id].logical_sector_size
            }
        },
        Action::RemoveFromTable { path, sectors } => {
            &&& run.pending_free() matches Some((p, _))
            &&& {
                let p = run.pending_free()->Some_0.0;
                let kids = run.pending_free()->Some_0.1;
                &&& w.dev_alive(p.id)
                &&& c.devices@.contains_key(p.id)
                &&& path@ == c.devices@[p.id].path@
                &&& forall|j: int|
                    0 <= j < sectors@.len() ==> sector_sourced(w, kids, #[trigger] sectors@[j])
            }
        },
        Action::AddToTable { path, parts } => {
            &&& run.pending_children() matches Some((p, kids)) && parts@.len() == kids.len()
            &&& {
                let p = run.pending_children()->Some_0.0;
                let kids = run.pending_children()->Some_0.1;
                let q = w.components.queued_changes;
                &&& w.dev_alive(p.id)
                &&& c.devices@.contains_key(p.id)
                &&& path@ == c.devices@[p.id].path@
                &&& forall|j: int|
                    0 <= j < kids.len() ==> {
                        let cid = (#[trigger] kids[j]).id;
                        &&& q.partitions@.contains_key(cid)
                        &&& q.devices@.contains_key(cid)
                        &&& parts@[j].start == q.partitions@[cid].offset
                        &&& parts@[j].end == if q.partitions@[cid].offset
                            + q.devices@[cid].sectors <= u64::MAX {
                            q.partitions@[cid].offset + q.devices@[cid].sectors
                        } else {
                            u64::MAX as int
                        }
                        &&& (parts@[j].label matches Some(l) <==> q.partitions@[cid].partlabel
                            is Some)
                        &&& (parts@[j].label matches Some(l)
                            ==> q.partitions@[cid].partlabel matches Some(pl) && l@ == pl@)
                    }
            }
        },
        Action::LuksFormat { path, key_size, kind, passphrase } => {
            &&& run.pending_luks() matches Some((p, _, ks, kd, _, pp)) && ks == key_size && kd
                == kind@ && (passphrase matches Some(x) <==> pp is Some) && (
            passphrase matches Some(x) ==> x@ == pp->Some_0)
            &&& {
                let p = run.pending_luks()->Some_0.0;
                &&& w.dev_alive(p.id)
                &&& c.devices@.contains_key(p.id)
                &&& path@ == c.devices@[p.id].path@
            }
        },
        Action::Mkfs { path, fs } => {
            &&& run.pending_format() matches Some((e, f)) && f == fs
            &&& {
                let e = run.pending_format()->Some_0.0;
                &&& w.dev_alive(e.id)
                &&& c.devices@.contains_key(e.id)
                &&& path@ == c.devices@[e.id].path@
            }
        },
        Action::LabelInTable { path, labels } => {
            &&& run.pending_labels() matches Some(items)
            &&& {
                let items = run.pending_labels()->Some_0;
                &&& forall|j: int|
                    0 <= j < labels@.len() ==> label_sourced(
                        w,
                        items,
                        (#[trigger] labels@[j]).0,
                        labels@[j].1@,
                    )
            }
        },
    }
}

/// A run and world with nothing to carry out: the run is fresh, no
/// system is scheduled, nothing is staged for formatting, and the caller
/// is not cancelling.
pub open spec fn idle_entry(run: ApplyRun, w: DiskManager, cancel: bool) -> bool {
    &&& run.fresh()
    &&& !cancel
    &&& !w.flags.remove
    &&& !w.flags.create
    &&& !w.flags.label
    &&& w.components.queued_changes.formats.keys_seq().len() == 0
}

/// Whether the remove system's wipe pass would act on the entity: a
/// committed disk or loopback marked for removal.
pub open spec fn wipe_shape(w: DiskManager, k: u64) -> bool {
    &&& w.flags.remove
    &&& w.dev_alive(k)
    &&& w.dev_flags(k).remove
    &&& w.components.devices.disks@.contains_key(k) || w.components.devices.loopbacks@.contains_key(
        k,
    )
    &&& w.components.devices.devices@.contains_key(k)
}

/// Whether the remove system's free pass would act on the parent: it
/// keeps its table and device record but has a child marked for removal.
pub open spec fn free_shape(w: DiskManager, p: u64) -> bool {
    &&& w.flags.remove
    &&& w.components.devices.tables@.contains_key(p)
    &&& w.dev_alive(p)
    &&& !w.dev_flags(p).remove
    &&& w.components.devices.children@.contains_key(p)
    &&& exists|j: int|
        0 <= j < w.components.devices.children@[p]@.len() && w.dev_flags(
            (#[trigger] w.components.devices.children@[p]@[j]).id,
        ).remove
    &&& w.components.devices.devices@.contains_key(p)
}

/// Whether the create system would write a staged table onto the entity.
pub open spec fn table_shape(w: DiskManager, k: u64) -> bool {
    &&& w.flags.create
    &&& w.components.queued_changes.tables@.contains_key(k)
    &&& w.dev_alive(k)
    &&& w.components.devices.devices@.contains_key(k)
}

/// Whether the create system would add staged children to the parent's
/// table: some staged child carries both its queued records.
pub open spec fn children_shape(w: DiskManager, p: u64) -> bool {
    &&& w.flags.create
    &&& w.components.devices.tables@.contains_key(p)
    &&& w.dev_flags(p).create_children
    &&& w.dev_alive(p)
    &&& w.components.devices.devices@.contains_key(p)
    &&& exists|c: u64|
        #[trigger] w.components.queued_changes.parents@.contains_key(c)
            && w.components.queued_changes.parents@[c].id == p
            && w.components.queued_changes.devices@.contains_key(c)
            && w.components.queued_changes.partitions@.contains_key(c)
}

/// Whether the modification system would format the entity.
pub open spec fn format_shape(w: DiskManager, k: u64) -> bool {
    &&& w.components.queued_changes.formats@.contains_key(k)
    &&& w.dev_alive(k)
    &&& w.components.devices.devices@.contains_key(k)
}

/// Whether the modification system would write staged labels under the
/// parent's table.
pub open spec fn label_shape(w: DiskManager, p: u64) -> bool {
    &&& w.flags.label
    &&& w.components.devices.tables@.contains_key(p)
    &&& w.dev_alive(p)
    &&& w.components.devices.children@.contains_key(p)
    &&& exists|j: int|
        0 <= j < w.components.devices.children@[p]@.len()
            && w.components.queued_changes.labels@.contains_key(
            (#[trigger] w.components.devices.children@[p]@[j]).id,
        )
    &&& w.components.devices.devices@.contains_key(p)
}

/// The run's shape at its first planning pass: nothing popped yet, and
/// the wipe worklist covering every entity the wipe pass must act on.
pub closed spec fn begin_entry(run: ApplyRun, w: DiskManager) -> bool {
    &&& run.current is Idle
    &&& run.phase == Phase::RemoveWipes
    &&& run.frees@.len() == 0
    &&& run.tables@.len() == 0
    &&& run.parents@.len() == 0
    &&& run.luks_jobs@.len() == 0
    &&& run.formats@.len() == 0
    &&& run.labels@.len() == 0
    &&& forall|k: u64|
        #[trigger] wipe_shape(w, k) ==> exists|idx: int|
            0 <= idx < run.wipes@.len() && (#[trigger] run.wipes@[idx]).id == k
}

/// Whether any system has work that would reach the machine: a run fed
/// from this world must issue at least one action before completing.
pub open spec fn staged_action(w: DiskManager) -> bool {
    ||| exists|k: u64| #[trigger] wipe_shape(w, k)
    ||| exists|p: u64| #[trigger] free_shape(w, p)
    ||| exists|k: u64| #[trigger] table_shape(w, k)
    ||| exists|p: u64| #[trigger] children_shape(w, p)
    ||| exists|k: u64| #[trigger] format_shape(w, k)
    ||| exists|p: u64| #[trigger] label_shape(w, p)
}

/// What the world owes once the caller reports the pending job done: the
/// job's effect stands committed. Read against the run and world as the
/// event arrived, and the world afterwards.
pub open spec fn step_commits(run: ApplyRun, w0: DiskManager, event: Event, w1: DiskManager) -> bool {
    let c0 = w0.components.devices;
    let c1 = w1.components.devices;
    &&& match run.pending_table() {
        Some((p, kind)) => w0.dev_alive(p.id) ==> c1.tables@ == c0.tables@.insert(p.id, kind),
        None => true,
    }
    &&& match run.pending_wipe() {
        Some(e) => {
            &&& !c1.children@.contains_key(e.id)
            &&& !c1.partitions@.contains_key(e.id)
            &&& (!w0.dev_flags(e.id).create ==> !c1.tables@.contains_key(e.id))
            &&& c1.devices@.contains_key(e.id)
        },
        None => true,
    }
    &&& match run.pending_free() {
        Some((p, kids)) => forall|j: int|
            0 <= j < kids.len() ==> !w1.dev_alive((#[trigger] kids[j]).id),
        None => true,
    }
    &&& match run.pending_format() {
        Some((e, fs)) => c1.partitions@.contains_key(e.id) && c1.partitions@[e.id].filesystem
            == Some(fs),
        None => true,
    }
    &&& match run.pending_luks() {
        Some((p2, child, ks, kd, target, pp)) => {
            let pdev = c0.devices@[p2.id];
            let header = 2097152 as int / pdev.logical_sector_size as int;
            &&& c1.luks@.contains_key(p2.id)
            &&& (c1.luks@[p2.id] matches Some(k) <==> pp is Some)
            &&& (c1.luks@[p2.id] matches Some(k) ==> k@ == pp->Some_0)
            &&& c1.children@.contains_key(p2.id)
            &&& c1.children@[p2.id]@ == seq![child]
            &&& c1.devices@.contains_key(child.id)
            &&& c1.devices@[child.id].name@ == target
            &&& c1.devices@[child.id].path@ == "/dev/mapper/"@ + target
            &&& c1.devices@[child.id].logical_sector_size == pdev.logical_sector_size
            &&& c1.devices@[child.id].sectors == if pdev.sectors >= header {
                pdev.sectors - header
            } else {
                0int
            }
            &&& c1.device_maps@.contains_key(child.id)
            &&& c1.device_maps@[child.id]@ == target
            &&& w1.dev_alive(child.id)
            &&& w1.dev_flags(child.id).luks_child == w0.dev_flags(child.id).luks_child
        },
        None => true,
    }
    &&& match run.pending_children() {
        Some((p2, kids)) => match event {
            Event::Added(ns) => {
                let q0 = w0.components.queued_changes;
                forall|j: int|
                    #![trigger kids[j]]
                    0 <= j < kids.len() && q0.devices@.contains_key(kids[j].id)
                        && q0.partitions@.contains_key(kids[j].id) ==> {
                        let cid = kids[j].id;
                        &&& c1.devices@.contains_key(cid)
                        &&& c1.devices@[cid] == q0.devices@[cid]
                        &&& c1.partitions@.contains_key(cid)
                        &&& c1.partitions@[cid] == (Partition {
                            number: if j < ns@.len() {
                                ns@[j]
                            } else {
                                0u32
                            },
                            ..q0.partitions@[cid]
                        })
                        &&& c1.children@.contains_key(p2.id)
                        &&& c1.children@[p2.id]@.contains(kids[j])
                    }
            },
            _ => true,
        },
        None => true,
    }
    &&& match run.pending_labels() {
        Some(items) => forall|j: int|
            #![trigger items[j]]
            0 <= j < items.len() && c0.partitions@.contains_key(items[j].0.id) && (forall|a: int|
                j < a < items.len() ==> items[a].0.id != items[j].0.id) ==> {
                &&& c1.partitions@.contains_key(items[j].0.id)
                &&& c1.partitions@[items[j].0.id] == (Partition {
                    partlabel: Some(items[j].1),
                    ..c0.partitions@[items[j].0.id]
                })
            },
        None => true,
    }
}

impl ApplyRun {
    /// Ends the run: pending work is dropped and the run answers nothing
    /// further.
    fn clear_work(&mut self)
        ensures
            final(self).finished(),
            forall|w: DiskManager| final(self).inv(w),
            forall|e: Event| !final(self).expects(e) || e is Begin,
    {
        self.phase = Phase::Finished;
        self.current = Job::Idle;
        self.wipes = Vec::new();
        self.frees = Vec::new();
        self.tables = Vec::new();
        self.parents = Vec::new();
        self.luks_jobs = Vec::new();
        self.formats = Vec::new();
        self.labels = Vec::new();
    }
}

impl DiskManager {
    /// Begins an apply run over this world; feed the returned run with
    /// `Event::Begin`.
    pub fn apply(&self) -> (r: ApplyRun)
        ensures
            r.inv(*self),
            !r.finished(),
            r.fresh(),
            r.expects(Event::Begin),
    {
        ApplyRun {
            phase: Phase::RemoveWipes,
            current: Job::Idle,
            wipes: Vec::new(),
            frees: Vec::new(),
            tables: Vec::new(),
            parents: Vec::new(),
            luks_jobs: Vec::new(),
            formats: Vec::new(),
            labels: Vec::new(),
        }
    }
}

impl DiskManager {
    /// The devices the remove system must wipe whole: marked for removal,
    /// and a disk or a loopback.
    fn plan_wipes(&self) -> (r: Vec<DeviceEntity>)
        requires
            self.wf(),
        ensures
            forall|i: int| 0 <= i < r@.len() ==> self.dev_alive((#[trigger] r@[i]).id),
            forall|k: u64|
                #[trigger] wipe_shape(*self, k) ==> exists|idx: int|
                    0 <= idx < r@.len() && (#[trigger] r@[idx]).id == k,
    {
        let keys = self.entities.devices.keys_vec();
        let mut out: Vec<DeviceEntity> = Vec::new();
        let n = keys.len();
        let mut i: usize = 0;
        while i < n
            invariant
                self.wf(),
                n == keys@.len(),
                keys@ == self.entities.devices.keys_seq(),
                i <= n,
                forall|j: int| 0 <= j < out@.len() ==> self.dev_alive((#[trigger] out@[j]).id),
                forall|jj: int|
                    0 <= jj < i && wipe_shape(*self, #[trigger] keys@[jj]) ==> exists|idx: int|
                        0 <= idx < out@.len() && (#[trigger] out@[idx]).id == keys@[jj],
            decreases n - i,
        {
            let k = keys[i];
            proof {
                assert(self.entities.devices.keys_seq().contains(k));
            }
            let flags = *self.entities.devices.get(k).unwrap();
            if flags.remove && (self.components.devices.disks.contains_key(k)
                || self.components.devices.loopbacks.contains_key(k)) {
                let ghost before = out@;
                out.push(DeviceEntity { id: k });
                proof {
                    assert forall|jj: int|
                        0 <= jj < i + 1 && wipe_shape(*self, #[trigger] keys@[jj]) implies exists|
                        idx: int,
                    | 0 <= idx < out@.len() && (#[trigger] out@[idx]).id == keys@[jj] by {
                        if jj < i {
                            let idx = choose|idx: int|
                                0 <= idx < before.len() && (#[trigger] before[idx]).id
                                    == keys@[jj];
                            assert(out@[idx] == before[idx]);
                        } else {
                            assert(out@[out@.len() - 1].id == k);
                        }
                    }
                }
            }
            i = i + 1;
        }
        proof {
            assert forall|k: u64| #[trigger] wipe_shape(*self, k) implies exists|idx: int|
                0 <= idx < out@.len() && (#[trigger] out@[idx]).id == k by {
                assert(self.entities.devices.keys_seq().contains(k));
                let j = choose|j: int|
                    0 <= j < self.entities.devices.keys_seq().len()
                        && self.entities.devices.keys_seq()[j] == k;
                assert(keys@[j] == k);
            }
        }
        out
    }

    /// The table-bearing parents that keep their table but have children
    /// marked for removal, with those children.
    fn plan_frees(&self) -> (r: Vec<(DeviceEntity, Vec<DeviceEntity>)>)
        requires
            self.wf(),
        ensures
            forall|i: int|
                0 <= i < r@.len() ==> self.dev_alive((#[trigger] r@[i]).0.id) && (forall|j: int|
                    0 <= j < r@[i].1@.len() ==> self.dev_alive((#[trigger] r@[i].1@[j]).id)),
            forall|p: u64|
                #[trigger] free_shape(*self, p) ==> exists|idx: int|
                    0 <= idx < r@.len() && (#[trigger] r@[idx]).0.id == p,
    {
        let keys = self.components.devices.tables.keys_vec();
        let mut out: Vec<(DeviceEntity, Vec<DeviceEntity>)> = Vec::new();
        let n = keys.len();
        let mut i: usize = 0;
        while i < n
            invariant
                self.wf(),
                n == keys@.len(),
                keys@ == self.components.devices.tables.keys_seq(),
                i <= n,
                forall|a: int|
                    0 <= a < out@.len() ==> self.dev_alive((#[trigger] out@[a]).0.id) && (forall|
                        j: int,
                    | 0 <= j < out@[a].1@.len() ==> self.dev_alive((#[trigger] out@[a].1@[j]).id)),
                forall|jj: int|
                    0 <= jj < i && free_shape(*self, #[trigger] keys@[jj]) ==> exists|idx: int|
                        0 <= idx < out@.len() && (#[trigger] out@[idx]).0.id == keys@[jj],
            decreases n - i,
        {
            let p = keys[i];
            proof {
                assert(self.components.devices.tables.keys_seq().contains(p));
                assert(self.components.devices.tables@.contains_key(p));
            }
            let pflags = *self.entities.devices.get(p).unwrap();
            if !pflags.remove {
                if let Some(kids) = self.components.devices.children.get(p) {
                    let mut doomed: Vec<DeviceEntity> = Vec::new();
                    let kn = kids.len();
                    let mut j: usize = 0;
                    while j < kn
                        invariant
                            self.wf(),
                            self.components.devices.children@.contains_key(p),
                            *kids == self.components.devices.children@[p],
                            kn == kids@.len(),
                            j <= kn,
                            forall|a: int|
                                0 <= a < doomed@.len() ==> self.dev_alive(
                                    (#[trigger] doomed@[a]).id,
                                ),
                            (exists|jj: int|
                                0 <= jj < j && self.dev_flags(
                                    (#[trigger] kids@[jj]).id,
                                ).remove) ==> doomed@.len() > 0,
                        decreases kn - j,
                    {
                        let c = kids[j];
                        let cflags = *self.entities.devices.get(c.id).unwrap();
                        if cflags.remove {
                            doomed.push(c);
                        }
                        proof {
                            if exists|jj: int|
                                0 <= jj < j + 1 && self.dev_flags(
                                    (#[trigger] kids@[jj]).id,
                                ).remove {
                                let jj = choose|jj: int|
                                    0 <= jj < j + 1 && self.dev_flags(
                                        (#[trigger] kids@[jj]).id,
                                    ).remove;
                                if jj == j {
                                    assert(cflags.remove);
                                    assert(doomed@.len() > 0);
                                }
                            }
                        }
                        j = j + 1;
                    }
                    proof {
                        if free_shape(*self, p) {
                            let wj = choose|wj: int|
                                0 <= wj < self.components.devices.children@[p]@.len()
                                    && self.dev_flags(
                                    (#[trigger] self.components.devices.children@[p]@[wj]).id,
                                ).remove;
                            assert(doomed@.len() > 0);
                        }
                    }
                    let ghost before = out@;
                    if doomed.len() > 0 {
                        out.push((DeviceEntity { id: p }, doomed));
                    }
                    proof {
                        assert forall|jj: int|
                            0 <= jj < i + 1 && free_shape(*self, #[trigger] keys@[jj]) implies exists|
                            idx: int,
                        | 0 <= idx < out@.len() && (#[trigger] out@[idx]).0.id == keys@[jj] by {
                            if jj < i {
                                let idx = choose|idx: int|
                                    0 <= idx < before.len() && (#[trigger] before[idx]).0.id
                                        == keys@[jj];
                                assert(out@[idx] == before[idx]);
                            } else {
                                assert(out@[out@.len() - 1].0.id == p);
                            }
                        }
                    }
                }
            }
            proof {
                assert forall|jj: int|
                    0 <= jj < i + 1 && free_shape(*self, #[trigger] keys@[jj]) implies exists|
                    idx: int,
                | 0 <= idx < out@.len() && (#[trigger] out@[idx]).0.id == keys@[jj] by {
                    if jj < i {
                    } else {
                        assert(!free_shape(*self, keys@[jj]) || free_shape(*self, p)
                            && keys@[jj] == p);
                    }
                }
            }
            i = i + 1;
        }
        proof {
            assert forall|p: u64| #[trigger] free_shape(*self, p) implies exists|idx: int|
                0 <= idx < out@.len() && (#[trigger] out@[idx]).0.id == p by {
                assert(self.components.devices.tables.keys_seq().contains(p));
                let j = choose|j: int|
                    0 <= j < self.components.devices.tables.keys_seq().len()
                        && self.components.devices.tables.keys_seq()[j] == p;
                assert(keys@[j] == p);
            }
        }
        out
    }

    /// Drains the staged tables into a worklist.
    fn plan_tables(&mut self) -> (r: Vec<(DeviceEntity, PartitionTable)>)
        requires
            old(self).wf(),
        ensures
            final(self).wf(),
            forall|i: int| 0 <= i < r@.len() ==> final(self).dev_alive((#[trigger] r@[i]).0.id),
            final(self).components.queued_changes.tables@ == Map::<u64, PartitionTable>::empty(),
            final(self).components.queued_changes.formats == old(
                self,
            ).components.queued_changes.formats,
            final(self).components.queued_changes.parents == old(
                self,
            ).components.queued_changes.parents,
            final(self).components.queued_changes.devices == old(
                self,
            ).components.queued_changes.devices,
            final(self).components.queued_changes.partitions == old(
                self,
            ).components.queued_changes.partitions,
            final(self).components.queued_changes.labels == old(
                self,
            ).components.queued_changes.labels,
            final(self).components.devices == old(self).components.devices,
            final(self).entities == old(self).entities,
            final(self).flags == old(self).flags,
            final(self).components.vgs == old(self).components.vgs,
            forall|k: u64|
                #[trigger] old(self).components.queued_changes.tables@.contains_key(k)
                    ==> exists|idx: int|
                    0 <= idx < r@.len() && (#[trigger] r@[idx]).0.id == k,
    {
        let keys = self.components.queued_changes.tables.keys_vec();
        let mut out: Vec<(DeviceEntity, PartitionTable)> = Vec::new();
        let n = keys.len();
        let mut i: usize = 0;
        while i < n
            invariant
                self.wf(),
                *self == *old(self),
                n == keys@.len(),
                keys@ == self.components.queued_changes.tables.keys_seq(),
                i <= n,
                forall|a: int| 0 <= a < out@.len() ==> self.dev_alive((#[trigger] out@[a]).0.id),
                forall|jj: int|
                    0 <= jj < i ==> exists|idx: int|
                        0 <= idx < out@.len() && (#[trigger] out@[idx]).0.id == (
                        #[trigger] keys@[jj]),
            decreases n - i,
        {
            let k = keys[i];
            proof {
                assert(self.components.queued_changes.tables.keys_seq().contains(k));
            }
            let kind = *self.components.queued_changes.tables.get(k).unwrap();
            let ghost before = out@;
            out.push((DeviceEntity { id: k }, kind));
            proof {
                assert forall|jj: int| 0 <= jj < i + 1 implies exists|idx: int|
                    0 <= idx < out@.len() && (#[trigger] out@[idx]).0.id == (
                #[trigger] keys@[jj]) by {
                    if jj < i {
                        let idx = choose|idx: int|
                            0 <= idx < before.len() && (#[trigger] before[idx]).0.id
                                == keys@[jj];
                        assert(out@[idx] == before[idx]);
                    } else {
                        assert(out@[out@.len() - 1].0.id == k);
                    }
                }
            }
            i = i + 1;
        }
        proof {
            assert forall|k: u64|
                #[trigger] old(self).components.queued_changes.tables@.contains_key(
                    k,
                ) implies exists|idx: int|
                0 <= idx < out@.len() && (#[trigger] out@[idx]).0.id == k by {
                assert(self.components.queued_changes.tables.keys_seq().contains(k));
                let j = choose|j: int|
                    0 <= j < self.components.queued_changes.tables.keys_seq().len()
                        && self.components.queued_changes.tables.keys_seq()[j] == k;
                assert(keys@[j] == k);
            }
        }
        self.components.queued_changes.tables.clear();
        proof {
            assert(self.wf());
        }
        out
    }

    /// The table-bearing parents whose staged children wait to be written.
    fn plan_parents(&self) -> (r: Vec<DeviceEntity>)
        requires
            self.wf(),
        ensures
            forall|i: int| 0 <= i < r@.len() ==> self.dev_alive((#[trigger] r@[i]).id),
            forall|p: u64|
                #[trigger] children_shape(*self, p) ==> exists|idx: int|
                    0 <= idx < r@.len() && (#[trigger] r@[idx]).id == p,
    {
        let keys = self.components.devices.tables.keys_vec();
        let mut out: Vec<DeviceEntity> = Vec::new();
        let n = keys.len();
        let mut i: usize = 0;
        while i < n
            invariant
                self.wf(),
                n == keys@.len(),
                keys@ == self.components.devices.tables.keys_seq(),
                i <= n,
                forall|a: int| 0 <= a < out@.len() ==> self.dev_alive((#[trigger] out@[a]).id),
                forall|jj: int|
                    0 <= jj < i && children_shape(*self, #[trigger] keys@[jj]) ==> exists|
                        idx: int,
                    | 0 <= idx < out@.len() && (#[trigger] out@[idx]).id == keys@[jj],
            decreases n - i,
        {
            let p = keys[i];
            proof {
                assert(self.components.devices.tables.keys_seq().contains(p));
                assert(self.components.devices.tables@.contains_key(p));
            }
            let flags = *self.entities.devices.get(p).unwrap();
            let ghost before = out@;
            if flags.create_children {
                out.push(DeviceEntity { id: p });
            }
            proof {
                assert forall|jj: int|
                    0 <= jj < i + 1 && children_shape(*self, #[trigger] keys@[jj]) implies exists|
                    idx: int,
                | 0 <= idx < out@.len() && (#[trigger] out@[idx]).id == keys@[jj] by {
                    if jj < i {
                        let idx = choose|idx: int|
                            0 <= idx < before.len() && (#[trigger] before[idx]).id == keys@[jj];
                        assert(out@[idx] == before[idx]);
                    } else {
                        if children_shape(*self, keys@[jj]) {
                            assert(flags.create_children);
                            assert(out@[out@.len() - 1].id == p);
                        }
                    }
                }
            }
            i = i + 1;
        }
        proof {
            assert forall|p: u64| #[trigger] children_shape(*self, p) implies exists|idx: int|
                0 <= idx < out@.len() && (#[trigger] out@[idx]).id == p by {
                assert(self.components.devices.tables.keys_seq().contains(p));
                let j = choose|j: int|
                    0 <= j < self.components.devices.tables.keys_seq().len()
                        && self.components.devices.tables.keys_seq()[j] == p;
                assert(keys@[j] == p);
            }
        }
        out
    }

    /// The staged children of `p`, in staging order.
    fn children_of_parent(&self, p: DeviceEntity) -> (r: Vec<DeviceEntity>)
        requires
            self.wf(),
        ensures
            forall|i: int| 0 <= i < r@.len() ==> self.dev_alive((#[trigger] r@[i]).id),
            forall|a: int, b: int| 0 <= a < b < r@.len() ==> r@[a].id != r@[b].id,
            forall|c: u64|
                #[trigger] self.components.queued_changes.parents@.contains_key(c)
                    && self.components.queued_changes.parents@[c].id == p.id ==> exists|idx: int|
                    0 <= idx < r@.len() && (#[trigger] r@[idx]).id == c,
    {
        let q = &self.components.queued_changes;
        proof {
            q.parents.lemma_keys_distinct();
        }
        let n = q.parents.len();
        let mut out: Vec<DeviceEntity> = Vec::new();
        let mut i: usize = 0;
        while i < n
            invariant
                self.wf(),
                *q == self.components.queued_changes,
                n == q.parents.keys_seq().len(),
                forall|a: int, b: int|
                    0 <= a < b < n ==> q.parents.keys_seq()[a] != q.parents.keys_seq()[b],
                i <= n,
                forall|a: int| 0 <= a < out@.len() ==> self.dev_alive((#[trigger] out@[a]).id),
                forall|a: int|
                    0 <= a < out@.len() ==> exists|ww: int|
                        0 <= ww < i && (#[trigger] out@[a]).id == q.parents.keys_seq()[ww],
                forall|a: int, b: int| 0 <= a < b < out@.len() ==> out@[a].id != out@[b].id,
                forall|jj: int|
                    0 <= jj < i && q.parents@[#[trigger] q.parents.keys_seq()[jj]].id == p.id
                        ==> exists|idx: int|
                        0 <= idx < out@.len() && (#[trigger] out@[idx]).id
                            == q.parents.keys_seq()[jj],
            decreases n - i,
        {
            let c = q.parents.key_at(i);
            let cparent = *q.parents.val_at(i);
            if cparent.id == p.id {
                proof {
                    assert(q.parents@.contains_key(c));
                    assert forall|a: int|
                        0 <= a < out@.len() implies (#[trigger] out@[a]).id != c by {
                        let ww = choose|ww: int|
                            0 <= ww < i && out@[a].id == q.parents.keys_seq()[ww];
                        assert(q.parents.keys_seq()[ww] != q.parents.keys_seq()[i as int]);
                    }
                }
                let ghost before = out@;
                out.push(DeviceEntity { id: c });
                proof {
                    assert forall|jj: int|
                        0 <= jj < i + 1 && q.parents@[#[trigger] q.parents.keys_seq()[jj]].id
                            == p.id implies exists|idx: int|
                        0 <= idx < out@.len() && (#[trigger] out@[idx]).id
                            == q.parents.keys_seq()[jj] by {
                        if jj < i {
                            let idx = choose|idx: int|
                                0 <= idx < before.len() && (#[trigger] before[idx]).id
                                    == q.parents.keys_seq()[jj];
                            assert(out@[idx] == before[idx]);
                        } else {
                            assert(out@[out@.len() - 1].id == c);
                        }
                    }
                }
            } else {
                proof {
                    assert(q.parents@[q.parents.keys_seq()[i as int]].id != p.id);
                }
            }
            i = i + 1;
        }
        proof {
            assert forall|c: u64|
                #[trigger] self.components.queued_changes.parents@.contains_key(c)
                    && self.components.queued_changes.parents@[c].id == p.id implies exists|
                idx: int,
            | 0 <= idx < out@.len() && (#[trigger] out@[idx]).id == c by {
                assert(q.parents.keys_seq().contains(c));
                let j = choose|j: int|
                    0 <= j < q.parents.keys_seq().len() && q.parents.keys_seq()[j] == c;
            }
        }
        out
    }

    /// Drains the staged formats into a worklist.
    fn plan_formats(&mut self) -> (r: Vec<(DeviceEntity, FileSystem)>)
        requires
            old(self).wf(),
        ensures
            final(self).wf(),
            r@.len() == old(self).components.queued_changes.formats.keys_seq().len(),
            forall|i: int| 0 <= i < r@.len() ==> final(self).dev_alive((#[trigger] r@[i]).0.id),
            final(self).components.queued_changes.labels == old(
                self,
            ).components.queued_changes.labels,
            final(self).components.devices == old(self).components.devices,
            final(self).entities == old(self).entities,
            final(self).flags == old(self).flags,
            final(self).components.vgs == old(self).components.vgs,
            forall|k: u64|
                #[trigger] old(self).components.queued_changes.formats@.contains_key(k)
                    ==> exists|idx: int|
                    0 <= idx < r@.len() && (#[trigger] r@[idx]).0.id == k,
    {
        let keys = self.components.queued_changes.formats.keys_vec();
        let mut out: Vec<(DeviceEntity, FileSystem)> = Vec::new();
        let n = keys.len();
        let mut i: usize = 0;
        while i < n
            invariant
                self.wf(),
                *self == *old(self),
                n == keys@.len(),
                keys@ == self.components.queued_changes.formats.keys_seq(),
                i <= n,
                out@.len() == i,
                forall|a: int| 0 <= a < out@.len() ==> self.dev_alive((#[trigger] out@[a]).0.id),
                forall|jj: int| 0 <= jj < i ==> (#[trigger] out@[jj]).0.id == keys@[jj],
            decreases n - i,
        {
            let k = keys[i];
            proof {
                assert(self.components.queued_changes.formats.keys_seq().contains(k));
            }
            let fs = *self.components.queued_changes.formats.get(k).unwrap();
            let ghost before = out@;
            out.push((DeviceEntity { id: k }, fs));
            proof {
                assert forall|jj: int| 0 <= jj < i + 1 implies (#[trigger] out@[jj]).0.id
                    == keys@[jj] by {
                    if jj < i {
                        assert(out@[jj] == before[jj]);
                    }
                }
            }
            i = i + 1;
        }
        proof {
            assert forall|k: u64|
                #[trigger] old(self).components.queued_changes.formats@.contains_key(
                    k,
                ) implies exists|idx: int|
                0 <= idx < out@.len() && (#[trigger] out@[idx]).0.id == k by {
                assert(self.components.queued_changes.formats.keys_seq().contains(k));
                let j = choose|j: int|
                    0 <= j < self.components.queued_changes.formats.keys_seq().len()
                        && self.components.queued_changes.formats.keys_seq()[j] == k;
                assert(out@[j].0.id == keys@[j]);
            }
        }
        self.components.queued_changes.formats.clear();
        proof {
            assert(self.wf());
        }
        out
    }

    /// The table parents whose children have labels staged, with each
    /// child's new label.
    fn plan_labels(&self) -> (r: Vec<(DeviceEntity, Vec<(DeviceEntity, String)>)>)
        requires
            self.wf(),
        ensures
            forall|i: int|
                0 <= i < r@.len() ==> self.dev_alive((#[trigger] r@[i]).0.id) && (forall|j: int|
                    0 <= j < r@[i].1@.len() ==> self.dev_alive((#[trigger] r@[i].1@[j]).0.id)),
            forall|p: u64|
                #[trigger] label_shape(*self, p) ==> exists|idx: int|
                    0 <= idx < r@.len() && (#[trigger] r@[idx]).0.id == p,
    {
        let keys = self.components.devices.tables.keys_vec();
        let mut out: Vec<(DeviceEntity, Vec<(DeviceEntity, String)>)> = Vec::new();
        let n = keys.len();
        let mut i: usize = 0;
        while i < n
            invariant
                self.wf(),
                n == keys@.len(),
                keys@ == self.components.devices.tables.keys_seq(),
                i <= n,
                forall|a: int|
                    0 <= a < out@.len() ==> self.dev_alive((#[trigger] out@[a]).0.id) && (forall|
                        j: int,
                    |
                        0 <= j < out@[a].1@.len() ==> self.dev_alive(
                            (#[trigger] out@[a].1@[j]).0.id,
                        )),
                forall|jj: int|
                    0 <= jj < i && label_shape(*self, #[trigger] keys@[jj]) ==> exists|idx: int|
                        0 <= idx < out@.len() && (#[trigger] out@[idx]).0.id == keys@[jj],
            decreases n - i,
        {
            let p = keys[i];
            proof {
                assert(self.components.devices.tables.keys_seq().contains(p));
                assert(self.components.devices.tables@.contains_key(p));
            }
            let ghost before = out@;
            if let Some(kids) = self.components.devices.children.get(p) {
                let mut items: Vec<(DeviceEntity, String)> = Vec::new();
                let kn = kids.len();
                let mut j: usize = 0;
                while j < kn
                    invariant
                        self.wf(),
                        self.components.devices.children@.contains_key(p),
                        *kids == self.components.devices.children@[p],
                        kn == kids@.len(),
                        j <= kn,
                        forall|a: int|
                            0 <= a < items@.len() ==> self.dev_alive(
                                (#[trigger] items@[a]).0.id,
                            ),
                        (exists|jj: int|
                            0 <= jj < j && self.components.queued_changes.labels@.contains_key(
                                (#[trigger] kids@[jj]).id,
                            )) ==> items@.len() > 0,
                    decreases kn - j,
                {
                    let c = kids[j];
                    if let Some(label) = self.components.queued_changes.labels.get(c.id) {
                        items.push((c, label.clone()));
                    }
                    proof {
                        if exists|jj: int|
                            0 <= jj < j + 1 && self.components.queued_changes.labels@.contains_key(
                                (#[trigger] kids@[jj]).id,
                            ) {
                            let jj = choose|jj: int|
                                0 <= jj < j + 1
                                    && self.components.queued_changes.labels@.contains_key(
                                    (#[trigger] kids@[jj]).id,
                                );
                            if jj == j {
                                assert(items@.len() > 0);
                            }
                        }
                    }
                    j = j + 1;
                }
                proof {
                    if label_shape(*self, p) {
                        let wj = choose|wj: int|
                            0 <= wj < self.components.devices.children@[p]@.len()
                                && self.components.queued_changes.labels@.contains_key(
                                (#[trigger] self.components.devices.children@[p]@[wj]).id,
                            );
                        assert(items@.len() > 0);
                    }
                }
                if items.len() > 0 {
                    out.push((DeviceEntity { id: p }, items));
                }
            }
            proof {
                assert forall|jj: int|
                    0 <= jj < i + 1 && label_shape(*self, #[trigger] keys@[jj]) implies exists|
                    idx: int,
                | 0 <= idx < out@.len() && (#[trigger] out@[idx]).0.id == keys@[jj] by {
                    if jj < i {
                        let idx = choose|idx: int|
                            0 <= idx < before.len() && (#[trigger] before[idx]).0.id
                                == keys@[jj];
                        assert(out@[idx] == before[idx]);
                    } else {
                        if label_shape(*self, keys@[jj]) {
                            assert(out@[out@.len() - 1].0.id == p);
                        }
                    }
                }
            }
            i = i + 1;
        }
        proof {
            assert forall|p: u64| #[trigger] label_shape(*self, p) implies exists|idx: int|
                0 <= idx < out@.len() && (#[trigger] out@[idx]).0.id == p by {
                assert(self.components.devices.tables.keys_seq().contains(p));
                let j = choose|j: int|
                    0 <= j < self.components.devices.tables.keys_seq().len()
                        && self.components.devices.tables.keys_seq()[j] == p;
                assert(keys@[j] == p);
            }
        }
        out
    }

    /// Commits a whole-device wipe: the device keeps its entity, loses its
    /// partition record, its children are freed outright, its removal mark
    /// is cleared, and — unless it is itself being re-created — its table
    /// record goes too.
    fn commit_wipe(&mut self, e: DeviceEntity)
        requires
            old(self).wf(),
            old(self).dev_alive(e.id),
            old(self).components.devices.devices@.contains_key(e.id),
        ensures
            final(self).wf(),
            final(self).dev_alive(e.id),
            forall|k: u64|
                #[trigger] final(self).dev_alive(k) ==> old(self).dev_alive(k),
            !final(self).components.devices.children@.contains_key(e.id),
            !final(self).components.devices.partitions@.contains_key(e.id),
            final(self).components.devices.devices@.contains_key(e.id),
            !old(self).dev_flags(e.id).create
                ==> !final(self).components.devices.tables@.contains_key(e.id),
            !final(self).dev_flags(e.id).remove,
    {
        let desc = self.descendants_list(e);
        let n = desc.len();
        let mut i: usize = 0;
        while i < n
            invariant
                self.wf(),
                n == desc@.len(),
                i <= n,
                desc@.contains(e.id),
                self.dev_alive(e.id),
                self.components.devices.devices@.contains_key(e.id),
                forall|k: u64| #[trigger] self.dev_alive(k) ==> old(self).dev_alive(k),
                forall|k: u64|
                    self.dev_alive(k) ==> #[trigger] self.dev_flags(k) == old(self).dev_flags(k),
            decreases n - i,
        {
            let d = desc[i];
            if d != e.id {
                self.purge_entity(d);
            }
            i = i + 1;
        }
        let ghost w_end = *self;
        self.components.devices.children.remove(e.id);
        self.components.devices.partitions.remove(e.id);
        let flags = *self.entities.devices.get(e.id).unwrap();
        if !flags.create {
            self.components.devices.tables.remove(e.id);
        }
        proof {
            assert(self.entities == w_end.entities);
            assert(w_end.dev_alive(e.id));
            assert(w_end.dev_flags(e.id) == old(self).dev_flags(e.id));
            assert(flags == old(self).dev_flags(e.id));
        }
        let ghost w_mid = *self;
        self.entities.devices.insert(e.id, EntityFlags { remove: false, ..flags });
        proof {
            assert forall|k: u64| #[trigger] self.dev_alive(k) implies old(self).dev_alive(
                k,
            ) by {
                if k != e.id {
                    assert(w_mid.dev_alive(k));
                    assert(w_end.dev_alive(k));
                }
            }
            assert(!self.components.devices.children@.contains_key(e.id));
            assert(!self.components.devices.partitions@.contains_key(e.id));
            assert(self.components.devices.devices@.contains_key(e.id));
            assert(self.wf());
        }
    }

    /// Commits the freeing of removed children from a kept parent: each
    /// child and everything under it leaves the world.
    fn commit_free(&mut self, kids: &Vec<DeviceEntity>)
        requires
            old(self).wf(),
        ensures
            final(self).wf(),
            forall|k: u64|
                #[trigger] final(self).dev_alive(k) ==> old(self).dev_alive(k),
            forall|j: int| 0 <= j < kids@.len() ==> !final(self).dev_alive((#[trigger] kids@[j]).id),
    {
        let n = kids.len();
        let mut i: usize = 0;
        while i < n
            invariant
                self.wf(),
                n == kids@.len(),
                i <= n,
                forall|k: u64| #[trigger] self.dev_alive(k) ==> old(self).dev_alive(k),
                forall|j: int| 0 <= j < i ==> !self.dev_alive((#[trigger] kids@[j]).id),
            decreases n - i,
        {
            let c = kids[i];
            if self.entities.devices.contains_key(c.id) {
                let desc = self.descendants_list(c);
                let dn = desc.len();
                let mut j: usize = 0;
                let ghost before = i as int;
                while j < dn
                    invariant
                        self.wf(),
                        dn == desc@.len(),
                        j <= dn,
                        desc@.contains(c.id),
                        c == kids@[before],
                        0 <= before < kids@.len(),
                        forall|k: u64| #[trigger] self.dev_alive(k) ==> old(self).dev_alive(k),
                        forall|a: int| 0 <= a < before ==> !self.dev_alive((#[trigger] kids@[a]).id),
                        j > 0 && desc@[0] == c.id ==> !self.dev_alive(c.id),
                        forall|a: int| 0 <= a < j ==> !self.dev_alive(#[trigger] desc@[a]),
                    decreases dn - j,
                {
                    self.purge_entity(desc[j]);
                    proof {
                        assert forall|a: int| 0 <= a < j + 1 implies !self.dev_alive(
                            #[trigger] desc@[a]) by {}
                    }
                    j = j + 1;
                }
                proof {
                    let wdx = choose|wdx: int| 0 <= wdx < desc@.len() && desc@[wdx] == c.id;
                    assert(!self.dev_alive(c.id));
                }
            }
            i = i + 1;
        }
    }

    /// Commits a freshly written table: the record enters the world and
    /// the device's creation mark is cleared.
    fn commit_table(&mut self, p: DeviceEntity, kind: PartitionTable)
        requires
            old(self).wf(),
            old(self).dev_alive(p.id),
        ensures
            final(self).wf(),
            forall|k: u64| #[trigger] final(self).dev_alive(k) <==> old(self).dev_alive(k),
            final(self).components.devices.tables@ == old(
                self,
            ).components.devices.tables@.insert(p.id, kind),
    {
        let flags = *self.entities.devices.get(p.id).unwrap();
        self.entities.devices.insert(p.id, EntityFlags { create: false, ..flags });
        self.components.devices.tables.insert(p.id, kind);
        proof {
            assert(self.wf());
        }
    }

    /// Commits the children just written to a parent's table: their staged
    /// device and partition records become committed, each takes the slot
    /// number the table gave it, they join the parent's children, and any
    /// staged LUKS parameters become pending container jobs. Children
    /// staged with a plain file system queue that format.
    fn commit_children(
        &mut self,
        p: DeviceEntity,
        kids: &Vec<DeviceEntity>,
        numbers: &Vec<u32>,
        luks_out: &mut Vec<(DeviceEntity, DeviceEntity, crate::luks::LuksParams)>,
    )
        requires
            old(self).wf(),
            old(self).dev_alive(p.id),
            old(self).components.devices.tables@.contains_key(p.id),
            forall|i: int| 0 <= i < kids@.len() ==> old(self).dev_alive((#[trigger] kids@[i]).id),
            forall|a: int, b: int| 0 <= a < b < kids@.len() ==> kids@[a].id != kids@[b].id,
        ensures
            final(self).wf(),
            forall|k: u64| #[trigger] final(self).dev_alive(k) <==> old(self).dev_alive(k),
            final(self).components.devices.tables == old(self).components.devices.tables,
            forall|j: int|
                #![trigger kids@[j]]
                0 <= j < kids@.len() && old(self).components.queued_changes.devices@.contains_key(
                    kids@[j].id,
                ) && old(self).components.queued_changes.partitions@.contains_key(kids@[j].id)
                    ==> {
                    let cid = kids@[j].id;
                    let q0 = old(self).components.queued_changes;
                    let c1 = final(self).components.devices;
                    &&& c1.devices@.contains_key(cid)
                    &&& c1.devices@[cid] == q0.devices@[cid]
                    &&& c1.partitions@.contains_key(cid)
                    &&& c1.partitions@[cid] == (Partition {
                        number: if j < numbers@.len() {
                            numbers@[j]
                        } else {
                            0u32
                        },
                        ..q0.partitions@[cid]
                    })
                    &&& c1.children@.contains_key(p.id)
                    &&& c1.children@[p.id]@.contains(kids@[j])
                },
    {
        let ghost w0 = *self;
        let pflags = *self.entities.devices.get(p.id).unwrap();
        self.entities.devices.insert(p.id, EntityFlags { create_children: false, ..pflags });
        proof {
            assert(self.entities.devices@.dom() =~= w0.entities.devices@.dom());
            assert forall|k: u64| #[trigger] self.dev_alive(k) <==> w0.dev_alive(k) by {
                assert(self.entities.devices@.dom().contains(k) == w0.entities.devices@.dom()
                    .contains(k));
            }
            assert(self.wf());
        }
        let n = kids.len();
        let mut i: usize = 0;
        while i < n
            invariant
                self.wf(),
                n == kids@.len(),
                i <= n,
                self.dev_alive(p.id),
                self.components.devices.tables == w0.components.devices.tables,
                self.components.devices.tables@.contains_key(p.id),
                self.components.devices.devices@.contains_key(p.id)
                    || !self.dev_flags(p.id).create,
                self.entities.devices@.dom() == w0.entities.devices@.dom(),
                forall|k: u64| #[trigger] self.dev_alive(k) <==> w0.dev_alive(k),
                forall|a: int|
                    0 <= a < kids@.len() ==> self.dev_alive((#[trigger] kids@[a]).id),
                forall|a: int, b: int| 0 <= a < b < kids@.len() ==> kids@[a].id != kids@[b].id,
                // The staged records of the children still to commit are
                // untouched.
                forall|a: int|
                    #![trigger kids@[a]]
                    i <= a < n ==> {
                        let cid = kids@[a].id;
                        let q = self.components.queued_changes;
                        let q0 = w0.components.queued_changes;
                        &&& q.devices@.contains_key(cid) == q0.devices@.contains_key(cid)
                        &&& (q0.devices@.contains_key(cid) ==> q.devices@[cid] == q0.devices@[cid])
                        &&& q.partitions@.contains_key(cid) == q0.partitions@.contains_key(cid)
                        &&& (q0.partitions@.contains_key(cid) ==> q.partitions@[cid]
                            == q0.partitions@[cid])
                    },
                // The children already committed stay committed.
                forall|j: int|
                    #![trigger kids@[j]]
                    0 <= j < i && w0.components.queued_changes.devices@.contains_key(kids@[j].id)
                        && w0.components.queued_changes.partitions@.contains_key(kids@[j].id)
                        ==> {
                        let cid = kids@[j].id;
                        let q0 = w0.components.queued_changes;
                        let c1 = self.components.devices;
                        &&& c1.devices@.contains_key(cid)
                        &&& c1.devices@[cid] == q0.devices@[cid]
                        &&& c1.partitions@.contains_key(cid)
                        &&& c1.partitions@[cid] == (Partition {
                            number: if j < numbers@.len() {
                                numbers@[j]
                            } else {
                                0u32
                            },
                            ..q0.partitions@[cid]
                        })
                        &&& c1.children@.contains_key(p.id)
                        &&& c1.children@[p.id]@.contains(kids@[j])
                    },
            decreases n - i,
        {
            let c = kids[i];
            let number: u32 = if i < numbers.len() {
                numbers[i]
            } else {
                0
            };
            let qdev = self.components.queued_changes.devices.remove(c.id);
            let qpart = self.components.queued_changes.partitions.remove(c.id);
            self.components.queued_changes.parents.remove(c.id);
            if let (Some(dev), Some(part)) = (qdev, qpart) {
                self.components.devices.devices.insert(c.id, dev);
                let committed = Partition { number, ..part };
                let is_luks = committed.filesystem == Some(FileSystem::Luks);
                let plain_fs = committed.filesystem;
                self.components.devices.partitions.insert(c.id, committed);
                let ghost w_pre = *self;
                let cflags = *self.entities.devices.get(c.id).unwrap();
                self.entities.devices.insert(c.id, EntityFlags { create: false, ..cflags });
                proof {
                    assert(self.entities.devices@.dom() =~= w_pre.entities.devices@.dom());
                    assert forall|k: u64| #[trigger] self.dev_alive(k) <==> w0.dev_alive(k) by {
                        assert(self.entities.devices@.dom().contains(k)
                            == w0.entities.devices@.dom().contains(k));
                    }
                }
                let mut list = match self.components.devices.children.remove(p.id) {
                    Some(l) => l,
                    None => Vec::new(),
                };
                let ghost lbefore = list@;
                list.push(c);
                proof {
                    assert forall|j: int|
                        0 <= j < list@.len() implies self.dev_alive(
                        (#[trigger] list@[j]).id) by {}
                }
                self.components.devices.children.insert(p.id, list);
                proof {
                    // Earlier commits keep their place in the parent's list.
                    assert(self.components.devices.children@[p.id]@ == lbefore.push(c));
                    assert forall|j: int|
                        0 <= j < i && lbefore.contains(
                            #[trigger] kids@[j],
                        ) implies self.components.devices.children@[p.id]@.contains(
                        kids@[j]) by {
                        let widx = choose|widx: int|
                            0 <= widx < lbefore.len() && lbefore[widx] == kids@[j];
                        assert(self.components.devices.children@[p.id]@[widx] == kids@[j]);
                    }
                    assert(self.components.devices.children@[p.id]@[lbefore.len() as int] == c);
                }
                if is_luks {
                    if let Some((g, params)) = self.components.queued_changes.luks.remove(c.id) {
                        luks_out.push((c, g, params));
                    }
                } else {
                    if let Some(fs) = plain_fs {
                        self.components.queued_changes.formats.insert(c.id, fs);
                    }
                }
                proof {
                    assert(self.wf());
                }
            }
            i = i + 1;
        }
    }

    /// Commits a formatted LUKS container: the passphrase is remembered,
    /// the plaintext child sheds its creation mark and materializes as a
    /// device map under `/dev/mapper`, its size the parent's less the
    /// 2 MiB container header, and it becomes the container's only child.
    fn commit_luks(
        &mut self,
        parent: DeviceEntity,
        child: DeviceEntity,
        params: crate::luks::LuksParams,
    )
        requires
            old(self).wf(),
            old(self).dev_alive(parent.id),
            old(self).dev_alive(child.id),
            old(self).components.devices.devices@.contains_key(parent.id),
        ensures
            final(self).wf(),
            forall|k: u64| #[trigger] final(self).dev_alive(k) <==> old(self).dev_alive(k),
            final(self).components.devices.luks@.contains_key(parent.id),
            (final(self).components.devices.luks@[parent.id] matches Some(k) <==> params.passphrase
                is Some),
            final(self).components.devices.luks@[parent.id] matches Some(k)
                ==> params.passphrase matches Some(pp) && k@ == pp@,
            // The container has exactly one child: its plaintext device,
            // keeping the mark it was staged with, named after the target
            // and sized at the parent less the container header.
            final(self).components.devices.children@.contains_key(parent.id),
            final(self).components.devices.children@[parent.id]@ == seq![child],
            final(self).dev_flags(child.id).luks_child == old(self).dev_flags(child.id).luks_child,
            !final(self).dev_flags(child.id).create,
            final(self).components.devices.devices@.contains_key(child.id),
            ({
                let pdev = old(self).components.devices.devices@[parent.id];
                let cdev = final(self).components.devices.devices@[child.id];
                let header = 2097152 as int / pdev.logical_sector_size as int;
                &&& cdev.name@ == params.target_name@
                &&& cdev.path@ == "/dev/mapper/"@ + params.target_name@
                &&& cdev.logical_sector_size == pdev.logical_sector_size
                &&& cdev.sectors == if pdev.sectors >= header {
                    pdev.sectors - header
                } else {
                    0int
                }
            }),
            final(self).components.devices.device_maps@.contains_key(child.id),
            final(self).components.devices.device_maps@[child.id]@ == params.target_name@,
            final(self).components.devices.tables == old(self).components.devices.tables,
            final(self).components.devices.partitions == old(self).components.devices.partitions,
    {
        let ghost w0 = *self;
        self.components.devices.luks.insert(parent.id, params.passphrase);
        let cflags = *self.entities.devices.get(child.id).unwrap();
        self.entities.devices.insert(child.id, EntityFlags { create: false, ..cflags });
        proof {
            assert(self.entities.devices@.dom() =~= w0.entities.devices@.dom());
            assert forall|k: u64| #[trigger] self.dev_alive(k) <==> w0.dev_alive(k) by {
                assert(self.entities.devices@.dom().contains(k) == w0.entities.devices@.dom()
                    .contains(k));
            }
            assert(self.wf());
        }
        if let Some(pdev) = self.components.devices.devices.get(parent.id) {
            proof {
                assert(pdev.wf());
            }
            let lss = pdev.logical_sector_size;
            let header: u64 = 2 * 1024 * 1024 / lss;
            let sectors: u64 = if pdev.sectors >= header {
                pdev.sectors - header
            } else {
                0
            };
            let path = String::from_str("/dev/mapper/").concat(params.target_name.as_str());
            let dev = Device {
                name: params.target_name.clone(),
                path,
                sectors,
                logical_sector_size: lss,
                physical_sector_size: pdev.physical_sector_size,
            };
            proof {
                crate::create::lemma_mul_le(
                    sectors as int,
                    pdev.sectors as int,
                    lss as int,
                );
                assert(dev.wf());
            }
            self.components.devices.devices.insert(child.id, dev);
            self.components.devices.device_maps.insert(child.id, params.target_name);
            let mut list: Vec<DeviceEntity> = Vec::new();
            list.push(child);
            self.components.devices.children.insert(parent.id, list);
            proof {
                assert(self.wf());
            }
        }
    }

    /// Commits one format: the device's partition record takes the new
    /// file system, gaining a whole-device record if it had none.
    fn commit_format(&mut self, e: DeviceEntity, fs: FileSystem)
        requires
            old(self).wf(),
            old(self).dev_alive(e.id),
            old(self).components.devices.devices@.contains_key(e.id),
        ensures
            final(self).wf(),
            forall|k: u64| #[trigger] final(self).dev_alive(k) <==> old(self).dev_alive(k),
            final(self).components.devices.partitions@.contains_key(e.id),
            final(self).components.devices.partitions@[e.id].filesystem == Some(fs),
            final(self).components.devices.partitions@ == old(
                self,
            ).components.devices.partitions@.insert(
                e.id,
                final(self).components.devices.partitions@[e.id],
            ),
            final(self).components.devices.devices == old(self).components.devices.devices,
            final(self).components.devices.children == old(self).components.devices.children,
            final(self).components.devices.tables == old(self).components.devices.tables,
    {
        let updated = match self.components.devices.partitions.get(e.id) {
            Some(part) => Partition { filesystem: Some(fs), ..part.clone_record() },
            None => Partition { filesystem: Some(fs), ..Partition::at_offset(0) },
        };
        self.components.devices.partitions.insert(e.id, updated);
        proof {
            assert(self.wf());
        }
    }

    /// Commits written labels: each child's partition record takes its new
    /// label, and the staged entries are dropped.
    fn commit_labels(&mut self, items: &Vec<(DeviceEntity, String)>)
        requires
            old(self).wf(),
        ensures
            final(self).wf(),
            forall|k: u64| #[trigger] final(self).dev_alive(k) <==> old(self).dev_alive(k),
            final(self).components.devices.devices == old(self).components.devices.devices,
            final(self).components.devices.children == old(self).components.devices.children,
            final(self).components.devices.tables == old(self).components.devices.tables,
            // Each relabelled child keeps its record, its label now the
            // new one — unless a later item names the same child again.
            forall|j: int|
                #![trigger items@[j]]
                0 <= j < items@.len() && old(self).components.devices.partitions@.contains_key(
                    items@[j].0.id,
                ) && (forall|a: int| j < a < items@.len() ==> items@[a].0.id != items@[j].0.id)
                    ==> {
                    let c1 = final(self).components.devices.partitions;
                    &&& c1@.contains_key(items@[j].0.id)
                    &&& c1@[items@[j].0.id] == (Partition {
                        partlabel: Some(items@[j].1),
                        ..old(self).components.devices.partitions@[items@[j].0.id]
                    })
                },
    {
        let ghost w0 = *self;
        let n = items.len();
        let mut i: usize = 0;
        while i < n
            invariant
                self.wf(),
                n == items@.len(),
                i <= n,
                self.entities == w0.entities,
                self.components.devices.devices == w0.components.devices.devices,
                self.components.devices.children == w0.components.devices.children,
                self.components.devices.tables == w0.components.devices.tables,
                forall|k: u64|
                    #[trigger] self.components.devices.partitions@.contains_key(k)
                        <==> w0.components.devices.partitions@.contains_key(k),
                // Only labels ever change: every other field of every
                // record stays what it was.
                forall|k: u64|
                    #[trigger] self.components.devices.partitions@.contains_key(k)
                        ==> self.components.devices.partitions@[k] == (Partition {
                        partlabel: self.components.devices.partitions@[k].partlabel,
                        ..w0.components.devices.partitions@[k]
                    }),
                forall|j: int|
                    #![trigger items@[j]]
                    0 <= j < i && w0.components.devices.partitions@.contains_key(items@[j].0.id)
                        && (forall|a: int| j < a < i ==> items@[a].0.id != items@[j].0.id) ==> {
                        let c1 = self.components.devices.partitions;
                        &&& c1@.contains_key(items@[j].0.id)
                        &&& c1@[items@[j].0.id] == (Partition {
                            partlabel: Some(items@[j].1),
                            ..w0.components.devices.partitions@[items@[j].0.id]
                        })
                    },
                forall|k: u64|
                    #[trigger] w0.components.devices.partitions@.contains_key(k) && (forall|a: int|
                        0 <= a < i ==> items@[a].0.id != k)
                        ==> self.components.devices.partitions@[k]
                        == w0.components.devices.partitions@[k],
            decreases n - i,
        {
            let (c, label) = &items[i];
            self.components.queued_changes.labels.remove(c.id);
            if let Some(part) = self.components.devices.partitions.get(c.id) {
                let updated = Partition { partlabel: Some(label.clone()), ..part.clone_record() };
                self.components.devices.partitions.insert(c.id, updated);
            }
            proof {
                assert(self.wf());
            }
            i = i + 1;
        }
    }
}

impl ApplyRun {
    /// Feeds the engine the outcome of the last action (or `Begin` to
    /// start) and receives the next action, or the run's result. On the
    /// first failure, and when the run completes, every staged change is
    /// discarded and no entity keeps a creation mark.
    #[verifier::rlimit(100)]
    #[verifier::spinoff_prover]
    pub fn step(&mut self, w: &mut DiskManager, event: Event, cancel: bool) -> (r: Directive)
        requires
            old(w).wf(),
            old(self).inv(*old(w)),
            !old(self).finished(),
            old(self).expects(event),
        ensures
            final(w).wf(),
            final(self).inv(*final(w)),
            r matches Directive::Next(a) ==> !final(self).finished() && (forall|ns: Vec<u32>|
                a is AddToTable ==> final(self).expects(Event::Added(ns))) && (!(a
                is AddToTable) ==> final(self).expects(Event::Done)) && (forall|err: ApplyError|
                final(self).expects(Event::Failed(err))),
            r matches Directive::Complete(_) ==> final(self).finished()
                && final(w).components.queued_changes.is_empty()
                && final(w).flags == ManagerFlags::spec_empty()
                && (forall|k: u64|
                #[trigger] final(w).dev_alive(k) ==> final(w).dev_flags(k).create == false
                    && final(w).dev_flags(k).remove == false),
            // Every issued action carries the world's own records: the
            // device paths, the staged regions and labels, the container
            // parameters.
            r matches Directive::Next(a) ==> action_describes(*final(self), *final(w), a),
            // The run's outcome is tied down: a reported failure ends the
            // run with that failure, cancellation ends it before the first
            // system, and a world with nothing to do completes at once.
            event matches Event::Failed(err) ==> r == Directive::Complete(
                Err::<(), ApplyError>(err),
            ),
            event is Begin && cancel ==> r == Directive::Complete(
                Err::<(), ApplyError>(ApplyError::Cancelled),
            ),
            // On the paths that commit nothing — a pre-set cancel or a
            // reported failure — the committed world survives untouched:
            // only the staged state is dropped.
            event is Begin && cancel ==> crate::laws::unset_shape(*old(w), *final(w)),
            event matches Event::Failed(_) ==> crate::laws::unset_shape(*old(w), *final(w)),
            // A first step over a world with staged work cannot complete:
            // the engine owes the caller an action.
            event is Begin && old(self).fresh() && !cancel && staged_action(*old(w)) ==> r
                matches Directive::Next(_),
            event is Begin && idle_entry(*old(self), *old(w), cancel) ==> r
                == Directive::Complete(Ok::<(), ApplyError>(())),
            r matches Directive::Complete(Err(err)) ==> (event matches Event::Failed(e2) && err
                == e2) || (cancel && err == ApplyError::Cancelled),
            // What a reported outcome commits, read against the job that
            // was pending when the event arrived.
            !(event matches Event::Failed(_)) ==> step_commits(
                *old(self),
                *old(w),
                event,
                *final(w),
            ),
    {
        let mut job = Job::Idle;
        core::mem::swap(&mut job, &mut self.current);
        if let Event::Failed(err) = event {
            w.unset();
            self.clear_work();
            return Directive::Complete(Err(err));
        }
        match job {
            Job::Idle => {
                if cancel {
                    w.unset();
                    self.clear_work();
                    return Directive::Complete(Err(ApplyError::Cancelled));
                }
                if w.flags.remove {
                    let planned = w.plan_wipes();
                    let ghost planned_seq = planned@;
                    self.wipes = planned;
                    proof {
                        if old(self).fresh() && staged_action(*old(w)) {
                            assert forall|k: u64| #[trigger] wipe_shape(*w, k) implies exists|
                                idx: int,
                            | 0 <= idx < self.wipes@.len() && (#[trigger] self.wipes@[idx]).id
                                == k by {
                                let idx = choose|idx: int|
                                    0 <= idx < planned_seq.len() && (#[trigger] planned_seq[idx]).id
                                        == k;
                                assert(self.wipes@ == planned_seq);
                                assert(self.wipes@[idx].id == k);
                            }
                            assert(begin_entry(*self, *w));
                        }
                    }
                } else {
                    proof {
                        if old(self).fresh() && staged_action(*old(w)) {
                            assert forall|k: u64| #[trigger] wipe_shape(*w, k) implies exists|
                                idx: int,
                            | 0 <= idx < self.wipes@.len() && (#[trigger] self.wipes@[idx]).id
                                == k by {
                                assert(w.flags.remove);
                            }
                            assert(begin_entry(*self, *w));
                        }
                    }
                }
            },
            Job::Wipe(e) => {
                if w.entities.devices.contains_key(e.id) {
                    w.commit_wipe(e);
                }
            },
            Job::Free(_p, kids) => {
                w.commit_free(&kids);
            },
            Job::Table(p, kind) => {
                if w.entities.devices.contains_key(p.id) {
                    w.commit_table(p, kind);
                }
            },
            Job::Children(p, kids) => {
                let numbers = match event {
                    Event::Added(n) => n,
                    _ => Vec::new(),
                };
                w.commit_children(p, &kids, &numbers, &mut self.luks_jobs);
            },
            Job::Luks(p, c, params) => {
                w.commit_luks(p, c, params);
            },
            Job::Format(e, fs) => {
                w.commit_format(e, fs);
            },
            Job::Labels(items) => {
                w.commit_labels(&items);
            },
        }
        self.advance(w, cancel)
    }

    /// Finds the next action, moving through the systems in order: wipe,
    /// free, new tables, new children, containers, formats, labels. The
    /// cancellation flag is honoured at the system boundaries; when every
    /// system is done, the staged state is discarded and the run ends.
    #[verifier::rlimit(100)]
    #[verifier::spinoff_prover]
    fn advance(&mut self, w: &mut DiskManager, cancel: bool) -> (r: Directive)
        requires
            old(w).wf(),
            old(self).inv(*old(w)),
            old(self).current is Idle,
        ensures
            final(w).wf(),
            final(self).inv(*final(w)),
            r matches Directive::Next(a) ==> !final(self).finished() && (forall|ns: Vec<u32>|
                a is AddToTable ==> final(self).expects(Event::Added(ns))) && (!(a
                is AddToTable) ==> final(self).expects(Event::Done)) && (forall|err: ApplyError|
                final(self).expects(Event::Failed(err))),
            r matches Directive::Complete(_) ==> final(self).finished()
                && final(w).components.queued_changes.is_empty()
                && final(w).flags == ManagerFlags::spec_empty()
                && (forall|k: u64|
                #[trigger] final(w).dev_alive(k) ==> final(w).dev_flags(k).create == false
                    && final(w).dev_flags(k).remove == false),
            r matches Directive::Next(a) ==> action_describes(*final(self), *final(w), a),
            r matches Directive::Complete(Err(err)) ==> cancel && err == ApplyError::Cancelled,
            idle_entry(*old(self), *old(w), cancel) ==> r == Directive::Complete(
                Ok::<(), ApplyError>(()),
            ),
            // A first pass over a world with staged work cannot complete:
            // it must hand an action out.
            begin_entry(*old(self), *old(w)) && !cancel && staged_action(*old(w)) ==> r
                matches Directive::Next(_),
            // The committed half of the world is not the planner's to
            // touch: it only drains staged queues, clears marks and, at
            // the end, unsets.
            final(w).components.devices == old(w).components.devices,
            final(w).components.vgs == old(w).components.vgs,
            forall|k: u64| #[trigger] final(w).dev_alive(k) ==> old(w).dev_alive(k),
            forall|k: u64|
                #[trigger] old(w).dev_alive(k) && old(w).components.devices.devices@.contains_key(
                    k,
                ) ==> final(w).dev_alive(k) && final(w).dev_flags(k).luks_child == old(
                    w,
                ).dev_flags(k).luks_child,
    {
        if self.phase == Phase::RemoveWipes {
            loop
                invariant
                    w.wf(),
                    self.inv(*w),
                    self.current is Idle,
                    self.phase == Phase::RemoveWipes,
                    idle_entry(*old(self), *old(w), cancel) ==> self.wipes@.len() == 0
                        && self.frees@.len() == 0 && self.tables@.len() == 0
                        && self.parents@.len() == 0 && self.luks_jobs@.len() == 0
                        && self.formats@.len() == 0 && self.labels@.len() == 0 && *w == *old(w),
                    *w == *old(w),
                    begin_entry(*old(self), *old(w)) && !cancel ==> self.frees@.len() == 0
                        && self.tables@.len() == 0 && self.parents@.len() == 0
                        && self.luks_jobs@.len() == 0 && self.formats@.len() == 0
                        && self.labels@.len() == 0,
                    begin_entry(*old(self), *old(w)) && !cancel && (exists|k: u64|
                        #[trigger] wipe_shape(*old(w), k)) ==> exists|idx: int|
                        0 <= idx < self.wipes@.len() && wipe_shape(
                            *old(w),
                            (#[trigger] self.wipes@[idx]).id,
                        ),
                ensures
                    begin_entry(*old(self), *old(w)) && !cancel ==> !(exists|k: u64|
                        #[trigger] wipe_shape(*old(w), k)),
                decreases self.wipes@.len(),
            {
                let ghost wipes_before = self.wipes@;
                match self.wipes.pop() {
                    Some(e) => {
                        if let Some(f) = w.entities.devices.get(e.id) {
                            if f.remove {
                                if let Some(d) = w.components.devices.devices.get(e.id) {
                                    let path = d.path.clone();
                                    self.current = Job::Wipe(e);
                                    return Directive::Next(Action::Wipefs { path });
                                }
                            }
                        }
                        proof {
                            if begin_entry(*old(self), *old(w)) && !cancel && (exists|k: u64|
                                #[trigger] wipe_shape(*old(w), k)) {
                                assert(!wipe_shape(*old(w), e.id));
                                let idx = choose|idx: int|
                                    0 <= idx < wipes_before.len() && wipe_shape(
                                        *old(w),
                                        (#[trigger] wipes_before[idx]).id,
                                    );
                                assert(idx < wipes_before.len() - 1);
                                assert(self.wipes@[idx] == wipes_before[idx]);
                            }
                        }
                    },
                    None => {
                        break ;
                    },
                }
            }
            self.phase = Phase::RemoveFrees;
            if w.flags.remove {
                self.frees = w.plan_frees();
            }
            proof {
                if begin_entry(*old(self), *old(w)) && !cancel && (exists|p: u64|
                    #[trigger] free_shape(*old(w), p)) {
                    let p = choose|p: u64| #[trigger] free_shape(*old(w), p);
                    assert(free_shape(*w, p));
                    let idx = choose|idx: int|
                        0 <= idx < self.frees@.len() && (#[trigger] self.frees@[idx]).0.id == p;
                    assert(free_shape(*old(w), self.frees@[idx].0.id));
                }
            }
        }
        if self.phase == Phase::RemoveFrees {
            loop
                invariant
                    w.wf(),
                    self.inv(*w),
                    self.current is Idle,
                    self.phase == Phase::RemoveFrees,
                    idle_entry(*old(self), *old(w), cancel) ==> self.frees@.len() == 0
                        && self.tables@.len() == 0 && self.parents@.len() == 0
                        && self.luks_jobs@.len() == 0 && self.formats@.len() == 0
                        && self.labels@.len() == 0 && *w == *old(w),
                    *w == *old(w),
                    begin_entry(*old(self), *old(w)) && !cancel ==> !(exists|k: u64|
                        #[trigger] wipe_shape(*old(w), k)) && self.tables@.len() == 0
                        && self.parents@.len() == 0 && self.luks_jobs@.len() == 0
                        && self.formats@.len() == 0 && self.labels@.len() == 0,
                    begin_entry(*old(self), *old(w)) && !cancel && (exists|p: u64|
                        #[trigger] free_shape(*old(w), p)) ==> exists|idx: int|
                        0 <= idx < self.frees@.len() && free_shape(
                            *old(w),
                            (#[trigger] self.frees@[idx]).0.id,
                        ),
                ensures
                    begin_entry(*old(self), *old(w)) && !cancel ==> !(exists|k: u64|
                        #[trigger] wipe_shape(*old(w), k)) && !(exists|p: u64|
                        #[trigger] free_shape(*old(w), p)) && self.tables@.len() == 0
                        && self.parents@.len() == 0 && self.luks_jobs@.len() == 0
                        && self.formats@.len() == 0 && self.labels@.len() == 0,
                    *w == *old(w),
                decreases self.frees@.len(),
            {
                let ghost frees_before = self.frees@;
                match self.frees.pop() {
                    Some((p, kids)) => {
                        proof {
                            if begin_entry(*old(self), *old(w)) && !cancel && (exists|p2: u64|
                                #[trigger] free_shape(*old(w), p2)) {
                                let idx = choose|idx: int|
                                    0 <= idx < frees_before.len() && free_shape(
                                        *old(w),
                                        (#[trigger] frees_before[idx]).0.id,
                                    );
                                if idx < frees_before.len() - 1 {
                                    assert(self.frees@[idx] == frees_before[idx]);
                                } else {
                                    assert(free_shape(*old(w), p.id));
                                }
                            }
                        }
                        if w.entities.devices.contains_key(p.id) {
                            if let Some(d) = w.components.devices.devices.get(p.id) {
                                let path = d.path.clone();
                                let mut sectors: Vec<u64> = Vec::new();
                                let kn = kids.len();
                                let mut j: usize = 0;
                                while j < kn
                                    invariant
                                        w.wf(),
                                        kn == kids@.len(),
                                        j <= kn,
                                        forall|jj: int|
                                            0 <= jj < sectors@.len() ==> sector_sourced(
                                                *w,
                                                kids@,
                                                #[trigger] sectors@[jj],
                                            ),
                                    decreases kn - j,
                                {
                                    let ghost sb = sectors@;
                                    if let Some(part) = w.components.devices.partitions.get(
                                        kids[j].id,
                                    ) {
                                        if part.offset < 0xFFFF_FFFF_FFFF_FFFF {
                                            sectors.push(part.offset + 1);
                                            proof {
                                                assert forall|jj: int|
                                                    0 <= jj < sectors@.len() implies sector_sourced(
                                                    *w,
                                                    kids@,
                                                    #[trigger] sectors@[jj],
                                                ) by {
                                                    if jj < sectors@.len() - 1 {
                                                        assert(sectors@[jj] == sb[jj]);
                                                        assert(sector_sourced(*w, kids@, sb[jj]));
                                                    } else {
                                                        assert(w
                                                            .components
                                                            .devices
                                                            .partitions@
                                                            .contains_key(kids@[j as int].id)
                                                            && w.components.devices.partitions@[kids@[j as int].id].offset
                                                            + 1 == sectors@[jj]);
                                                    }
                                                }
                                            }
                                        }
                                    }
                                    j = j + 1;
                                }
                                let ghost gkids = kids@;
                                let ghost gsec = sectors@;
                                self.current = Job::Free(p, kids);
                                let action = Action::RemoveFromTable { path, sectors };
                                proof {
                                    assert(self.pending_free() matches Some((pp, ks)) && ks
                                        == gkids);
                                    assert forall|jj: int|
                                        0 <= jj < gsec.len() implies sector_sourced(
                                        *w,
                                        gkids,
                                        #[trigger] gsec[jj],
                                    ) by {}
                                    assert(action_describes(*self, *w, action));
                                }
                                return Directive::Next(action);
                            }
                        }
                    },
                    None => {
                        break ;
                    },
                }
            }
            // Boundary before the create system.
            if cancel {
                w.unset();
                self.clear_work();
                return Directive::Complete(Err(ApplyError::Cancelled));
            }
            self.phase = Phase::CreateTables;
            if w.flags.create {
                self.tables = w.plan_tables();
            }
            proof {
                if begin_entry(*old(self), *old(w)) && !cancel && (exists|k: u64|
                    #[trigger] table_shape(*old(w), k)) {
                    let k = choose|k: u64| #[trigger] table_shape(*old(w), k);
                    let idx = choose|idx: int|
                        0 <= idx < self.tables@.len() && (#[trigger] self.tables@[idx]).0.id
                            == k;
                    assert(table_shape(*old(w), self.tables@[idx].0.id));
                }
            }
        }
        if self.phase == Phase::CreateTables {
            loop
                invariant
                    w.wf(),
                    self.inv(*w),
                    self.current is Idle,
                    self.phase == Phase::CreateTables,
                    idle_entry(*old(self), *old(w), cancel) ==> self.tables@.len() == 0
                        && self.parents@.len() == 0 && self.luks_jobs@.len() == 0
                        && self.formats@.len() == 0 && self.labels@.len() == 0
                        && w.components.queued_changes.formats
                        == old(w).components.queued_changes.formats && !w.flags.create
                        && !w.flags.label,
                    w.flags == old(w).flags,
                    w.components.queued_changes.parents == old(
                        w,
                    ).components.queued_changes.parents,
                    w.components.queued_changes.devices == old(
                        w,
                    ).components.queued_changes.devices,
                    w.components.queued_changes.partitions == old(
                        w,
                    ).components.queued_changes.partitions,
                    w.components.queued_changes.labels == old(
                        w,
                    ).components.queued_changes.labels,
                    w.components.queued_changes.formats == old(
                        w,
                    ).components.queued_changes.formats,
                    begin_entry(*old(self), *old(w)) && !cancel ==> !(exists|k: u64|
                        #[trigger] wipe_shape(*old(w), k)) && !(exists|p: u64|
                        #[trigger] free_shape(*old(w), p)) && self.parents@.len() == 0
                        && self.luks_jobs@.len() == 0 && self.formats@.len() == 0
                        && self.labels@.len() == 0,
                    begin_entry(*old(self), *old(w)) && !cancel && (exists|k: u64|
                        #[trigger] table_shape(*old(w), k)) ==> exists|idx: int|
                        0 <= idx < self.tables@.len() && table_shape(
                            *old(w),
                            (#[trigger] self.tables@[idx]).0.id,
                        ),
                    w.components.devices == old(w).components.devices,
                    w.components.vgs == old(w).components.vgs,
                    w.entities == old(w).entities,
                    forall|k: u64| #[trigger] w.dev_alive(k) ==> old(w).dev_alive(k),
                    forall|k: u64|
                        #[trigger] old(w).dev_alive(k)
                            && old(w).components.devices.devices@.contains_key(k) ==> w.dev_alive(
                            k,
                        ) && w.dev_flags(k).luks_child == old(w).dev_flags(k).luks_child,
                ensures
                    w.entities == old(w).entities,
                    begin_entry(*old(self), *old(w)) && !cancel ==> !(exists|k: u64|
                        #[trigger] wipe_shape(*old(w), k)) && !(exists|p: u64|
                        #[trigger] free_shape(*old(w), p)) && !(exists|k: u64|
                        #[trigger] table_shape(*old(w), k)) && self.parents@.len() == 0
                        && self.luks_jobs@.len() == 0 && self.formats@.len() == 0
                        && self.labels@.len() == 0,
                    w.flags == old(w).flags,
                    w.components.queued_changes.parents == old(
                        w,
                    ).components.queued_changes.parents,
                    w.components.queued_changes.devices == old(
                        w,
                    ).components.queued_changes.devices,
                    w.components.queued_changes.partitions == old(
                        w,
                    ).components.queued_changes.partitions,
                    w.components.queued_changes.labels == old(
                        w,
                    ).components.queued_changes.labels,
                    w.components.queued_changes.formats == old(
                        w,
                    ).components.queued_changes.formats,
                    w.components.devices == old(w).components.devices,
                    w.components.vgs == old(w).components.vgs,
                    forall|k: u64| #[trigger] w.dev_alive(k) ==> old(w).dev_alive(k),
                    forall|k: u64|
                        #[trigger] old(w).dev_alive(k)
                            && old(w).components.devices.devices@.contains_key(k) ==> w.dev_alive(
                            k,
                        ) && w.dev_flags(k).luks_child == old(w).dev_flags(k).luks_child,
                    w.wf(),
                    self.inv(*w),
                    self.current is Idle,
                decreases self.tables@.len(),
            {
                let ghost tables_before = self.tables@;
                match self.tables.pop() {
                    Some((p, kind)) => {
                        proof {
                            if begin_entry(*old(self), *old(w)) && !cancel && (exists|k2: u64|
                                #[trigger] table_shape(*old(w), k2)) {
                                let idx = choose|idx: int|
                                    0 <= idx < tables_before.len() && table_shape(
                                        *old(w),
                                        (#[trigger] tables_before[idx]).0.id,
                                    );
                                if idx < tables_before.len() - 1 {
                                    assert(self.tables@[idx] == tables_before[idx]);
                                } else {
                                    assert(table_shape(*old(w), p.id));
                                }
                            }
                        }
                        if w.entities.devices.contains_key(p.id) {
                            if let Some(d) = w.components.devices.devices.get(p.id) {
                                let path = d.path.clone();
                                let sector_size = d.logical_sector_size;
                                self.current = Job::Table(p, kind);
                                return Directive::Next(
                                    Action::CreateTable { path, sector_size, kind },
                                );
                            }
                        }
                    },
                    None => {
                        break ;
                    },
                }
            }
            self.phase = Phase::CreateChildren;
            if w.flags.create {
                self.parents = w.plan_parents();
            }
            proof {
                if begin_entry(*old(self), *old(w)) && !cancel && (exists|p: u64|
                    #[trigger] children_shape(*old(w), p)) {
                    let p = choose|p: u64| #[trigger] children_shape(*old(w), p);
                    assert(children_shape(*w, p));
                    let idx = choose|idx: int|
                        0 <= idx < self.parents@.len() && (#[trigger] self.parents@[idx]).id
                            == p;
                    assert(children_shape(*old(w), self.parents@[idx].id));
                }
            }
        }
        let ghost w_entry = *w;
        if self.phase == Phase::CreateChildren {
            loop
                invariant
                    w.wf(),
                    self.inv(*w),
                    self.current is Idle,
                    self.phase == Phase::CreateChildren,
                    idle_entry(*old(self), *old(w), cancel) ==> self.parents@.len() == 0
                        && self.luks_jobs@.len() == 0 && self.formats@.len() == 0
                        && self.labels@.len() == 0 && w.components.queued_changes.formats
                        == old(w).components.queued_changes.formats && !w.flags.label,
                    w.flags == old(w).flags,
                    w.components.queued_changes.parents == old(
                        w,
                    ).components.queued_changes.parents,
                    w.components.queued_changes.devices == old(
                        w,
                    ).components.queued_changes.devices,
                    w.components.queued_changes.partitions == old(
                        w,
                    ).components.queued_changes.partitions,
                    w.components.queued_changes.labels == old(
                        w,
                    ).components.queued_changes.labels,
                    w.components.queued_changes.formats == old(
                        w,
                    ).components.queued_changes.formats,
                    begin_entry(*old(self), *old(w)) && !cancel ==> !(exists|k: u64|
                        #[trigger] wipe_shape(*old(w), k)) && !(exists|p: u64|
                        #[trigger] free_shape(*old(w), p)) && !(exists|k: u64|
                        #[trigger] table_shape(*old(w), k)) && self.luks_jobs@.len() == 0
                        && self.formats@.len() == 0 && self.labels@.len() == 0,
                    begin_entry(*old(self), *old(w)) && !cancel && (exists|p: u64|
                        #[trigger] children_shape(*old(w), p)) ==> exists|idx: int|
                        0 <= idx < self.parents@.len() && children_shape(
                            *old(w),
                            (#[trigger] self.parents@[idx]).id,
                        ),
                    w.components == w_entry.components,
                    w.flags == w_entry.flags,
                    forall|k: u64| #[trigger] w.dev_alive(k) <==> w_entry.dev_alive(k),
                    forall|k: u64|
                        w.dev_alive(k) ==> (#[trigger] w.dev_flags(k)).luks_child
                            == w_entry.dev_flags(k).luks_child,
                    w.components.devices == old(w).components.devices,
                    w.components.vgs == old(w).components.vgs,
                    forall|k: u64| #[trigger] w.dev_alive(k) ==> old(w).dev_alive(k),
                    forall|k: u64|
                        #[trigger] old(w).dev_alive(k)
                            && old(w).components.devices.devices@.contains_key(k) ==> w.dev_alive(
                            k,
                        ) && w.dev_flags(k).luks_child == old(w).dev_flags(k).luks_child,
                ensures
                    w.flags == old(w).flags,
                    w.components.queued_changes.labels == old(
                        w,
                    ).components.queued_changes.labels,
                    w.components.queued_changes.formats == old(
                        w,
                    ).components.queued_changes.formats,
                    begin_entry(*old(self), *old(w)) && !cancel ==> !(exists|k: u64|
                        #[trigger] wipe_shape(*old(w), k)) && !(exists|p: u64|
                        #[trigger] free_shape(*old(w), p)) && !(exists|k: u64|
                        #[trigger] table_shape(*old(w), k)) && !(exists|p: u64|
                        #[trigger] children_shape(*old(w), p)) && self.luks_jobs@.len() == 0
                        && self.formats@.len() == 0 && self.labels@.len() == 0,
                decreases self.parents@.len(),
            {
                let ghost parents_before = self.parents@;
                match self.parents.pop() {
                    Some(p) => {
                        proof {
                            if begin_entry(*old(self), *old(w)) && !cancel && (exists|p2: u64|
                                #[trigger] children_shape(*old(w), p2)) {
                                let idx = choose|idx: int|
                                    0 <= idx < parents_before.len() && children_shape(
                                        *old(w),
                                        (#[trigger] parents_before[idx]).id,
                                    );
                                if idx < parents_before.len() - 1 {
                                    assert(self.parents@[idx] == parents_before[idx]);
                                } else {
                                    assert(children_shape(*old(w), p.id));
                                }
                            }
                        }
                        if w.entities.devices.contains_key(p.id)
                            && w.components.devices.tables.contains_key(p.id) {
                            if let Some(d) = w.components.devices.devices.get(p.id) {
                                let path = d.path.clone();
                                let all = w.children_of_parent(p);
                                let mut kids: Vec<DeviceEntity> = Vec::new();
                                let mut parts: Vec<PartitionSpec> = Vec::new();
                                let an = all.len();
                                let mut j: usize = 0;
                                while j < an
                                    invariant
                                        w.wf(),
                                        an == all@.len(),
                                        j <= an,
                                        forall|a: int|
                                            0 <= a < all@.len() ==> w.dev_alive(
                                                (#[trigger] all@[a]).id,
                                            ),
                                        forall|a: int, b: int|
                                            0 <= a < b < an ==> all@[a].id != all@[b].id,
                                        forall|a: int|
                                            0 <= a < kids@.len() ==> w.dev_alive(
                                                (#[trigger] kids@[a]).id,
                                            ),
                                        forall|a: int|
                                            0 <= a < kids@.len() ==> exists|ww: int|
                                                0 <= ww < j && (#[trigger] kids@[a])
                                                    == all@[ww],
                                        forall|a: int, b: int|
                                            0 <= a < b < kids@.len() ==> kids@[a].id
                                                != kids@[b].id,
                                        parts@.len() == kids@.len(),
                                        (exists|jj: int|
                                            0 <= jj < j
                                                && w.components.queued_changes.devices@.contains_key(
                                                (#[trigger] all@[jj]).id,
                                            )
                                                && w.components.queued_changes.partitions@.contains_key(
                                                all@[jj].id,
                                            )) ==> kids@.len() > 0,
                                        forall|a: int|
                                            #![trigger kids@[a]]
                                            0 <= a < kids@.len() ==> {
                                                let cid = kids@[a].id;
                                                let q = w.components.queued_changes;
                                                &&& q.partitions@.contains_key(cid)
                                                &&& q.devices@.contains_key(cid)
                                                &&& parts@[a].start == q.partitions@[cid].offset
                                                &&& parts@[a].end == if q.partitions@[cid].offset
                                                    + q.devices@[cid].sectors <= u64::MAX {
                                                    q.partitions@[cid].offset
                                                        + q.devices@[cid].sectors
                                                } else {
                                                    u64::MAX as int
                                                }
                                                &&& (parts@[a].label matches Some(l)
                                                    <==> q.partitions@[cid].partlabel is Some)
                                                &&& (parts@[a].label matches Some(l)
                                                    ==> q.partitions@[cid].partlabel matches Some(
                                                    pl,
                                                ) && l@ == pl@)
                                            },
                                    decreases an - j,
                                {
                                    let c = all[j];
                                    let q = &w.components.queued_changes;
                                    if let (Some(qd), Some(qp)) = (
                                        q.devices.get(c.id),
                                        q.partitions.get(c.id),
                                    ) {
                                        let start = qp.offset;
                                        let end: u64 = if qp.offset
                                            <= 0xFFFF_FFFF_FFFF_FFFF - qd.sectors {
                                            qp.offset + qd.sectors
                                        } else {
                                            0xFFFF_FFFF_FFFF_FFFF
                                        };
                                        let label = match &qp.partlabel {
                                            Some(l) => Some(l.clone()),
                                            None => None,
                                        };
                                        parts.push(PartitionSpec { start, end, label });
                                        proof {
                                            assert forall|a: int|
                                                0 <= a < kids@.len() implies (
                                            #[trigger] kids@[a]).id != c.id by {
                                                let ww = choose|ww: int|
                                                    0 <= ww < j && kids@[a] == all@[ww];
                                                assert(all@[ww].id != all@[j as int].id);
                                            }
                                        }
                                        kids.push(c);
                                    }
                                    proof {
                                        if exists|jj: int|
                                            0 <= jj < j + 1
                                                && w.components.queued_changes.devices@.contains_key(
                                                (#[trigger] all@[jj]).id,
                                            )
                                                && w.components.queued_changes.partitions@.contains_key(
                                                all@[jj].id,
                                            ) {
                                            let jj = choose|jj: int|
                                                0 <= jj < j + 1
                                                    && w.components.queued_changes.devices@.contains_key(
                                                    (#[trigger] all@[jj]).id,
                                                )
                                                    && w.components.queued_changes.partitions@.contains_key(
                                                    all@[jj].id,
                                                );
                                            if jj == j {
                                                assert(kids@.len() > 0);
                                            }
                                        }
                                    }
                                    j = j + 1;
                                }
                                proof {
                                    if begin_entry(*old(self), *old(w)) && !cancel
                                        && children_shape(*old(w), p.id) {
                                        let c = choose|c: u64|
                                            #[trigger] old(
                                                w,
                                            ).components.queued_changes.parents@.contains_key(c)
                                                && old(w).components.queued_changes.parents@[c].id
                                                == p.id && old(
                                                w,
                                            ).components.queued_changes.devices@.contains_key(c)
                                                && old(
                                                w,
                                            ).components.queued_changes.partitions@.contains_key(
                                                c,
                                            );
                                        assert(w.components.queued_changes.parents@.contains_key(
                                            c,
                                        ) && w.components.queued_changes.parents@[c].id == p.id);
                                        let ww = choose|ww: int|
                                            0 <= ww < all@.len() && (#[trigger] all@[ww]).id
                                                == c;
                                        assert(w.components.queued_changes.devices@.contains_key(
                                            all@[ww].id,
                                        ) && w.components.queued_changes.partitions@.contains_key(
                                            all@[ww].id,
                                        ));
                                        assert(kids@.len() > 0);
                                    }
                                }
                                if kids.len() > 0 {
                                    self.current = Job::Children(p, kids);
                                    return Directive::Next(Action::AddToTable { path, parts });
                                } else {
                                    // Nothing staged for this parent: only
                                    // the mark is cleared.
                                    let flags = *w.entities.devices.get(p.id).unwrap();
                                    let ghost w_pre = *w;
                                    w.entities.devices.insert(
                                        p.id,
                                        EntityFlags { create_children: false, ..flags },
                                    );
                                    proof {
                                        assert(w.entities.devices@.dom()
                                            =~= w_pre.entities.devices@.dom());
                                        assert forall|k: u64| #[trigger] w.dev_alive(k)
                                            <==> w_pre.dev_alive(k) by {
                                            assert(w.entities.devices@.dom().contains(k)
                                                == w_pre.entities.devices@.dom().contains(k));
                                        }
                                        assert forall|k: u64|
                                            w.dev_alive(k) implies (
                                        #[trigger] w.dev_flags(k)).luks_child
                                            == w_entry.dev_flags(k).luks_child by {
                                            if k != p.id {
                                                assert(w_pre.dev_alive(k));
                                                assert(w_pre.dev_flags(k).luks_child
                                                    == w_entry.dev_flags(k).luks_child);
                                            } else {
                                                assert(w_pre.dev_flags(p.id).luks_child
                                                    == w_entry.dev_flags(p.id).luks_child);
                                            }
                                        }
                                        assert forall|k: u64|
                                            #[trigger] old(w).dev_alive(k) && old(
                                            w,
                                        ).components.devices.devices@.contains_key(
                                            k,
                                        ) implies w.dev_alive(k) && w.dev_flags(k).luks_child
                                            == old(w).dev_flags(k).luks_child by {
                                            assert(w_pre.dev_alive(k));
                                        }
                                        assert(w.wf());
                                    }
                                }
                            }
                        }
                    },
                    None => {
                        break ;
                    },
                }
            }
            self.phase = Phase::LuksFormats;
        }
        if self.phase == Phase::LuksFormats {
            loop
                invariant
                    w.wf(),
                    self.inv(*w),
                    self.current is Idle,
                    self.phase == Phase::LuksFormats,
                    idle_entry(*old(self), *old(w), cancel) ==> self.luks_jobs@.len() == 0
                        && self.formats@.len() == 0 && self.labels@.len() == 0
                        && w.components.queued_changes.formats
                        == old(w).components.queued_changes.formats && !w.flags.label,
                    w.flags == old(w).flags,
                    w.components.queued_changes.labels == old(
                        w,
                    ).components.queued_changes.labels,
                    w.components.queued_changes.formats == old(
                        w,
                    ).components.queued_changes.formats,
                    begin_entry(*old(self), *old(w)) && !cancel ==> !(exists|k: u64|
                        #[trigger] wipe_shape(*old(w), k)) && !(exists|p: u64|
                        #[trigger] free_shape(*old(w), p)) && !(exists|k: u64|
                        #[trigger] table_shape(*old(w), k)) && !(exists|p: u64|
                        #[trigger] children_shape(*old(w), p)) && self.formats@.len() == 0
                        && self.labels@.len() == 0,
                    w.components.devices == old(w).components.devices,
                    w.components.vgs == old(w).components.vgs,
                    forall|k: u64| #[trigger] w.dev_alive(k) ==> old(w).dev_alive(k),
                    forall|k: u64|
                        #[trigger] old(w).dev_alive(k)
                            && old(w).components.devices.devices@.contains_key(k) ==> w.dev_alive(
                            k,
                        ) && w.dev_flags(k).luks_child == old(w).dev_flags(k).luks_child,
                decreases self.luks_jobs@.len(),
            {
                match self.luks_jobs.pop() {
                    Some((p, c, params)) => {
                        if w.entities.devices.contains_key(p.id)
                            && w.entities.devices.contains_key(c.id) {
                            if let Some(d) = w.components.devices.devices.get(p.id) {
                                let path = d.path.clone();
                                let passphrase = match &params.passphrase {
                                    Some(k) => Some(k.duplicate()),
                                    None => None,
                                };
                                let action = Action::LuksFormat {
                                    path,
                                    key_size: params.key_size,
                                    kind: params.kind.clone(),
                                    passphrase,
                                };
                                self.current = Job::Luks(p, c, params);
                                return Directive::Next(action);
                            }
                        }
                    },
                    None => {
                        break ;
                    },
                }
            }
            // Boundary before the modification system.
            if cancel {
                w.unset();
                self.clear_work();
                return Directive::Complete(Err(ApplyError::Cancelled));
            }
            self.phase = Phase::Formats;
            let ghost w_pf = *w;
            self.formats = w.plan_formats();
            if w.flags.label {
                self.labels = w.plan_labels();
            }
            proof {
                if begin_entry(*old(self), *old(w)) && !cancel {
                    if exists|k: u64| #[trigger] format_shape(*old(w), k) {
                        let k = choose|k: u64| #[trigger] format_shape(*old(w), k);
                        assert(w_pf.components.queued_changes.formats@.contains_key(k));
                        let idx = choose|idx: int|
                            0 <= idx < self.formats@.len() && (#[trigger] self.formats@[idx]).0.id
                                == k;
                        assert(format_shape(*old(w), self.formats@[idx].0.id));
                    }
                    if exists|p: u64| #[trigger] label_shape(*old(w), p) {
                        let p = choose|p: u64| #[trigger] label_shape(*old(w), p);
                        assert(label_shape(*w, p));
                        let idx = choose|idx: int|
                            0 <= idx < self.labels@.len() && (#[trigger] self.labels@[idx]).0.id
                                == p;
                        assert(label_shape(*old(w), self.labels@[idx].0.id));
                    }
                }
            }
            proof {
                assert(w.entities == w_pf.entities);
                assert forall|k: u64| #[trigger] w.dev_alive(k) implies old(w).dev_alive(k) by {
                    assert(w_pf.dev_alive(k));
                }
                assert forall|k: u64|
                    #[trigger] old(w).dev_alive(k)
                        && old(w).components.devices.devices@.contains_key(k) implies w.dev_alive(
                    k) && w.dev_flags(k).luks_child == old(w).dev_flags(k).luks_child by {
                    assert(w_pf.dev_alive(k) && w_pf.dev_flags(k).luks_child == old(w).dev_flags(
                        k,
                    ).luks_child);
                }
            }
        }
        if self.phase == Phase::Formats {
            loop
                invariant
                    w.wf(),
                    self.inv(*w),
                    self.current is Idle,
                    self.phase == Phase::Formats,
                    idle_entry(*old(self), *old(w), cancel) ==> self.formats@.len() == 0 && self.labels@.len() == 0,
                    begin_entry(*old(self), *old(w)) && !cancel ==> !(exists|k: u64|
                        #[trigger] wipe_shape(*old(w), k)) && !(exists|p: u64|
                        #[trigger] free_shape(*old(w), p)) && !(exists|k: u64|
                        #[trigger] table_shape(*old(w), k)) && !(exists|p: u64|
                        #[trigger] children_shape(*old(w), p)),
                    begin_entry(*old(self), *old(w)) && !cancel && (exists|k: u64|
                        #[trigger] format_shape(*old(w), k)) ==> exists|idx: int|
                        0 <= idx < self.formats@.len() && format_shape(
                            *old(w),
                            (#[trigger] self.formats@[idx]).0.id,
                        ),
                    begin_entry(*old(self), *old(w)) && !cancel && (exists|p: u64|
                        #[trigger] label_shape(*old(w), p)) ==> exists|idx: int|
                        0 <= idx < self.labels@.len() && label_shape(
                            *old(w),
                            (#[trigger] self.labels@[idx]).0.id,
                        ),
                    w.components.devices == old(w).components.devices,
                    w.components.vgs == old(w).components.vgs,
                    forall|k: u64| #[trigger] w.dev_alive(k) ==> old(w).dev_alive(k),
                    forall|k: u64|
                        #[trigger] old(w).dev_alive(k)
                            && old(w).components.devices.devices@.contains_key(k) ==> w.dev_alive(
                            k,
                        ) && w.dev_flags(k).luks_child == old(w).dev_flags(k).luks_child,
                ensures
                    idle_entry(*old(self), *old(w), cancel) ==> self.labels@.len() == 0,
                    begin_entry(*old(self), *old(w)) && !cancel ==> !(exists|k: u64|
                        #[trigger] wipe_shape(*old(w), k)) && !(exists|p: u64|
                        #[trigger] free_shape(*old(w), p)) && !(exists|k: u64|
                        #[trigger] table_shape(*old(w), k)) && !(exists|p: u64|
                        #[trigger] children_shape(*old(w), p)) && !(exists|k: u64|
                        #[trigger] format_shape(*old(w), k)),
                    begin_entry(*old(self), *old(w)) && !cancel && (exists|p: u64|
                        #[trigger] label_shape(*old(w), p)) ==> exists|idx: int|
                        0 <= idx < self.labels@.len() && label_shape(
                            *old(w),
                            (#[trigger] self.labels@[idx]).0.id,
                        ),
                    w.components.devices == old(w).components.devices,
                    w.components.vgs == old(w).components.vgs,
                    forall|k: u64| #[trigger] w.dev_alive(k) ==> old(w).dev_alive(k),
                    forall|k: u64|
                        #[trigger] old(w).dev_alive(k)
                            && old(w).components.devices.devices@.contains_key(k) ==> w.dev_alive(
                            k,
                        ) && w.dev_flags(k).luks_child == old(w).dev_flags(k).luks_child,
                    w.wf(),
                    self.inv(*w),
                    self.current is Idle,
                decreases self.formats@.len(),
            {
                let ghost formats_before = self.formats@;
                match self.formats.pop() {
                    Some((e, fs)) => {
                        proof {
                            if begin_entry(*old(self), *old(w)) && !cancel && (exists|k2: u64|
                                #[trigger] format_shape(*old(w), k2)) {
                                let idx = choose|idx: int|
                                    0 <= idx < formats_before.len() && format_shape(
                                        *old(w),
                                        (#[trigger] formats_before[idx]).0.id,
                                    );
                                if idx < formats_before.len() - 1 {
                                    assert(self.formats@[idx] == formats_before[idx]);
                                } else {
                                    assert(format_shape(*old(w), e.id));
                                }
                            }
                        }
                        if w.entities.devices.contains_key(e.id) {
                            if let Some(d) = w.components.devices.devices.get(e.id) {
                                let path = d.path.clone();
                                self.current = Job::Format(e, fs);
                                return Directive::Next(Action::Mkfs { path, fs });
                            }
                        }
                    },
                    None => {
                        break ;
                    },
                }
            }
            let ghost labels_planned = self.labels@;
            self.phase = Phase::Labels;
            proof {
                if begin_entry(*old(self), *old(w)) && !cancel && (exists|p: u64|
                    #[trigger] label_shape(*old(w), p)) {
                    let idx = choose|idx: int|
                        0 <= idx < labels_planned.len() && label_shape(
                            *old(w),
                            (#[trigger] labels_planned[idx]).0.id,
                        );
                    assert(self.labels@ == labels_planned);
                    assert(0 <= idx < self.labels@.len() && label_shape(
                        *old(w),
                        self.labels@[idx].0.id,
                    ));
                }
            }
        }
        if self.phase == Phase::Labels {
            loop
                invariant
                    w.wf(),
                    self.inv(*w),
                    self.current is Idle,
                    self.phase == Phase::Labels,
                    idle_entry(*old(self), *old(w), cancel) ==> self.labels@.len() == 0,
                    begin_entry(*old(self), *old(w)) && !cancel ==> !(exists|k: u64|
                        #[trigger] wipe_shape(*old(w), k)) && !(exists|p: u64|
                        #[trigger] free_shape(*old(w), p)) && !(exists|k: u64|
                        #[trigger] table_shape(*old(w), k)) && !(exists|p: u64|
                        #[trigger] children_shape(*old(w), p)) && !(exists|k: u64|
                        #[trigger] format_shape(*old(w), k)),
                    begin_entry(*old(self), *old(w)) && !cancel && (exists|p: u64|
                        #[trigger] label_shape(*old(w), p)) ==> exists|idx: int|
                        0 <= idx < self.labels@.len() && label_shape(
                            *old(w),
                            (#[trigger] self.labels@[idx]).0.id,
                        ),
                    w.components.devices == old(w).components.devices,
                    w.components.vgs == old(w).components.vgs,
                    forall|k: u64| #[trigger] w.dev_alive(k) ==> old(w).dev_alive(k),
                    forall|k: u64|
                        #[trigger] old(w).dev_alive(k)
                            && old(w).components.devices.devices@.contains_key(k) ==> w.dev_alive(
                            k,
                        ) && w.dev_flags(k).luks_child == old(w).dev_flags(k).luks_child,
                ensures
                    begin_entry(*old(self), *old(w)) && !cancel ==> !staged_action(*old(w)),
                    w.wf(),
                    self.inv(*w),
                    self.current is Idle,
                    w.components.devices == old(w).components.devices,
                    w.components.vgs == old(w).components.vgs,
                    forall|k: u64| #[trigger] w.dev_alive(k) ==> old(w).dev_alive(k),
                    forall|k: u64|
                        #[trigger] old(w).dev_alive(k)
                            && old(w).components.devices.devices@.contains_key(k) ==> w.dev_alive(
                            k,
                        ) && w.dev_flags(k).luks_child == old(w).dev_flags(k).luks_child,
                    idle_entry(*old(self), *old(w), cancel) ==> *w == *old(w) || true,
                decreases self.labels@.len(),
            {
                let ghost labels_before = self.labels@;
                match self.labels.pop() {
                    Some((p, items)) => {
                        proof {
                            if begin_entry(*old(self), *old(w)) && !cancel && (exists|p2: u64|
                                #[trigger] label_shape(*old(w), p2)) {
                                let idx = choose|idx: int|
                                    0 <= idx < labels_before.len() && label_shape(
                                        *old(w),
                                        (#[trigger] labels_before[idx]).0.id,
                                    );
                                if idx < labels_before.len() - 1 {
                                    assert(self.labels@[idx] == labels_before[idx]);
                                } else {
                                    assert(label_shape(*old(w), p.id));
                                }
                            }
                        }
                        if w.entities.devices.contains_key(p.id) {
                            if let Some(d) = w.components.devices.devices.get(p.id) {
                                let path = d.path.clone();
                                let mut labels: Vec<(u64, String)> = Vec::new();
                                let ln = items.len();
                                let mut j: usize = 0;
                                while j < ln
                                    invariant
                                        w.wf(),
                                        ln == items@.len(),
                                        j <= ln,
                                        forall|jj: int|
                                            0 <= jj < labels@.len() ==> label_sourced(
                                                *w,
                                                items@,
                                                (#[trigger] labels@[jj]).0,
                                                labels@[jj].1@,
                                            ),
                                    decreases ln - j,
                                {
                                    let ghost lb = labels@;
                                    let (c, label) = &items[j];
                                    if let Some(part) = w.components.devices.partitions.get(
                                        c.id,
                                    ) {
                                        if part.offset < 0xFFFF_FFFF_FFFF_FFFF {
                                            labels.push((part.offset + 1, label.clone()));
                                            proof {
                                                assert forall|jj: int|
                                                    0 <= jj < labels@.len() implies label_sourced(
                                                    *w,
                                                    items@,
                                                    (#[trigger] labels@[jj]).0,
                                                    labels@[jj].1@,
                                                ) by {
                                                    if jj < labels@.len() - 1 {
                                                        assert(labels@[jj] == lb[jj]);
                                                        assert(label_sourced(
                                                            *w,
                                                            items@,
                                                            lb[jj].0,
                                                            lb[jj].1@,
                                                        ));
                                                    } else {
                                                        assert(w
                                                            .components
                                                            .devices
                                                            .partitions@
                                                            .contains_key(items@[j as int].0.id)
                                                            && w.components.devices.partitions@[items@[j as int].0.id].offset
                                                            + 1 == labels@[jj].0 && items@[
                                                            j as int
                                                        ].1@ == labels@[jj].1@);
                                                    }
                                                }
                                            }
                                        }
                                    }
                                    j = j + 1;
                                }
                                let ghost gitems = items@;
                                let ghost glab = labels@;
                                self.current = Job::Labels(items);
                                let action = Action::LabelInTable { path, labels };
                                proof {
                                    assert(self.pending_labels() matches Some(its) && its
                                        == gitems);
                                    assert forall|jj: int|
                                        0 <= jj < glab.len() implies label_sourced(
                                        *w,
                                        gitems,
                                        (#[trigger] glab[jj]).0,
                                        glab[jj].1@,
                                    ) by {}
                                    assert(action_describes(*self, *w, action));
                                }
                                return Directive::Next(action);
                            }
                        }
                    },
                    None => {
                        break ;
                    },
                }
            }
            proof {
                if begin_entry(*old(self), *old(w)) && !cancel {
                    assert(!staged_action(*old(w)));
                }
            }
            w.unset();
            self.clear_work();
            return Directive::Complete(Ok(()));
        }
        // Every earlier phase either returned or moved forward, so this
        // closes a run that was already past its last system.
        w.unset();
        self.clear_work();
        Directive::Complete(Ok(()))
    }
}

} // verus!
