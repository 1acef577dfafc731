//! End-to-end runs of the world and its apply engine, driven against a
//! simulated disk: every action the engine asks for is played out on an
//! in-memory table, and the outcome reported back.

use std::collections::HashMap;

use ecs_disk_manager::create::PartitionCreate;
use ecs_disk_manager::fs::FileSystem;
use ecs_disk_manager::gpt::Gpt;
use ecs_disk_manager::luks::{LuksParams, LuksPassphrase};
use ecs_disk_manager::partitions::PartitionTable;
use ecs_disk_manager::prober::{DeviceVariant, ProbeInfo, VgInfo};
use ecs_disk_manager::sector::Sector;
use ecs_disk_manager::systems::{Action, ApplyRun, Directive, Event};
use ecs_disk_manager::world::DiskManager;
use ecs_disk_manager::DeviceEntity;

fn disk_probe(name: &str, sectors: u64, table: Option<PartitionTable>) -> ProbeInfo {
    ProbeInfo {
        alignment: 0,
        device: String::from(name),
        devno_major: 8,
        devno_minor: 0,
        logical_sector_size: 512,
        partitions: Vec::new(),
        path: format!("/dev/{}", name),
        physical_sector_size: 512,
        sectors,
        size: sectors * 512,
        fstype: None,
        uuid: None,
        variant: DeviceVariant::Physical(table),
    }
}

fn scanned_disk(sectors: u64) -> (DiskManager, DeviceEntity) {
    let mut m = DiskManager::new();
    let probes = vec![disk_probe("vda", sectors, None)];
    m.scan(&probes, &Vec::new(), &Vec::new(), &Vec::new());
    let (e, _) = m.device_by_path("/dev/vda").expect("scanned device");
    (m, e)
}

/// Plays every action on in-memory tables; returns the run's outcome.
fn drive_on(
    m: &mut DiskManager,
    cancel: bool,
    tables: &mut HashMap<String, Gpt>,
) -> Result<(), ecs_disk_manager::systems::ApplyError> {
    let mut run = m.apply();
    let mut event = Event::Begin;
    loop {
        match run.step(m, event, cancel) {
            Directive::Complete(r) => return r,
            Directive::Next(action) => {
                event = match action {
                    Action::Wipefs { path } => {
                        tables.remove(&path);
                        Event::Done
                    },
                    Action::CreateTable { path, sector_size, kind } => {
                        assert_eq!(kind, PartitionTable::Guid);
                        tables.insert(path, Gpt::create(sector_size, u64::MAX, 128));
                        Event::Done
                    },
                    Action::RemoveFromTable { path, sectors } => {
                        let t = tables.get_mut(&path).expect("table to edit");
                        for s in sectors {
                            t.remove(s).expect("partition to remove");
                        }
                        Event::Done
                    },
                    Action::AddToTable { path, parts } => {
                        let t = tables.get_mut(&path).expect("table to fill");
                        let mut numbers = Vec::new();
                        for p in parts {
                            let label = p.label.as_deref();
                            numbers.push(t.add(p.start, p.end, label).expect("free slot"));
                        }
                        Event::Added(numbers)
                    },
                    Action::LuksFormat { .. } => Event::Done,
                    Action::Mkfs { .. } => Event::Done,
                    Action::LabelInTable { .. } => Event::Done,
                };
            },
        }
    }
}

/// Plays a run against tables that live only for this run.
fn drive(m: &mut DiskManager, cancel: bool) -> Result<(), ecs_disk_manager::systems::ApplyError> {
    let mut tables: HashMap<String, Gpt> = HashMap::new();
    drive_on(m, cancel, &mut tables)
}

fn no_create_marks(m: &DiskManager) -> bool {
    m.devices().iter().all(|e| {
        let f = m.entities.devices.get(e.id).copied().unwrap();
        !f.create
    })
}

fn fresh_gpt_layout() -> (DiskManager, DeviceEntity, DeviceEntity, DeviceEntity, DeviceEntity) {
    let (mut m, disk) = scanned_disk(4_194_304);
    m.create_table(disk, PartitionTable::Guid).unwrap();
    let efi = m
        .create_as_child_of(
            disk,
            Sector::Start,
            Sector::Megabyte(100),
            String::from("EFI"),
            PartitionCreate::Plain(FileSystem::Vfat),
        )
        .unwrap();
    let root = m
        .create_as_child_of(
            disk,
            Sector::Megabyte(100),
            Sector::MegabyteFromEnd(1000),
            String::from("Root"),
            PartitionCreate::Plain(FileSystem::Ext4),
        )
        .unwrap();
    let swap = m
        .create_as_child_of(
            disk,
            Sector::MegabyteFromEnd(1000),
            Sector::End,
            String::from("Swap"),
            PartitionCreate::Plain(FileSystem::Swap),
        )
        .unwrap();
    (m, disk, efi, root, swap)
}

#[test]
fn fresh_gpt_layout_applies() {
    let (mut m, disk, efi, root, swap) = fresh_gpt_layout();
    drive(&mut m, false).unwrap();

    let children = m.children(disk).expect("children created").clone();
    assert_eq!(children.len(), 3);

    let efi_dev = m.device(efi).clone();
    assert_eq!(efi_dev.sectors, 100 * 1024 * 1024 / 512);
    assert_eq!(m.partition(efi).unwrap().filesystem, Some(FileSystem::Vfat));

    let swap_dev = m.device(swap).clone();
    assert_eq!(swap_dev.sectors, 1000 * 1024 * 1024 / 512);
    assert_eq!(m.partition(swap).unwrap().filesystem, Some(FileSystem::Swap));

    let root_part = m.partition(root).unwrap().clone();
    assert_eq!(root_part.offset, 204_800);
    let root_dev = m.device(root).clone();
    assert_eq!(root_dev.sectors, 4_194_304 - 2_048_000 - 204_800);

    assert!(no_create_marks(&m));
    assert_eq!(m.components.queued_changes.parents.len(), 0);
}

#[test]
fn overlap_rejected_after_layout() {
    let (mut m, disk, _efi, _root, _swap) = fresh_gpt_layout();
    drive(&mut m, false).unwrap();

    let before = m.devices().len();
    let r = m.create_as_child_of(
        disk,
        Sector::Megabyte(50),
        Sector::Megabyte(150),
        String::from("X"),
        PartitionCreate::Plain(FileSystem::Ext4),
    );
    assert_eq!(r.unwrap_err(), ecs_disk_manager::create::Error::PartitionOverlap);
    assert_eq!(m.devices().len(), before);
    assert_eq!(m.children(disk).unwrap().len(), 3);
}

#[test]
fn cancellation_rolls_back_staging() {
    let (mut m, disk, _efi, _root, _swap) = fresh_gpt_layout();
    let r = drive(&mut m, true);
    assert_eq!(r.unwrap_err(), ecs_disk_manager::systems::ApplyError::Cancelled);
    // The staged entities are gone and nothing was committed.
    assert!(no_create_marks(&m));
    assert!(m.children(disk).is_none() || m.children(disk).unwrap().is_empty());
    assert!(!m.components.devices.tables.contains_key(disk.id));
    assert_eq!(m.components.queued_changes.tables.len(), 0);
    assert_eq!(m.components.queued_changes.partitions.len(), 0);
}

#[test]
fn cancellation_issues_no_actions() {
    let (mut m, _disk, _efi, _root, _swap) = fresh_gpt_layout();
    let mut run = m.apply();
    let step = run.step(&mut m, Event::Begin, true);
    match step {
        Directive::Complete(Err(e)) => {
            assert_eq!(e, ecs_disk_manager::systems::ApplyError::Cancelled)
        },
        _ => panic!("a pre-set cancel must end the run before any action"),
    }
    assert!(no_create_marks(&m));
}

#[test]
fn idle_world_completes_on_first_step() {
    let (mut m, _disk) = scanned_disk(4_194_304);
    let mut run = m.apply();
    let step = run.step(&mut m, Event::Begin, false);
    match step {
        Directive::Complete(Ok(())) => {},
        _ => panic!("an idle world has nothing to apply"),
    }
}

#[test]
fn remove_partition_keeps_siblings() {
    let (mut m, disk, efi, root, swap) = fresh_gpt_layout();
    let mut tables: HashMap<String, Gpt> = HashMap::new();
    drive_on(&mut m, false, &mut tables).unwrap();

    m.remove(root);
    drive_on(&mut m, false, &mut tables).unwrap();

    let children = m.children(disk).expect("children kept").clone();
    assert_eq!(children.len(), 2);
    assert!(children.contains(&efi));
    assert!(children.contains(&swap));
    assert!(!children.contains(&root));
    assert!(m.entities.devices.get(efi.id).is_some());
    assert!(m.entities.devices.get(swap.id).is_some());
    assert!(m.entities.devices.get(root.id).is_none());
}

#[test]
fn luks_creation_materializes_plaintext_child() {
    let (mut m, disk) = scanned_disk(4_194_304);
    m.create_table(disk, PartitionTable::Guid).unwrap();
    let params = LuksParams {
        key_size: 512,
        kind: String::from("luks2"),
        target_name: String::from("cryptroot"),
        passphrase: Some(LuksPassphrase::new(b"x".to_vec())),
    };
    let part = m
        .create_as_child_of(
            disk,
            Sector::Start,
            Sector::End,
            String::from("Crypt"),
            PartitionCreate::Luks(params),
        )
        .unwrap();
    drive(&mut m, false).unwrap();

    let kids = m.children(part).expect("plaintext child").clone();
    assert_eq!(kids.len(), 1);
    let child = kids[0];
    let dev = m.device(child).clone();
    assert_eq!(dev.name, "cryptroot");
    assert_eq!(dev.path, "/dev/mapper/cryptroot");
    let part_dev = m.device(part).clone();
    assert_eq!(dev.sectors, part_dev.sectors - 2 * 1024 * 1024 / 512);
    assert!(m.is_luks(part));
    let f = m.entities.devices.get(child.id).copied().unwrap();
    assert!(f.luks_child);
}

#[test]
fn unset_drops_only_staged_state() {
    let (mut m, disk) = scanned_disk(4_194_304);
    let before = m.devices().len();
    m.create_table(disk, PartitionTable::Guid).unwrap();
    let staged = m
        .create_as_child_of(
            disk,
            Sector::Start,
            Sector::Megabyte(100),
            String::from("EFI"),
            PartitionCreate::Plain(FileSystem::Vfat),
        )
        .unwrap();
    m.unset();
    assert_eq!(m.devices().len(), before);
    assert!(m.entities.devices.get(staged.id).is_none());
    assert!(m.entities.devices.get(disk.id).is_some());
    assert!(no_create_marks(&m));
    assert_eq!(m.components.queued_changes.devices.len(), 0);
    assert_eq!(m.components.queued_changes.partitions.len(), 0);
    assert_eq!(m.components.queued_changes.parents.len(), 0);
    assert_eq!(m.components.queued_changes.tables.len(), 0);
    assert_eq!(m.components.queued_changes.labels.len(), 0);
}

#[test]
fn boundary_exact_end_succeeds_and_past_end_fails() {
    let (mut m, disk) = scanned_disk(1000);
    m.create_table(disk, PartitionTable::Guid).unwrap();
    let exact = m.create_as_child_of(
        disk,
        Sector::Unit(0),
        Sector::Unit(1000),
        String::from("A"),
        PartitionCreate::Plain(FileSystem::Ext4),
    );
    assert!(exact.is_ok());
    let (mut m2, disk2) = scanned_disk(1000);
    m2.create_table(disk2, PartitionTable::Guid).unwrap();
    let beyond = m2.create_as_child_of(
        disk2,
        Sector::Unit(0),
        Sector::Unit(1001),
        String::from("B"),
        PartitionCreate::Plain(FileSystem::Ext4),
    );
    assert_eq!(beyond.unwrap_err(), ecs_disk_manager::create::Error::ExceedsDevice);
}

#[test]
fn empty_range_is_inverted() {
    let (mut m, disk) = scanned_disk(1000);
    m.create_table(disk, PartitionTable::Guid).unwrap();
    let r = m.create_as_child_of(
        disk,
        Sector::Unit(7),
        Sector::Unit(7),
        String::from("A"),
        PartitionCreate::Plain(FileSystem::Ext4),
    );
    assert_eq!(r.unwrap_err(), ecs_disk_manager::create::Error::InputsInverted);
}

#[test]
fn adjacent_partitions_allowed_and_overlap_refused() {
    let (mut m, disk) = scanned_disk(1000);
    m.create_table(disk, PartitionTable::Guid).unwrap();
    let a = m.create_as_child_of(
        disk,
        Sector::Unit(0),
        Sector::Unit(100),
        String::from("A"),
        PartitionCreate::Plain(FileSystem::Ext4),
    );
    assert!(a.is_ok());
    let b = m.create_as_child_of(
        disk,
        Sector::Unit(100),
        Sector::Unit(200),
        String::from("B"),
        PartitionCreate::Plain(FileSystem::Ext4),
    );
    assert!(b.is_ok());
    let c = m.create_as_child_of(
        disk,
        Sector::Unit(99),
        Sector::Unit(200),
        String::from("C"),
        PartitionCreate::Plain(FileSystem::Ext4),
    );
    assert_eq!(c.unwrap_err(), ecs_disk_manager::create::Error::PartitionOverlap);
}

#[test]
fn remove_alone_marks_only_itself() {
    let (mut m, disk) = scanned_disk(1000);
    m.remove(disk);
    let f = m.entities.devices.get(disk.id).copied().unwrap();
    assert!(f.remove);
    for e in m.devices() {
        if e != disk {
            let other = m.entities.devices.get(e.id).copied().unwrap();
            assert!(!other.remove);
        }
    }
}

#[test]
fn scanner_orders_partitions_as_listed() {
    let mut probe = disk_probe("sda", 1_000_000, Some(PartitionTable::Guid));
    probe.partitions = vec![
        ecs_disk_manager::prober::ProbePartInfo {
            device: String::from("sda1"),
            no: 1,
            offset: 2048,
            partlabel: None,
            partuuid: None,
            path: String::from("/dev/sda1"),
            sectors: 1000,
            fstype: Some(String::from("ext4")),
            uuid: None,
        },
        ecs_disk_manager::prober::ProbePartInfo {
            device: String::from("sda2"),
            no: 2,
            offset: 4096,
            partlabel: None,
            partuuid: None,
            path: String::from("/dev/sda2"),
            sectors: 1000,
            fstype: None,
            uuid: None,
        },
    ];
    let mut m = DiskManager::new();
    m.scan(&vec![probe], &Vec::new(), &Vec::new(), &Vec::new());
    let (sda, _) = m.device_by_path("/dev/sda").unwrap();
    let children = m.children(sda).unwrap().clone();
    assert_eq!(children.len(), 2);
    assert_eq!(m.partition(children[0]).unwrap().number, 1);
    assert_eq!(m.partition(children[1]).unwrap().number, 2);
    assert_eq!(m.device(children[0]).name, "sda1");
    assert!(m.is_disk(sda));
}

#[test]
fn scan_apply_scan_reports_the_same_world() {
    let probes = vec![disk_probe("vda", 4_194_304, Some(PartitionTable::Guid))];
    let mut m = DiskManager::new();
    m.scan(&probes, &Vec::new(), &Vec::new(), &Vec::new());
    drive(&mut m, false).unwrap();
    let (e1, d1) = m.device_by_path("/dev/vda").map(|(e, d)| (e, d.clone())).unwrap();
    let t1 = *m.components.devices.tables.get(e1.id).unwrap();
    m.scan(&probes, &Vec::new(), &Vec::new(), &Vec::new());
    let (e2, d2) = m.device_by_path("/dev/vda").map(|(e, d)| (e, d.clone())).unwrap();
    let t2 = *m.components.devices.tables.get(e2.id).unwrap();
    assert_eq!(d1.name, d2.name);
    assert_eq!(d1.sectors, d2.sectors);
    assert_eq!(t1, t2);
}

#[test]
fn volume_group_create_needs_pvs() {
    let (mut m, disk) = scanned_disk(4_194_304);
    let r = m.volume_group_create("tank", &vec![disk]);
    assert_eq!(r.unwrap_err(), ecs_disk_manager::create::Error::ExpectedLvmPv);

    m.create_table(disk, PartitionTable::Guid).unwrap();
    let pv = m
        .create_as_child_of(
            disk,
            Sector::Start,
            Sector::End,
            String::from("PV"),
            PartitionCreate::Plain(FileSystem::Lvm),
        )
        .unwrap();
    let r = m.volume_group_create("tank", &vec![pv]);
    assert!(r.is_ok());
    let vgs = m.lvm_volume_groups();
    assert_eq!(vgs.len(), 0);
    let staged = m.components.queued_changes.volume_groups.len();
    assert_eq!(staged, 1);
}

#[test]
fn lvm_snapshot_scan_attaches_groups() {
    let mut dm_probe = disk_probe("dm-0", 100_000, None);
    dm_probe.variant = DeviceVariant::DevMap(String::from("tank-data"));
    dm_probe.fstype = Some(String::from("ext4"));
    let probes = vec![dm_probe];
    let vgs = vec![VgInfo {
        name: String::from("tank"),
        extent_size: 4 * 1024 * 1024,
        extents: 100,
        extents_free: 40,
        pvs: Vec::new(),
        lvs: vec![ecs_disk_manager::lvm::LvmLv {
            name: String::from("data"),
            path: String::from("/dev/dm-0"),
            uuid: String::from("u"),
        }],
    }];
    let mut m = DiskManager::new();
    m.scan(&probes, &Vec::new(), &vgs, &Vec::new());
    let (vge, vg) = m.lvm_volume_group("tank").map(|(e, v)| (e, v.clone())).unwrap();
    assert_eq!(vg.extents, 100);
    assert_eq!(vg.extents_free, 40);
    assert!(vg.extents_free <= vg.extents);
    let (dm, _) = m.device_by_path("/dev/dm-0").unwrap();
    assert!(m.is_lvm_lv(dm));
    let kids = m.components.vgs.children.get(vge.id).unwrap().clone();
    assert_eq!(kids.len(), 1);
    assert_eq!(kids[0], dm);
}

#[test]
fn partitions_add() {
}

#[test]
fn partitions_remove() {
}

#[test]
fn partitions_add_and_remove() {
}

#[test]
fn partitions_resize() {
}

#[test]
fn partitions_move() {
}

#[test]
fn fs_on_luks() {
}

#[test]
fn fs_on_lvm() {
}

#[test]
fn luks_on_lvm_create() {
}

#[test]
fn luks_on_lvm_extend() {
}

#[test]
fn luks_on_lvm_modify() {
}

#[test]
fn lvm_on_luks_create() {
}

#[test]
fn lvm_on_luks_extend() {
}

#[test]
fn lvm_on_luks_modify() {
}
