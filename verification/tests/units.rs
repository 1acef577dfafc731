//! The smaller pieces, each held to an exact expected value.

use ecs_disk_manager::common::{double_dashes, str_eq, str_starts_with, u64_to_string};
use ecs_disk_manager::device::Device;
use ecs_disk_manager::fs::{FileSystem, PartitionSizeError};
use ecs_disk_manager::gpt::{convert_str_to_array, protective_mbr_tail, Gpt, PartitionError};
use ecs_disk_manager::luks::{luks_close_args, luks_format_args, luks_open_args, CryptType,
    CryptTypeStr, LuksParams, LuksPassphrase};
use ecs_disk_manager::lvm::LvmVg;
use ecs_disk_manager::partitions::PartitionTable;
use ecs_disk_manager::prober::{parse_dec, partition_device_name, split_fields, split_lines,
    PartitionEntry, PartitionsFile, EntryError};
use ecs_disk_manager::sector::Sector;

#[test]
fn filesystem_tokens_round_trip() {
    assert_eq!(FileSystem::from_str("ext4"), Ok(FileSystem::Ext4));
    assert_eq!(FileSystem::from_str("EXT4"), Ok(FileSystem::Ext4));
    assert_eq!(FileSystem::from_str("crypto_LUKS"), Ok(FileSystem::Luks));
    assert_eq!(FileSystem::from_str("lvm2_member"), Ok(FileSystem::Lvm));
    assert_eq!(FileSystem::from_str("fat32"), Ok(FileSystem::Vfat));
    assert_eq!(FileSystem::from_str("linux-swap(v1)"), Ok(FileSystem::Swap));
    assert_eq!(FileSystem::from_str("plan9"), Err(()));
    assert_eq!(FileSystem::Vfat.as_str(), "vfat");
    assert_eq!(FileSystem::Btrfs.as_str(), "btrfs");
}

#[test]
fn size_policy_bounds() {
    let mib = 1024 * 1024;
    assert_eq!(
        FileSystem::Btrfs.validate_size(249 * mib),
        Err(PartitionSizeError::TooSmall(249 * mib, 250 * mib))
    );
    assert_eq!(FileSystem::Btrfs.validate_size(250 * mib), Ok(()));
    let tib = 1024 * 1024 * mib;
    assert_eq!(FileSystem::Ext4.validate_size(16 * tib), Ok(()));
    assert_eq!(
        FileSystem::Ext4.validate_size(16 * tib + 1),
        Err(PartitionSizeError::TooLarge(16 * tib + 1, 16 * tib))
    );
    assert_eq!(FileSystem::Swap.validate_size(1), Ok(()));
    // FAT32 only fits between 33 MiB and 2 TiB.
    assert_eq!(
        FileSystem::Vfat.validate_size(33 * mib - 1),
        Err(PartitionSizeError::TooSmall(33 * mib - 1, 33 * mib))
    );
    assert_eq!(FileSystem::Vfat.validate_size(33 * mib), Ok(()));
    assert_eq!(FileSystem::Vfat.validate_size(2 * tib), Ok(()));
    assert_eq!(
        FileSystem::Vfat.validate_size(2 * tib + 1),
        Err(PartitionSizeError::TooLarge(2 * tib + 1, 2 * tib))
    );
}

#[test]
fn mkfs_recipes_name_the_programs() {
    let (p, a) = FileSystem::Ext4.mkfs_invocation().unwrap();
    assert_eq!(p, "mkfs.ext4");
    assert_eq!(a, vec!["-F", "-q", "-E", "lazy_itable_init"]);
    let (p, a) = FileSystem::Vfat.mkfs_invocation().unwrap();
    assert_eq!(p, "mkfs.fat");
    assert_eq!(a, vec!["-F", "32"]);
    let (p, a) = FileSystem::Swap.mkfs_invocation().unwrap();
    assert_eq!(p, "mkswap");
    assert_eq!(a, vec!["-f"]);
    assert!(FileSystem::Luks.mkfs_invocation().is_none());
    assert!(FileSystem::Lvm.mkfs_invocation().is_none());
}

#[test]
fn method_error_message_names_the_call() {
    let e = ecs_disk_manager::lvmbus::MethodError::new(
        "Uuid",
        "com.redhat.lvmdbus1.Lv",
        7,
        "property absent from snapshot",
    );
    assert_eq!(e.message(), "failed to call Uuid from com.redhat.lvmdbus1.Lv 7");
    let err = ecs_disk_manager::lvmbus::Error::GetProperty(e);
    assert_eq!(
        err.message(),
        "failed to get property: failed to call Uuid from com.redhat.lvmdbus1.Lv 7"
    );
}

#[test]
fn sector_resolution_matches_layout_arithmetic() {
    let d = Device {
        name: String::from("vda"),
        path: String::from("/dev/vda"),
        sectors: 4_194_304,
        logical_sector_size: 512,
        physical_sector_size: 512,
    };
    assert_eq!(d.get_sector(Sector::Start), 0);
    assert_eq!(d.get_sector(Sector::End), 4_194_304);
    assert_eq!(d.get_sector(Sector::Unit(77)), 77);
    assert_eq!(d.get_sector(Sector::Megabyte(100)), 204_800);
    assert_eq!(d.get_sector(Sector::MegabyteFromEnd(1000)), 4_194_304 - 2_048_000);
    assert_eq!(d.get_sector(Sector::Percent(50)), 2_097_152);
    assert_eq!(d.get_sector(Sector::Percent(200)), 4_194_304);
}

#[test]
fn uuid_canonical_bytes() {
    let arr = convert_str_to_array("0FC63DAF-8483-4772-8E79-3D69D8477DE4").unwrap();
    assert_eq!(
        arr,
        [0xaf, 0x3d, 0xc6, 0x0f, 0x83, 0x84, 0x72, 0x47, 0x8e, 0x79, 0x3d, 0x69, 0xd8, 0x47,
            0x7d, 0xe4]
    );
    assert!(convert_str_to_array("zz").is_err());
    assert!(convert_str_to_array("0FC63DAF").is_err());
}

#[test]
fn protective_record_layout() {
    let tail = protective_mbr_tail(0x1_0203_0405);
    assert_eq!(tail.len(), 66);
    assert_eq!(&tail[0..12], &[0, 0, 2, 0, 0xee, 0xff, 0xff, 0xff, 1, 0, 0, 0]);
    // The count is clamped to what 32 bits hold.
    assert_eq!(&tail[12..16], &[0xff, 0xff, 0xff, 0xff]);
    assert_eq!(&tail[64..66], &[0x55, 0xaa]);
    let small = protective_mbr_tail(0x01020304);
    assert_eq!(&small[12..16], &[0x04, 0x03, 0x02, 0x01]);
    assert!(small[16..64].iter().all(|b| *b == 0));
}

#[test]
fn gpt_slots_fill_and_free() {
    let mut t = Gpt::create(512, 99, 4);
    assert_eq!(t.last_sector(), 99);
    let a = t.add(10, 19, Some("A")).unwrap();
    let b = t.add(20, 29, None).unwrap();
    assert_eq!(a, 0);
    assert_eq!(b, 1);
    assert_eq!(t.find(15).unwrap(), a);
    assert_eq!(t.find(5).unwrap_err(), PartitionError::PartitionNotFound);
    t.label(21, "B").unwrap();
    assert_eq!(t.entries[b as usize].partition_name, "B");
    t.remove(15).unwrap();
    assert_eq!(t.find(15).unwrap_err(), PartitionError::PartitionNotFound);
    let c = t.add(30, 39, None).unwrap();
    assert_eq!(c, 0);
    t.add(40, 49, None).unwrap();
    t.add(50, 59, None).unwrap();
    assert_eq!(t.add(60, 69, None).unwrap_err(), PartitionError::LimitExceeded);
}

#[test]
fn cryptsetup_argument_lines() {
    let params = LuksParams {
        key_size: 512,
        kind: String::from("luks2"),
        target_name: String::from("cryptroot"),
        passphrase: None,
    };
    let args = luks_format_args(&params, "/dev/vda1");
    let want = ["-s", "512", "luksFormat", "--type", "luks2", "/dev/vda1"];
    assert_eq!(args.len(), want.len());
    for (got, expected) in args.iter().zip(want.iter()) {
        assert_eq!(got, expected);
    }
    let open = luks_open_args("/dev/vda1", "cryptroot");
    assert_eq!(open.len(), 3);
    assert_eq!(open[0], "open");
    assert_eq!(open[1], "/dev/vda1");
    assert_eq!(open[2], "cryptroot");
    let close = luks_close_args("/dev/vda1");
    assert_eq!(close.len(), 2);
    assert_eq!(close[0], "close");
    assert_eq!(close[1], "/dev/vda1");
}

#[test]
fn passphrases_round_trip_with_newline() {
    let p = LuksPassphrase::new(b"secret".to_vec());
    assert_eq!(p.unsecure(), b"secret".to_vec());
    let with_nl = p.append_newline();
    assert_eq!(with_nl.unsecure(), b"secret\n".to_vec());
    let copy = p.duplicate();
    assert_eq!(copy.unsecure(), b"secret".to_vec());
}

#[test]
fn crypt_kind_tokens() {
    let t = CryptType::Luks2.token();
    assert_eq!(t.as_str(), "LUKS2");
    assert_eq!(CryptType::from_token(&t), Ok(CryptType::Luks2));
    assert_eq!(CryptType::from_token(&CryptTypeStr(String::from("LUKS1"))), Ok(CryptType::Luks1));
    assert!(CryptType::from_token(&CryptTypeStr(String::from("plain"))).is_err());
}

#[test]
fn listing_rows_parse() {
    let text = "major minor  #blocks  name\n\n   8        0  976762584 sda\n   8        1     524288 sda1\nbad line here x\n";
    let file = PartitionsFile::new(String::from(text));
    let mut it = file.entry_iter();
    let sda = it.next().unwrap().unwrap();
    assert_eq!(sda.major, 8);
    assert_eq!(sda.minor, 0);
    assert_eq!(sda.blocks, 976_762_584);
    assert_eq!(sda.name, "sda");
    let sda1 = it.next().unwrap().unwrap();
    assert_eq!(sda1.name, "sda1");
    let bad = it.next().unwrap();
    assert_eq!(bad.unwrap_err(), EntryError::NanMajor);
    assert!(it.next().is_none());
}

#[test]
fn field_and_line_splitting() {
    let fields = split_fields("  a\tbb  c ");
    assert_eq!(fields, vec![String::from("a"), String::from("bb"), String::from("c")]);
    assert_eq!(split_fields(""), Vec::<String>::new());
    let lines = split_lines("a\nb\n\nc");
    assert_eq!(lines, vec![String::from("a"), String::from("b"), String::from(""), String::from("c")]);
    assert_eq!(parse_dec("512", u64::MAX), Some(512));
    assert_eq!(parse_dec("99999", 65535), None);
    assert_eq!(parse_dec("12a", u64::MAX), None);
    assert_eq!(parse_dec("", u64::MAX), None);
}

#[test]
fn missing_fields_report_their_place() {
    assert_eq!(PartitionEntry::try_from("").unwrap_err(), EntryError::NoMajor);
    assert_eq!(PartitionEntry::try_from("8").unwrap_err(), EntryError::NoMinor);
    assert_eq!(PartitionEntry::try_from("8 0").unwrap_err(), EntryError::NoBlocks);
    assert_eq!(PartitionEntry::try_from("8 0 100").unwrap_err(), EntryError::NoName);
    assert_eq!(PartitionEntry::try_from("x 0 100 sda").unwrap_err(), EntryError::NanMajor);
    assert_eq!(PartitionEntry::try_from("8 y 100 sda").unwrap_err(), EntryError::NanMinor);
    assert_eq!(PartitionEntry::try_from("8 0 z sda").unwrap_err(), EntryError::NanBlocks);
}

#[test]
fn partition_names_add_p_after_digits() {
    assert_eq!(partition_device_name("sda", 1), "sda1");
    assert_eq!(partition_device_name("nvme0n1", 3), "nvme0n1p3");
    assert_eq!(partition_device_name("loop0", 1), "loop0p1");
}

#[test]
fn table_tokens() {
    assert_eq!(PartitionTable::from_str("gpt"), Ok(PartitionTable::Guid));
    assert_eq!(PartitionTable::from_str("guid"), Ok(PartitionTable::Guid));
    assert_eq!(PartitionTable::from_str("dos"), Ok(PartitionTable::Mbr));
    assert_eq!(PartitionTable::from_str("mbr"), Ok(PartitionTable::Mbr));
    assert!(PartitionTable::from_str("apm").is_err());
    assert_eq!(PartitionTable::Guid.as_str(), "guid");
}

#[test]
fn volume_group_arithmetic() {
    let vg = LvmVg {
        name: String::from("tank"),
        extent_size: 4 * 1024 * 1024,
        extents: 100,
        extents_free: 40,
    };
    assert_eq!(vg.extent_size_as_512_byte_sectors(), 8192);
    assert_eq!(vg.sectors_free(), 8192 * 40);
    assert_eq!(vg.sectors(), 8192 * 100);
    assert_eq!(vg.get_sector(Sector::End), 8192 * 100);
}

#[test]
fn string_helpers() {
    assert!(str_eq("abc", "abc"));
    assert!(!str_eq("abc", "abd"));
    assert!(str_starts_with("dm-0", "dm-"));
    assert!(!str_starts_with("sda", "dm-"));
    assert_eq!(u64_to_string(0), String::from("0"));
    assert_eq!(u64_to_string(18_446_744_073_709_551_615), String::from("18446744073709551615"));
    assert_eq!(double_dashes("a-b-c"), String::from("a--b--c"));
    assert_eq!(double_dashes("abc"), String::from("abc"));
}

#[test]
fn remove_item_takes_first_match() {
    let mut v: Vec<u64> = vec![3, 5, 3];
    assert_eq!(ecs_disk_manager::common::remove_item(&mut v, &3), Some(3));
    assert_eq!(v, vec![5, 3]);
    assert_eq!(ecs_disk_manager::common::remove_item(&mut v, &9), None);
    assert_eq!(v, vec![5, 3]);
}

#[test]
fn random_uuids_have_sixteen_bytes() {
    let a = ecs_disk_manager::gpt::generate_random_uuid();
    assert_eq!(a.len(), 16);
}
