//! File-system formats and the policy on their sizes.

use vstd::prelude::*;

verus! {

/// Describes a file system format, such as ext4 or fat32.
#[derive(Debug, PartialEq, Eq, Copy, Clone, Hash, Structural)]
pub enum FileSystem {
    Btrfs,
    Exfat,
    Ext2,
    Ext3,
    Ext4,
    F2fs,
    Iso9660,
    Luks,
    Lvm,
    Ntfs,
    Squashfs,
    Swap,
    Vfat,
    Xfs,
    Zfs,
}

/// Indicates that a partition is either too small or too large.
#[derive(Debug, PartialEq, Eq, Copy, Clone, Structural)]
pub enum PartitionSizeError {
    TooSmall(u64, u64),
    TooLarge(u64, u64),
}

/// The code point of `c` with an ASCII upper-case letter lowered.
pub open spec fn lower_code(c: char) -> u32 {
    if 65 <= c as u32 && c as u32 <= 90 {
        (c as u32 + 32) as u32
    } else {
        c as u32
    }
}

/// Whether `s`, lowered letter by letter, reads as `t`.
pub open spec fn lower_matches(s: Seq<char>, t: Seq<char>) -> bool {
    s.len() == t.len() && forall|i: int| 0 <= i < s.len() ==> lower_code(s[i]) == t[i] as u32
}

/// Which file system a probe type token names, if any; matching is
/// case-insensitive over the ASCII letters.
pub open spec fn spec_parse_fs(s: Seq<char>) -> Option<FileSystem> {
    if lower_matches(s, "btrfs"@) {
        Some(FileSystem::Btrfs)
    } else if lower_matches(s, "exfat"@) {
        Some(FileSystem::Exfat)
    } else if lower_matches(s, "ext2"@) {
        Some(FileSystem::Ext2)
    } else if lower_matches(s, "ext3"@) {
        Some(FileSystem::Ext3)
    } else if lower_matches(s, "ext4"@) {
        Some(FileSystem::Ext4)
    } else if lower_matches(s, "f2fs"@) {
        Some(FileSystem::F2fs)
    } else if lower_matches(s, "fat16"@) || lower_matches(s, "fat32"@) || lower_matches(
        s,
        "vfat"@,
    ) {
        Some(FileSystem::Vfat)
    } else if lower_matches(s, "iso9660"@) {
        Some(FileSystem::Iso9660)
    } else if lower_matches(s, "luks"@) || lower_matches(s, "crypto_luks"@) {
        Some(FileSystem::Luks)
    } else if lower_matches(s, "lvm"@) || lower_matches(s, "lvm2_member"@) {
        Some(FileSystem::Lvm)
    } else if lower_matches(s, "ntfs"@) {
        Some(FileSystem::Ntfs)
    } else if lower_matches(s, "squashfs"@) {
        Some(FileSystem::Squashfs)
    } else if lower_matches(s, "swap"@) || lower_matches(s, "linux-swap(v1)"@) {
        Some(FileSystem::Swap)
    } else if lower_matches(s, "xfs"@) {
        Some(FileSystem::Xfs)
    } else if lower_matches(s, "zfs"@) {
        Some(FileSystem::Zfs)
    } else {
        None
    }
}

/// The canonical lower-case token of a file system.
pub open spec fn spec_fs_name(fs: FileSystem) -> Seq<char> {
    match fs {
        FileSystem::Btrfs => "btrfs"@,
        FileSystem::Exfat => "exfat"@,
        FileSystem::Ext2 => "ext2"@,
        FileSystem::Ext3 => "ext3"@,
        FileSystem::Ext4 => "ext4"@,
        FileSystem::F2fs => "f2fs"@,
        FileSystem::Ntfs => "ntfs"@,
        FileSystem::Swap => "swap"@,
        FileSystem::Xfs => "xfs"@,
        FileSystem::Lvm => "lvm"@,
        FileSystem::Luks => "luks"@,
        FileSystem::Squashfs => "squashfs"@,
        FileSystem::Iso9660 => "iso9660"@,
        FileSystem::Vfat => "vfat"@,
        FileSystem::Zfs => "zfs"@,
    }
}

/// Whether `s`, lowered letter by letter, reads as the token `t`.
pub fn reads_as(s: &str, t: &str) -> (r: bool)
    ensures
        r == lower_matches(s@, t@),
{
    let n = s.unicode_len();
    if n != t.unicode_len() {
        return false;
    }
    let mut i: usize = 0;
    while i < n
        invariant
            n == s@.len(),
            n == t@.len(),
            i <= n,
            forall|j: int| 0 <= j < i ==> lower_code(s@[j]) == t@[j] as u32,
        decreases n - i,
    {
        let c = s.get_char(i) as u32;
        let lowered: u32 = if 65 <= c && c <= 90 {
            c + 32
        } else {
            c
        };
        if lowered != t.get_char(i) as u32 {
            return false;
        }
        i = i + 1;
    }
    true
}

impl FileSystem {
    /// Parses a probe type token, case-insensitively, into a file system.
    pub fn from_str(s: &str) -> (r: Result<FileSystem, ()>)
        ensures
            match r {
                Ok(fs) => spec_parse_fs(s@) == Some(fs),
                Err(()) => spec_parse_fs(s@) is None,
            },
    {
        let fs = if reads_as(s, "btrfs") {
            FileSystem::Btrfs
        } else if reads_as(s, "exfat") {
            FileSystem::Exfat
        } else if reads_as(s, "ext2") {
            FileSystem::Ext2
        } else if reads_as(s, "ext3") {
            FileSystem::Ext3
        } else if reads_as(s, "ext4") {
            FileSystem::Ext4
        } else if reads_as(s, "f2fs") {
            FileSystem::F2fs
        } else if reads_as(s, "fat16") || reads_as(s, "fat32") || reads_as(s, "vfat") {
            FileSystem::Vfat
        } else if reads_as(s, "iso9660") {
            FileSystem::Iso9660
        } else if reads_as(s, "luks") || reads_as(s, "crypto_luks") {
            FileSystem::Luks
        } else if reads_as(s, "lvm") || reads_as(s, "lvm2_member") {
            FileSystem::Lvm
        } else if reads_as(s, "ntfs") {
            FileSystem::Ntfs
        } else if reads_as(s, "squashfs") {
            FileSystem::Squashfs
        } else if reads_as(s, "swap") || reads_as(s, "linux-swap(v1)") {
            FileSystem::Swap
        } else if reads_as(s, "xfs") {
            FileSystem::Xfs
        } else if reads_as(s, "zfs") {
            FileSystem::Zfs
        } else {
            return Err(());
        };
        Ok(fs)
    }

    /// The canonical lower-case token of this file system.
    pub fn as_str(&self) -> (r: &'static str)
        ensures
            r@ == spec_fs_name(*self),
    {
        match self {
            FileSystem::Btrfs => "btrfs",
            FileSystem::Exfat => "exfat",
            FileSystem::Ext2 => "ext2",
            FileSystem::Ext3 => "ext3",
            FileSystem::Ext4 => "ext4",
            FileSystem::F2fs => "f2fs",
            FileSystem::Ntfs => "ntfs",
            FileSystem::Swap => "swap",
            FileSystem::Xfs => "xfs",
            FileSystem::Lvm => "lvm",
            FileSystem::Luks => "luks",
            FileSystem::Squashfs => "squashfs",
            FileSystem::Iso9660 => "iso9660",
            FileSystem::Vfat => "vfat",
            FileSystem::Zfs => "zfs",
        }
    }

    /// Check if a given size, in bytes, is valid for this file system.
    ///
    /// Btrfs must be at least 250 MiB and Ext4 at most 16 TiB. A FAT
    /// partition — every FAT token parses to `Vfat`, and the format recipe
    /// creates FAT32 — must lie between 33 MiB and 2 TiB. The other
    /// formats accept any size here.
    pub fn validate_size(self, size: u64) -> (r: Result<(), PartitionSizeError>)
        ensures
            match self {
                FileSystem::Btrfs => r == if size < 262144000u64 {
                    Err::<(), PartitionSizeError>(
                        PartitionSizeError::TooSmall(size, 262144000u64),
                    )
                } else {
                    Ok::<(), PartitionSizeError>(())
                },
                FileSystem::Ext4 => r == if size > 17592186044416u64 {
                    Err::<(), PartitionSizeError>(
                        PartitionSizeError::TooLarge(size, 17592186044416u64),
                    )
                } else {
                    Ok::<(), PartitionSizeError>(())
                },
                FileSystem::Vfat => r == if size < 34603008u64 {
                    Err::<(), PartitionSizeError>(
                        PartitionSizeError::TooSmall(size, 34603008u64),
                    )
                } else if size > 2199023255552u64 {
                    Err::<(), PartitionSizeError>(
                        PartitionSizeError::TooLarge(size, 2199023255552u64),
                    )
                } else {
                    Ok::<(), PartitionSizeError>(())
                },
                _ => r == Ok::<(), PartitionSizeError>(()),
            },
{
        match self {
            FileSystem::Btrfs => {
                if size < 262144000u64 {
                    Err(PartitionSizeError::TooSmall(size, 262144000u64))
                } else {
                    Ok(())
                }
            },
            FileSystem::Ext4 => {
                if size > 17592186044416u64 {
                    Err(PartitionSizeError::TooLarge(size, 17592186044416u64))
                } else {
                    Ok(())
                }
            },
            FileSystem::Vfat => {
                if size < 34603008u64 {
                    Err(PartitionSizeError::TooSmall(size, 34603008u64))
                } else if size > 2199023255552u64 {
                    Err(PartitionSizeError::TooLarge(size, 2199023255552u64))
                } else {
                    Ok(())
                }
            },
            _ => Ok(()),
        }
    }

    /// The program and arguments that create this file system on a device,
    /// or nothing for the formats no tool here creates directly. The
    /// device path is appended last by the caller; whether a swap
    /// signature already exists, sparing the call, is the caller's check.
    pub fn mkfs_invocation(self) -> (r: Option<(&'static str, Vec<&'static str>)>)
        ensures
            match self {
                FileSystem::Btrfs => r matches Some((p, a)) && p@ == "mkfs.btrfs"@ && a@.len() == 1
                    && a@[0]@ == "-f"@,
                FileSystem::Exfat => r matches Some((p, a)) && p@ == "mkfs.exfat"@ && a@.len()
                    == 0,
                FileSystem::Ext2 => r matches Some((p, a)) && p@ == "mkfs.ext2"@ && a@.len() == 2
                    && a@[0]@ == "-F"@ && a@[1]@ == "-q"@,
                FileSystem::Ext3 => r matches Some((p, a)) && p@ == "mkfs.ext3"@ && a@.len() == 2
                    && a@[0]@ == "-F"@ && a@[1]@ == "-q"@,
                FileSystem::Ext4 => r matches Some((p, a)) && p@ == "mkfs.ext4"@ && a@.len() == 4
                    && a@[0]@ == "-F"@ && a@[1]@ == "-q"@ && a@[2]@ == "-E"@ && a@[3]@
                    == "lazy_itable_init"@,
                FileSystem::F2fs => r matches Some((p, a)) && p@ == "mkfs.f2fs"@ && a@.len() == 1
                    && a@[0]@ == "-q"@,
                FileSystem::Vfat => r matches Some((p, a)) && p@ == "mkfs.fat"@ && a@.len() == 2
                    && a@[0]@ == "-F"@ && a@[1]@ == "32"@,
                FileSystem::Ntfs => r matches Some((p, a)) && p@ == "mkfs.ntfs"@ && a@.len() == 2
                    && a@[0]@ == "-FQ"@ && a@[1]@ == "-q"@,
                FileSystem::Swap => r matches Some((p, a)) && p@ == "mkswap"@ && a@.len() == 1
                    && a@[0]@ == "-f"@,
                FileSystem::Xfs => r matches Some((p, a)) && p@ == "mkfs.xfs"@ && a@.len() == 1
                    && a@[0]@ == "-f"@,
                _ => r is None,
            },
    {
        match self {
            FileSystem::Btrfs => Some(("mkfs.btrfs", vec!["-f"])),
            FileSystem::Exfat => Some(("mkfs.exfat", Vec::new())),
            FileSystem::Ext2 => Some(("mkfs.ext2", vec!["-F", "-q"])),
            FileSystem::Ext3 => Some(("mkfs.ext3", vec!["-F", "-q"])),
            FileSystem::Ext4 => Some(("mkfs.ext4", vec!["-F", "-q", "-E", "lazy_itable_init"])),
            FileSystem::F2fs => Some(("mkfs.f2fs", vec!["-q"])),
            FileSystem::Vfat => Some(("mkfs.fat", vec!["-F", "32"])),
            FileSystem::Ntfs => Some(("mkfs.ntfs", vec!["-FQ", "-q"])),
            FileSystem::Swap => Some(("mkswap", vec!["-f"])),
            FileSystem::Xfs => Some(("mkfs.xfs", vec!["-f"])),
            _ => None,
        }
    }
}

} // verus!
