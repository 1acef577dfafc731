//! The in-memory GPT: slot allocation, lookup by contained sector,
//! labelling and removal, plus the byte-level helpers around the table.
//!
//! Reading a table from a device and writing one back are input and
//! output; they stay outside. Everything that decides which slot a
//! partition takes, or which entry a sector addresses, is here.

use vstd::prelude::*;

verus! {

/// One slot of the GPT entry array.
pub struct GptEntry {
    pub starting_lba: u64,
    pub ending_lba: u64,
    pub attribute_bits: u64,
    pub partition_name: String,
    pub partition_type_guid: [u8; 16],
    pub unique_partition_guid: [u8; 16],
    /// Whether the slot holds a partition. An unused slot is free for
    /// `add` to claim.
    pub used: bool,
}

/// An in-memory GPT: the entry slots and the addressable range.
pub struct Gpt {
    pub entries: Vec<GptEntry>,
    pub last_usable_lba: u64,
    pub sector_size: u64,
    pub disk_guid: [u8; 16],
}

/// Why a table operation was refused.
#[derive(Clone, Copy, Debug, Eq, PartialEq, Structural)]
pub enum PartitionError {
    /// Every slot of the entry array is taken.
    LimitExceeded,
    /// No used entry covers the sector.
    PartitionNotFound,
}

/// The dash-stripped little-endian form of the Linux filesystem partition
/// type GUID, 0FC63DAF-8483-4772-8E79-3D69D8477DE4.
pub open spec fn spec_linux_fs_guid() -> Seq<u8> {
    seq![
        0xafu8,
        0x3du8,
        0xc6u8,
        0x0fu8,
        0x83u8,
        0x84u8,
        0x72u8,
        0x47u8,
        0x8eu8,
        0x79u8,
        0x3du8,
        0x69u8,
        0xd8u8,
        0x47u8,
        0x7du8,
        0xe4u8,
    ]
}

/// Relies on rand::random: sixteen bytes from the thread-local generator.
/// Nothing is promised of their values; a fresh draw may differ every
/// time.
#[verifier::external_body]
pub fn generate_random_uuid() -> (r: [u8; 16])
    ensures
        r@.len() == 16,
{
    rand::random::<[u8; 16]>()
}

/// Whether a used entry's range `[starting_lba, ending_lba]` contains the
/// sector.
pub open spec fn entry_covers(e: GptEntry, sector: u64) -> bool {
    e.used && e.starting_lba <= sector && sector <= e.ending_lba
}

impl Gpt {
    /// A fresh table: `slots` empty entries over the usable range, with a
    /// newly drawn disk GUID.
    pub fn create(sector_size: u64, last_usable_lba: u64, slots: usize) -> (r: Gpt)
        ensures
            r.entries@.len() == slots,
            forall|i: int| 0 <= i < slots ==> !(#[trigger] r.entries@[i]).used,
            r.last_usable_lba == last_usable_lba,
            r.sector_size == sector_size,
    {
        let mut entries: Vec<GptEntry> = Vec::new();
        let mut i: usize = 0;
        while i < slots
            invariant
                i <= slots,
                entries@.len() == i,
                forall|j: int| 0 <= j < i ==> !(#[trigger] entries@[j]).used,
            decreases slots - i,
        {
            entries.push(
                GptEntry {
                    starting_lba: 0,
                    ending_lba: 0,
                    attribute_bits: 0,
                    partition_name: String::new(),
                    partition_type_guid: [0;16],
                    unique_partition_guid: [0;16],
                    used: false,
                },
            );
            i = i + 1;
        }
        Gpt { entries, last_usable_lba, sector_size, disk_guid: generate_random_uuid() }
    }

    /// The last addressable sector of the table.
    pub fn last_sector(&self) -> (r: u64)
        ensures
            r == self.last_usable_lba,
    {
        self.last_usable_lba
    }

    /// The first used entry whose range contains the sector. Entry
    /// numbers are one-based, as GPT tools print them.
    pub fn find(&self, sector: u64) -> (r: Result<u32, PartitionError>)
        requires
            self.entries@.len() < u32::MAX,
        ensures
            match r {
                Ok(i) => {
                    &&& i < self.entries@.len()
                    &&& entry_covers(self.entries@[i as int], sector)
                    &&& forall|j: int|
                        0 <= j < i ==> !entry_covers(#[trigger] self.entries@[j], sector)
                },
                Err(e) => {
                    &&& e == PartitionError::PartitionNotFound
                    &&& forall|j: int|
                        0 <= j < self.entries@.len() ==> !entry_covers(
                            #[trigger] self.entries@[j],
                            sector,
                        )
                },
            },
    {
        let n = self.entries.len();
        let mut i: usize = 0;
        while i < n
            invariant
                n == self.entries@.len(),
                n < u32::MAX,
                i <= n,
                forall|j: int| 0 <= j < i ==> !entry_covers(#[trigger] self.entries@[j], sector),
            decreases n - i,
        {
            let e = &self.entries[i];
            if e.used && e.starting_lba <= sector && sector <= e.ending_lba {
                return Ok(i as u32);
            }
            i = i + 1;
        }
        Err(PartitionError::PartitionNotFound)
    }

    /// Adds a new partition to the first unused slot: the slot takes the
    /// range `[start, end]`, the given name (or none), the Linux
    /// filesystem type GUID, and a freshly drawn unique GUID.
    pub fn add(&mut self, start: u64, end: u64, name: Option<&str>) -> (r: Result<
        u32,
        PartitionError,
    >)
        requires
            old(self).entries@.len() < u32::MAX,
        ensures
            match r {
                Ok(i) => {
                    &&& i < old(self).entries@.len()
                    &&& !old(self).entries@[i as int].used
                    &&& forall|j: int| 0 <= j < i ==> (#[trigger] old(self).entries@[j]).used
                    &&& final(self).entries@ == old(self).entries@.update(
                        i as int,
                        final(self).entries@[i as int],
                    )
                    &&& final(self).entries@[i as int].used
                    &&& final(self).entries@[i as int].starting_lba == start
                    &&& final(self).entries@[i as int].ending_lba == end
                    &&& final(self).entries@[i as int].partition_name@ == match name {
                        Some(s) => s@,
                        None => Seq::<char>::empty(),
                    }
                    &&& final(self).entries@[i as int].partition_type_guid@
                        == spec_linux_fs_guid()
                    &&& final(self).last_usable_lba == old(self).last_usable_lba
                    &&& final(self).sector_size == old(self).sector_size
                },
                Err(e) => {
                    &&& e == PartitionError::LimitExceeded
                    &&& forall|j: int|
                        0 <= j < old(self).entries@.len() ==> (#[trigger] old(
                            self,
                        ).entries@[j]).used
                    &&& *final(self) == *old(self)
                },
            },
    {
        let n = self.entries.len();
        let mut i: usize = 0;
        while i < n
            invariant
                n == self.entries@.len(),
                n < u32::MAX,
                i <= n,
                *self == *old(self),
                forall|j: int| 0 <= j < i ==> (#[trigger] self.entries@[j]).used,
            decreases n - i,
        {
            if !self.entries[i].used {
                let type_guid: [u8; 16] = [
                    0xaf,
                    0x3d,
                    0xc6,
                    0x0f,
                    0x83,
                    0x84,
                    0x72,
                    0x47,
                    0x8e,
                    0x79,
                    0x3d,
                    0x69,
                    0xd8,
                    0x47,
                    0x7d,
                    0xe4,
                ];
                proof {
                    assert(type_guid@ =~= spec_linux_fs_guid());
                }
                let pname = match name {
                    Some(s) => String::from_str(s),
                    None => String::new(),
                };
                let entry = GptEntry {
                    starting_lba: start,
                    ending_lba: end,
                    attribute_bits: 0,
                    partition_name: pname,
                    partition_type_guid: type_guid,
                    unique_partition_guid: generate_random_uuid(),
                    used: true,
                };
                self.entries.set(i, entry);
                return Ok(i as u32);
            }
            i = i + 1;
        }
        Err(PartitionError::LimitExceeded)
    }

    /// Renames the used entry whose range contains the sector.
    pub fn label(&mut self, sector: u64, label: &str) -> (r: Result<(), PartitionError>)
        requires
            old(self).entries@.len() < u32::MAX,
        ensures
            match r {
                Ok(()) => exists|i: int|
                    {
                        &&& 0 <= i < old(self).entries@.len()
                        &&& entry_covers(#[trigger] old(self).entries@[i], sector)
                        &&& final(self).entries@ == old(self).entries@.update(
                            i,
                            final(self).entries@[i],
                        )
                        &&& final(self).entries@[i] == (GptEntry {
                            partition_name: final(self).entries@[i].partition_name,
                            ..old(self).entries@[i]
                        })
                        &&& final(self).entries@[i].partition_name@ == label@
                    },
                Err(e) => {
                    &&& e == PartitionError::PartitionNotFound
                    &&& forall|j: int|
                        0 <= j < old(self).entries@.len() ==> !entry_covers(
                            #[trigger] old(self).entries@[j],
                            sector,
                        )
                    &&& *final(self) == *old(self)
                },
            },
            final(self).last_usable_lba == old(self).last_usable_lba,
            final(self).sector_size == old(self).sector_size,
    {
        let i = match self.find(sector) {
            Ok(i) => i,
            Err(e) => {
                return Err(e);
            },
        };
        let old_entry = &self.entries[i as usize];
        let entry = GptEntry {
            starting_lba: old_entry.starting_lba,
            ending_lba: old_entry.ending_lba,
            attribute_bits: old_entry.attribute_bits,
            partition_name: String::from_str(label),
            partition_type_guid: old_entry.partition_type_guid,
            unique_partition_guid: old_entry.unique_partition_guid,
            used: old_entry.used,
        };
        self.entries.set(i as usize, entry);
        Ok(())
    }

    /// Clears the used entry whose range contains the sector.
    pub fn remove(&mut self, sector: u64) -> (r: Result<(), PartitionError>)
        requires
            old(self).entries@.len() < u32::MAX,
        ensures
            match r {
                Ok(()) => exists|i: int|
                    {
                        &&& 0 <= i < old(self).entries@.len()
                        &&& entry_covers(#[trigger] old(self).entries@[i], sector)
                        &&& final(self).entries@ == old(self).entries@.update(
                            i,
                            final(self).entries@[i],
                        )
                        &&& !final(self).entries@[i].used
                    },
                Err(e) => {
                    &&& e == PartitionError::PartitionNotFound
                    &&& forall|j: int|
                        0 <= j < old(self).entries@.len() ==> !entry_covers(
                            #[trigger] old(self).entries@[j],
                            sector,
                        )
                    &&& *final(self) == *old(self)
                },
            },
            final(self).last_usable_lba == old(self).last_usable_lba,
            final(self).sector_size == old(self).sector_size,
    {
        let i = match self.find(sector) {
            Ok(i) => i,
            Err(e) => {
                return Err(e);
            },
        };
        let old_entry = &self.entries[i as usize];
        let entry = GptEntry {
            starting_lba: old_entry.starting_lba,
            ending_lba: old_entry.ending_lba,
            attribute_bits: old_entry.attribute_bits,
            partition_name: String::new(),
            partition_type_guid: old_entry.partition_type_guid,
            unique_partition_guid: old_entry.unique_partition_guid,
            used: false,
        };
        self.entries.set(i as usize, entry);
        Ok(())
    }
}

/// The value of a hexadecimal digit, or nothing.
pub open spec fn hex_val(c: char) -> Option<u8> {
    if '0' <= c && c <= '9' {
        Some((c as u8 - 48) as u8)
    } else if 'a' <= c && c <= 'f' {
        Some((c as u8 - 87) as u8)
    } else if 'A' <= c && c <= 'F' {
        Some((c as u8 - 55) as u8)
    } else {
        None
    }
}

/// The hexadecimal digits of `s` with dashes skipped, or nothing when any
/// other character stands in it.
pub open spec fn hex_vals(s: Seq<char>) -> Option<Seq<u8>>
    decreases s.len(),
{
    if s.len() == 0 {
        Some(Seq::empty())
    } else {
        match hex_vals(s.drop_last()) {
            Some(v) => {
                if s.last() == '-' {
                    Some(v)
                } else {
                    match hex_val(s.last()) {
                        Some(d) => Some(v.push(d)),
                        None => None,
                    }
                }
            },
            None => None,
        }
    }
}

/// The sixteen UUID bytes in on-disk order: the first three groups are
/// byte-reversed (they are little-endian on disk), the last two kept.
pub open spec fn uuid_reorder(b: Seq<u8>) -> Seq<u8>
    recommends
        b.len() == 16,
{
    seq![
        b[3],
        b[2],
        b[1],
        b[0],
        b[5],
        b[4],
        b[7],
        b[6],
        b[8],
        b[9],
        b[10],
        b[11],
        b[12],
        b[13],
        b[14],
        b[15],
    ]
}

/// The byte at pair `i` of a run of hex digits.
pub open spec fn hex_byte(v: Seq<u8>, i: int) -> u8 {
    (v[2 * i] * 16 + v[2 * i + 1]) as u8
}

/// Reads a dash-separated UUID into its sixteen on-disk bytes: the digits
/// pair up into bytes and the first three groups are reversed. Anything
/// but thirty-two hex digits and dashes is refused.
pub fn convert_str_to_array(uuid: &str) -> (r: Result<[u8; 16], ()>)
    ensures
        match r {
            Ok(arr) => {
                &&& hex_vals(uuid@) matches Some(v) && v.len() == 32 && arr@ == uuid_reorder(
                    Seq::new(16, |i: int| hex_byte(v, i)),
                )
            },
            Err(()) => hex_vals(uuid@) is None || hex_vals(uuid@)->Some_0.len() != 32,
        },
{
    let n = uuid.unicode_len();
    let mut digits: Vec<u8> = Vec::new();
    let mut i: usize = 0;
    proof {
        assert(uuid@.subrange(0, 0) =~= Seq::<char>::empty());
    }
    while i < n
        invariant
            n == uuid@.len(),
            i <= n,
            hex_vals(uuid@.subrange(0, i as int)) == Some(digits@),
            digits@.len() <= i,
        decreases n - i,
    {
        proof {
            assert(uuid@.subrange(0, i as int + 1).drop_last() =~= uuid@.subrange(0, i as int));
            assert(uuid@.subrange(0, i as int + 1).last() == uuid@[i as int]);
        }
        let c = uuid.get_char(i) as u32;
        if c == 45 {
            // A dash is skipped.
        } else if 48 <= c && c <= 57 {
            digits.push((c - 48) as u8);
        } else if 97 <= c && c <= 102 {
            digits.push((c - 87) as u8);
        } else if 65 <= c && c <= 70 {
            digits.push((c - 55) as u8);
        } else {
            proof {
                lemma_hex_vals_bad(uuid@, i as int);
            }
            return Err(());
        }
        i = i + 1;
    }
    proof {
        assert(uuid@.subrange(0, n as int) =~= uuid@);
    }
    if digits.len() != 32 {
        return Err(());
    }
    proof {
        lemma_hex_vals_small(uuid@, digits@);
    }
    let mut bytes: Vec<u8> = Vec::new();
    let mut j: usize = 0;
    while j < 16
        invariant
            digits@.len() == 32,
            hex_vals(uuid@) == Some(digits@),
            j <= 16,
            bytes@.len() == j,
            forall|a: int| 0 <= a < j ==> bytes@[a] == hex_byte(digits@, a),
            forall|a: int| 0 <= a < digits@.len() ==> digits@[a] < 16,
        decreases 16 - j,
    {
        bytes.push(digits[2 * j] * 16 + digits[2 * j + 1]);
        j = j + 1;
    }
    let arr: [u8; 16] = [
        bytes[3],
        bytes[2],
        bytes[1],
        bytes[0],
        bytes[5],
        bytes[4],
        bytes[7],
        bytes[6],
        bytes[8],
        bytes[9],
        bytes[10],
        bytes[11],
        bytes[12],
        bytes[13],
        bytes[14],
        bytes[15],
    ];
    proof {
        assert(arr@ =~= uuid_reorder(Seq::new(16, |i: int| hex_byte(digits@, i))));
    }
    Ok(arr)
}

/// Hex digits stay below sixteen.
proof fn lemma_hex_vals_small(s: Seq<char>, v: Seq<u8>)
    requires
        hex_vals(s) == Some(v),
    ensures
        forall|a: int| 0 <= a < v.len() ==> v[a] < 16,
    decreases s.len(),
{
    if s.len() > 0 {
        if s.last() == '-' {
            lemma_hex_vals_small(s.drop_last(), v);
        } else {
            lemma_hex_vals_small(s.drop_last(), hex_vals(s.drop_last())->Some_0);
            assert(v =~= hex_vals(s.drop_last())->Some_0.push(hex_val(s.last())->Some_0));
        }
    }
}

/// A character that is neither dash nor hex digit spoils the whole string.
proof fn lemma_hex_vals_bad(s: Seq<char>, i: int)
    requires
        0 <= i < s.len(),
        s[i] != '-',
        hex_val(s[i]) is None,
    ensures
        hex_vals(s.subrange(0, s.len() as int)) is None,
        hex_vals(s) is None,
    decreases s.len(),
{
    assert(s.subrange(0, s.len() as int) =~= s);
    if i == s.len() - 1 {
    } else {
        lemma_hex_vals_bad(s.drop_last(), i);
    }
}

/// The bytes of the protective MBR from offset 446 on: one partition
/// record of type 0xEE covering the disk (its sector count clamped to
/// what 32 bits hold), three zeroed records, and the boot signature.
pub open spec fn spec_protective_mbr_tail(size: u64) -> Seq<u8> {
    let clamped = if size > 0xFFFF_FFFF {
        0xFFFF_FFFFu64
    } else {
        size
    };
    Seq::new(
        66,
        |i: int|
            if i == 2 {
                2u8
            } else if i == 4 {
                0xeeu8
            } else if i == 5 || i == 6 || i == 7 {
                0xffu8
            } else if i == 8 {
                1u8
            } else if i == 12 {
                (clamped % 256) as u8
            } else if i == 13 {
                ((clamped / 256) % 256) as u8
            } else if i == 14 {
                ((clamped / 65536) % 256) as u8
            } else if i == 15 {
                ((clamped / 16777216) % 256) as u8
            } else if i == 64 {
                0x55u8
            } else if i == 65 {
                0xaau8
            } else {
                0u8
            },
    )
}

/// Builds the 66 bytes that belong at offset 446 of a protective MBR for
/// a disk of `size` sectors beyond the first.
pub fn protective_mbr_tail(size: u64) -> (r: Vec<u8>)
    ensures
        r@ == spec_protective_mbr_tail(size),
        r@.len() == 66,
{
    let clamped: u64 = if size > 0xFFFF_FFFF {
        0xFFFF_FFFF
    } else {
        size
    };
    let mut out: Vec<u8> = Vec::new();
    out.push(0);
    out.push(0);
    out.push(2);
    out.push(0);
    out.push(0xee);
    out.push(0xff);
    out.push(0xff);
    out.push(0xff);
    out.push(1);
    out.push(0);
    out.push(0);
    out.push(0);
    out.push((clamped % 256) as u8);
    out.push(((clamped / 256) % 256) as u8);
    out.push(((clamped / 65536) % 256) as u8);
    out.push(((clamped / 16777216) % 256) as u8);
    proof {
        assert forall|j: int| 0 <= j < 16 implies out@[j] == spec_protective_mbr_tail(size)[j] by {}
    }
    let mut i: usize = 0;
    while i < 48
        invariant
            i <= 48,
            out@.len() == 16 + i,
            forall|j: int|
                0 <= j < out@.len() ==> out@[j] == spec_protective_mbr_tail(size)[j],
        decreases 48 - i,
    {
        out.push(0);
        i = i + 1;
    }
    out.push(0x55);
    out.push(0xaa);
    proof {
        assert(out@ =~= spec_protective_mbr_tail(size));
    }
    out
}

} // verus!
