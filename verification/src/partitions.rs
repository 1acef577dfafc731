//! Partition records and partition-table kinds.

use vstd::prelude::*;
use crate::fs::FileSystem;
use crate::common::str_eq;

verus! {

/// A region of a parent device, or a file system covering the whole of one.
#[derive(Debug, Clone)]
pub struct Partition {
    pub offset: u64,
    pub number: u32,
    pub filesystem: Option<FileSystem>,
    pub partuuid: Option<String>,
    pub partlabel: Option<String>,
    pub mbr_variant: PartitionType,
    pub uuid: Option<String>,
}

impl Partition {
    /// A bare partition record at `offset`: no file system, no names yet.
    pub fn at_offset(offset: u64) -> (r: Partition)
        ensures
            r.offset == offset,
            r.number == 0,
            r.filesystem is None,
            r.partuuid is None,
            r.partlabel is None,
            r.uuid is None,
            r.mbr_variant == PartitionType::Primary,
    {
        Partition {
            offset,
            number: 0,
            filesystem: None,
            partuuid: None,
            partlabel: None,
            mbr_variant: PartitionType::Primary,
            uuid: None,
        }
    }
}

impl Partition {
    /// A copy of the record, field by field.
    pub fn clone_record(&self) -> (r: Partition)
        ensures
            r == *self,
    {
        Partition {
            offset: self.offset,
            number: self.number,
            filesystem: self.filesystem,
            partuuid: match &self.partuuid {
                Some(s) => Some(s.clone()),
                None => None,
            },
            partlabel: match &self.partlabel {
                Some(s) => Some(s.clone()),
                None => None,
            },
            mbr_variant: self.mbr_variant,
            uuid: match &self.uuid {
                Some(s) => Some(s.clone()),
                None => None,
            },
        }
    }
}

/// Specifies whether the partition table on a disk is MBR or GPT.
#[derive(Debug, PartialEq, Eq, Clone, Copy, Hash, Structural)]
pub enum PartitionTable {
    Mbr,
    Guid,
}

/// Which table kind a probe token names, if any.
pub open spec fn spec_parse_table(s: Seq<char>) -> Option<PartitionTable> {
    if s == "dos"@ || s == "mbr"@ {
        Some(PartitionTable::Mbr)
    } else if s == "guid"@ || s == "gpt"@ {
        Some(PartitionTable::Guid)
    } else {
        None
    }
}

impl PartitionTable {
    /// Parses a probe token into a table kind.
    pub fn from_str(input: &str) -> (r: Result<PartitionTable, ()>)
        ensures
            match r {
                Ok(t) => spec_parse_table(input@) == Some(t),
                Err(()) => spec_parse_table(input@) is None,
            },
    {
        if str_eq(input, "dos") || str_eq(input, "mbr") {
            Ok(PartitionTable::Mbr)
        } else if str_eq(input, "guid") || str_eq(input, "gpt") {
            Ok(PartitionTable::Guid)
        } else {
            Err(())
        }
    }

    /// The canonical token of this table kind.
    pub fn as_str(&self) -> (r: &'static str)
        ensures
            *self == PartitionTable::Mbr ==> r@ == "mbr"@,
            *self == PartitionTable::Guid ==> r@ == "guid"@,
    {
        match self {
            PartitionTable::Mbr => "mbr",
            PartitionTable::Guid => "guid",
        }
    }
}

/// Defines whether the partition is a primary, logical, or extended
/// partition. This only applies to MBR partition tables.
#[derive(Debug, PartialEq, Eq, Clone, Copy, Hash, Structural)]
pub enum PartitionType {
    Primary,
    Logical,
    Extended,
}

impl Default for PartitionType {
    fn default() -> (r: Self)
        ensures
            r == PartitionType::Primary,
    {
        PartitionType::Primary
    }
}

} // verus!
