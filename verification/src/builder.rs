//! Builder-style descriptions of partitions to create.

use vstd::prelude::*;
use crate::fs::FileSystem;
use crate::sector::Sector;

verus! {

/// A partition under construction: where it starts and ends, and what
/// kind it will be.
pub struct PartitionBuilder {
    pub start: Sector,
    pub end: Sector,
    pub kind: Option<PartitionVariant>,
}

impl PartitionBuilder {
    pub fn new(start: Sector, end: Sector) -> (r: PartitionBuilder)
        ensures
            r.start == start,
            r.end == end,
            r.kind is None,
    {
        PartitionBuilder { start, end, kind: None }
    }

    /// Specifies which kind of partition to create.
    pub fn variant(self, variant: PartitionVariant) -> (r: PartitionBuilder)
        ensures
            r.start == self.start,
            r.end == self.end,
            r.kind == Some(variant),
    {
        PartitionBuilder { kind: Some(variant), ..self }
    }
}

/// The kind of partition a builder describes.
pub enum PartitionVariant {
    /// A plain file system, optionally labelled.
    FileSystem { label: Option<String>, file_system: FileSystem },
}

/// Builds the plain file-system variant.
pub struct FileSystemBuilder {
    pub file_system: FileSystem,
    pub label: Option<String>,
}

impl FileSystemBuilder {
    pub fn new(file_system: FileSystem) -> (r: FileSystemBuilder)
        ensures
            r.file_system == file_system,
            r.label is None,
    {
        FileSystemBuilder { file_system, label: None }
    }

    /// Sets the label the partition will carry.
    pub fn label(self, label: String) -> (r: FileSystemBuilder)
        ensures
            r.file_system == self.file_system,
            r.label == Some(label),
    {
        FileSystemBuilder { label: Some(label), ..self }
    }

    /// The variant this builder describes.
    pub fn build(self) -> (r: PartitionVariant)
        ensures
            r matches PartitionVariant::FileSystem { label, file_system } && label == self.label
                && file_system == self.file_system,
    {
        PartitionVariant::FileSystem { label: self.label, file_system: self.file_system }
    }
}

} // verus!
