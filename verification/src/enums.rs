//! Status enums of the file tree: the repair status of a node, the status a
//! branch reports, and the DAT / physical / container classifications.

use vstd::prelude::*;

verus! {

/// Repair status of one node of the tree (scanning states, then fix states).
#[derive(Debug, Clone, Copy, PartialEq, Eq, Structural, PartialOrd, Ord, Hash)]
pub enum RepStatus {
    Error,
    UnSet,
    UnScanned,
    DirCorrect,
    DirMissing,
    DirUnknown,
    DirInToSort,
    DirCorrupt,
    Missing,
    Correct,
    NotCollected,
    UnNeeded,
    Unknown,
    InToSort,
    Corrupt,
    Ignore,
    CanBeFixed,
    MoveToSort,
    Delete,
    NeededForFix,
    Rename,
    CorruptCanBeFixed,
    MoveToCorrupt,
    Deleted,
    MissingMIA,
    CorrectMIA,
    CanBeFixedMIA,
    IncompleteRemove,
    Incomplete,
    EndValue,
}

/// Aggregated status of a branch, as shown for directories.
#[derive(Debug, Clone, Copy, PartialEq, Eq, Structural, PartialOrd, Ord, Hash)]
pub enum ReportStatus {
    Unknown,
    Missing,
    Correct,
    NotCollected,
    UnNeeded,
    InToSort,
    Corrupt,
    Ignore,
}

impl ReportStatus {
    /// True only for `Correct`.
    pub fn has_correct(&self) -> (res: bool)
        ensures
            res == (*self == ReportStatus::Correct),
    {
        matches!(self, ReportStatus::Correct)
    }

    /// True for `Missing` and `Corrupt`; the flag is not consulted.
    pub fn has_missing(&self, _b: bool) -> (res: bool)
        ensures
            res == (*self == ReportStatus::Missing || *self == ReportStatus::Corrupt),
    {
        matches!(self, ReportStatus::Missing | ReportStatus::Corrupt)
    }

    /// True for `InToSort` and `UnNeeded`.
    pub fn has_fixes_needed(&self) -> (res: bool)
        ensures
            res == (*self == ReportStatus::InToSort || *self == ReportStatus::UnNeeded),
    {
        matches!(self, ReportStatus::InToSort | ReportStatus::UnNeeded)
    }

    /// True only for `InToSort`.
    pub fn has_mia(&self) -> (res: bool)
        ensures
            res == (*self == ReportStatus::InToSort),
    {
        matches!(self, ReportStatus::InToSort)
    }

    /// True for `NotCollected` and `UnNeeded`.
    pub fn has_all_merged(&self) -> (res: bool)
        ensures
            res == (*self == ReportStatus::NotCollected || *self == ReportStatus::UnNeeded),
    {
        matches!(self, ReportStatus::NotCollected | ReportStatus::UnNeeded)
    }

    /// True for `Unknown` and `Ignore`.
    pub fn has_unknown(&self) -> (res: bool)
        ensures
            res == (*self == ReportStatus::Unknown || *self == ReportStatus::Ignore),
    {
        matches!(self, ReportStatus::Unknown | ReportStatus::Ignore)
    }
}

/// Categorisation of a directory inside the ToSort branch, as a set of bits:
/// 1 = primary ToSort root, 2 = holds cache files, 4 = holds files only.
#[derive(Debug, Clone, Copy, PartialEq, Eq, Structural, PartialOrd, Ord, Hash)]
pub struct ToSortDirType {
    pub bits: u8,
}

impl ToSortDirType {
    pub fn none() -> (r: Self)
        ensures
            r.bits == 0,
    {
        ToSortDirType { bits: 0 }
    }

    pub fn to_sort_primary() -> (r: Self)
        ensures
            r.bits == 1,
    {
        ToSortDirType { bits: 1 }
    }

    pub fn to_sort_cache() -> (r: Self)
        ensures
            r.bits == 2,
    {
        ToSortDirType { bits: 2 }
    }

    pub fn to_sort_file_only() -> (r: Self)
        ensures
            r.bits == 4,
    {
        ToSortDirType { bits: 4 }
    }

    /// True when every bit of `other` is set in `self`.
    pub fn contains(&self, other: ToSortDirType) -> (res: bool)
        ensures
            res == (self.bits & other.bits == other.bits),
    {
        self.bits & other.bits == other.bits
    }

    /// Sets the bits of `other`.
    pub fn insert(&mut self, other: ToSortDirType)
        ensures
            final(self).bits == old(self).bits | other.bits,
    {
        self.bits = self.bits | other.bits;
    }
}

/// Check state of a row of the tree view.
#[derive(Debug, Clone, Copy, PartialEq, Eq, Structural, Hash)]
pub enum TreeSelect {
    UnSelected,
    Selected,
    Locked,
}

/// How a node stands with respect to the DATs.
#[derive(Debug, Clone, Copy, PartialEq, Eq, Structural, PartialOrd, Ord, Hash)]
pub enum DatStatus {
    InDatCollect,
    InDatMerged,
    InDatNoDump,
    NotInDat,
    InToSort,
    InDatMIA,
}

/// Whether the physical file is present.
#[derive(Debug, Clone, Copy, PartialEq, Eq, Structural, PartialOrd, Ord, Hash)]
pub enum GotStatus {
    NotGot,
    Got,
    Corrupt,
    FileLocked,
}

/// Kind of a node: directory, archive, or file (loose or inside an archive).
#[derive(Debug, Clone, Copy, PartialEq, Eq, Structural, PartialOrd, Ord, Hash)]
pub enum FileType {
    UnSet,
    Dir,
    Zip,
    SevenZip,
    File,
    FileZip,
    FileSevenZip,
    FileOnly,
}

/// Internal layout standard of an archive.
#[derive(Debug, Clone, Copy, PartialEq, Eq, Structural, PartialOrd, Ord, Hash)]
pub enum ZipStructure {
    NoStructure,
    ZipTrrnt,
    ZipTDC,
    SevenZipTrrnt,
    ZipZSTD,
    SevenZipSLZMA,
    SevenZipNLZMA,
    SevenZipSZSTD,
    SevenZipNZSTD,
}

/// Stored code of each archive structure.
pub open spec fn zip_structure_code_spec(z: ZipStructure) -> u8 {
    match z {
        ZipStructure::NoStructure => 0,
        ZipStructure::ZipTrrnt => 1,
        ZipStructure::ZipTDC => 2,
        ZipStructure::SevenZipTrrnt => 4,
        ZipStructure::ZipZSTD => 5,
        ZipStructure::SevenZipSLZMA => 8,
        ZipStructure::SevenZipNLZMA => 9,
        ZipStructure::SevenZipSZSTD => 10,
        ZipStructure::SevenZipNZSTD => 11,
    }
}

/// Stored code of an archive structure.
pub fn zip_structure_code(z: ZipStructure) -> (res: u8)
    ensures
        res == zip_structure_code_spec(z),
{
    match z {
        ZipStructure::NoStructure => 0,
        ZipStructure::ZipTrrnt => 1,
        ZipStructure::ZipTDC => 2,
        ZipStructure::SevenZipTrrnt => 4,
        ZipStructure::ZipZSTD => 5,
        ZipStructure::SevenZipSLZMA => 8,
        ZipStructure::SevenZipNLZMA => 9,
        ZipStructure::SevenZipSZSTD => 10,
        ZipStructure::SevenZipNZSTD => 11,
    }
}

} // verus!
