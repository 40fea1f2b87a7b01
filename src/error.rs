use vstd::prelude::*;

verus! {

/// Why a block of the main data file was refused while following a chain.
#[derive(Clone, Copy, Debug, PartialEq, Eq, Structural)]
pub enum SectorFault {
    /// The block, or the part of it that the chain needs, lies past the end of the data.
    OutOfBounds,
    /// The header names another record.
    ArchiveMismatch,
    /// The header's chunk index is not the next one in the chain.
    ChunkMismatch,
    /// The header names another partition.
    IndexMismatch,
}

/// Every failure this library reports.
#[derive(Clone, Copy, Debug, PartialEq, Eq, Structural)]
pub enum CacheError {
    /// No catalog is loaded for this partition.
    IndexNotFound(u8),
    /// The partition's catalog has no entry for this record.
    ArchiveNotFound(u8, u32),
    /// No record of the partition carries this name hash.
    NameNotInArchive(i32, u8),
    /// The catalog of this partition is truncated or otherwise malformed.
    IndexParse(u8),
    /// Two catalogs were given for the same partition.
    DuplicateIndex(u8),
    /// The catalog of catalogs (partition 255) is missing.
    MissingReferenceTable,
    /// A block of a record's chain failed validation.
    Sector { sector: u32, index_id: u8, archive_id: u32, chunk: usize, fault: SectorFault },
    /// The record with this id could not be decompressed, or decompressed too short.
    Decode(u32),
    /// The reference table of this partition is malformed.
    ReferenceTable(u8),
    /// The manifest cannot be written in the signed layout.
    Encode,
}

} // verus!
