use vstd::prelude::*;

use crate::error::SectorFault;

verus! {

/// Size in bytes of one physical block of the main data file.
pub const SECTOR_SIZE: usize = 548;

/// Header size of a block whose record id fits in 16 bits.
pub const NORMAL_HEADER: usize = 8;

/// Header size of a block whose record id needs 32 bits.
pub const EXPANDED_HEADER: usize = 10;

/// Reads a 16-bit big-endian integer at `i`.
pub open spec fn be16(s: Seq<u8>, i: int) -> nat {
    (s[i] as nat) * 256 + (s[i + 1] as nat)
}

/// Reads a 24-bit big-endian integer at `i`.
pub open spec fn be24(s: Seq<u8>, i: int) -> nat {
    (s[i] as nat) * 65536 + (s[i + 1] as nat) * 256 + (s[i + 2] as nat)
}

/// Reads a 32-bit big-endian integer at `i`.
pub open spec fn be32(s: Seq<u8>, i: int) -> nat {
    (s[i] as nat) * 16777216 + (s[i + 1] as nat) * 65536 + (s[i + 2] as nat) * 256 + (s[i + 3] as nat)
}

pub fn read_be16(s: &[u8], i: usize) -> (r: u16)
    requires
        i + 2 <= s@.len(),
    ensures
        r as nat == be16(s@, i as int),
{
    (s[i] as u16) * 256 + (s[i + 1] as u16)
}

pub fn read_be24(s: &[u8], i: usize) -> (r: u32)
    requires
        i + 3 <= s@.len(),
    ensures
        r as nat == be24(s@, i as int),
{
    (s[i] as u32) * 65536 + (s[i + 1] as u32) * 256 + (s[i + 2] as u32)
}

pub fn read_be32(s: &[u8], i: usize) -> (r: u32)
    requires
        i + 4 <= s@.len(),
    ensures
        r as nat == be32(s@, i as int),
{
    (s[i] as u32) * 16777216 + (s[i + 1] as u32) * 65536 + (s[i + 2] as u32) * 256 + (s[i + 3] as u32)
}

/// Which of the two header layouts a record's blocks carry.
#[derive(Clone, Copy, Debug, PartialEq, Eq, Structural)]
pub enum SectorHeaderSize {
    /// 2-byte record id, 2-byte chunk, 3-byte next block, 1-byte partition.
    Normal,
    /// 4-byte record id, 2-byte chunk, 3-byte next block, 1-byte partition.
    Expanded,
}

impl SectorHeaderSize {
    pub open spec fn spec_for_archive(archive_id: u32) -> SectorHeaderSize {
        if archive_id > 0xFFFF {
            SectorHeaderSize::Expanded
        } else {
            SectorHeaderSize::Normal
        }
    }

    pub open spec fn spec_header_len(self) -> usize {
        match self {
            SectorHeaderSize::Normal => NORMAL_HEADER,
            SectorHeaderSize::Expanded => EXPANDED_HEADER,
        }
    }

    pub open spec fn spec_data_len(self) -> usize {
        (SECTOR_SIZE - self.spec_header_len()) as usize
    }

    /// The layout that blocks of the record `archive_id` use.
    pub fn for_archive(archive_id: u32) -> (r: SectorHeaderSize)
        ensures
            r == Self::spec_for_archive(archive_id),
    {
        if archive_id > 0xFFFF {
            SectorHeaderSize::Expanded
        } else {
            SectorHeaderSize::Normal
        }
    }

    pub fn header_len(&self) -> (r: usize)
        ensures
            r == self.spec_header_len(),
    {
        match self {
            SectorHeaderSize::Normal => NORMAL_HEADER,
            SectorHeaderSize::Expanded => EXPANDED_HEADER,
        }
    }

    pub fn data_len(&self) -> (r: usize)
        ensures
            r == self.spec_data_len(),
    {
        SECTOR_SIZE - self.header_len()
    }
}

/// The header at the front of each block.
#[derive(Clone, Copy, Debug, PartialEq, Eq, Structural)]
pub struct SectorHeader {
    pub archive_id: u32,
    pub chunk: u16,
    pub next: u32,
    pub index_id: u8,
}

/// The header that the bytes of `s` starting at `at` hold in layout `size`.
pub open spec fn spec_header(s: Seq<u8>, at: int, size: SectorHeaderSize) -> SectorHeader {
    match size {
        SectorHeaderSize::Normal => SectorHeader {
            archive_id: be16(s, at) as u32,
            chunk: be16(s, at + 2) as u16,
            next: be24(s, at + 4) as u32,
            index_id: s[at + 7],
        },
        SectorHeaderSize::Expanded => SectorHeader {
            archive_id: be32(s, at) as u32,
            chunk: be16(s, at + 4) as u16,
            next: be24(s, at + 6) as u32,
            index_id: s[at + 9],
        },
    }
}

impl SectorHeader {
    /// Which check, if any, the header fails against the expected record, chunk and partition.
    pub open spec fn spec_validate(self, archive_id: u32, chunk: usize, index_id: u8) -> Option<SectorFault> {
        if self.archive_id != archive_id {
            Some(SectorFault::ArchiveMismatch)
        } else if self.chunk as usize != chunk {
            Some(SectorFault::ChunkMismatch)
        } else if self.index_id != index_id {
            Some(SectorFault::IndexMismatch)
        } else {
            None
        }
    }

    /// Parses the header at offset `at` of `s`.
    pub fn parse(s: &[u8], at: usize, size: SectorHeaderSize) -> (r: SectorHeader)
        requires
            at + size.spec_header_len() <= s@.len(),
        ensures
            r == spec_header(s@, at as int, size),
    {
        let len: usize = s.len();
        proof {
            // Every offset computed below stays under the slice length, hence fits a usize.
            assert(at + size.spec_header_len() <= len);
        }
        match size {
            SectorHeaderSize::Normal => SectorHeader {
                archive_id: read_be16(s, at) as u32,
                chunk: read_be16(s, at + 2),
                next: read_be24(s, at + 4),
                index_id: s[at + 7],
            },
            SectorHeaderSize::Expanded => SectorHeader {
                archive_id: read_be32(s, at),
                chunk: read_be16(s, at + 4),
                next: read_be24(s, at + 6),
                index_id: s[at + 9],
            },
        }
    }

    /// Checks that the header belongs to record `archive_id` of partition `index_id`
    /// and carries chunk index `chunk`.
    pub fn validate(&self, archive_id: u32, chunk: usize, index_id: u8) -> (r: Result<(), SectorFault>)
        ensures
            r is Ok <==> self.spec_validate(archive_id, chunk, index_id) is None,
            r is Err ==> Some(r->Err_0) == self.spec_validate(archive_id, chunk, index_id),
    {
        if self.archive_id != archive_id {
            Err(SectorFault::ArchiveMismatch)
        } else if self.chunk as usize != chunk {
            Err(SectorFault::ChunkMismatch)
        } else if self.index_id != index_id {
            Err(SectorFault::IndexMismatch)
        } else {
            Ok(())
        }
    }
}

} // verus!
