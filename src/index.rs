use vstd::prelude::*;

use crate::error::CacheError;
use crate::sector::{be24, read_be24};

verus! {

/// Size in bytes of one catalog record: 3-byte length, 3-byte starting block.
pub const INDEX_ENTRY_SIZE: usize = 6;

/// Where one record lies in the main data file.
#[derive(Clone, Copy, Debug, PartialEq, Eq, Structural)]
pub struct ArchiveRef {
    pub id: u32,
    pub index_id: u8,
    pub sector: u32,
    pub length: usize,
}

/// The catalog entry that record `id` of partition `index_id` has in catalog bytes `b`.
pub open spec fn spec_archive_ref(index_id: u8, b: Seq<u8>, id: int) -> ArchiveRef {
    ArchiveRef {
        id: id as u32,
        index_id,
        length: be24(b, 6 * id) as usize,
        sector: be24(b, 6 * id + 3) as u32,
    }
}

/// Whether catalog bytes `b` are whole records, few enough to be numbered by a `u32`.
pub open spec fn spec_catalog_ok(b: Seq<u8>) -> bool {
    b.len() % 6 == 0 && b.len() / 6 <= 0x1_0000_0000
}

/// The catalog of one partition: entry `i` describes record `i`.
#[derive(Debug)]
pub struct Index {
    pub id: u8,
    pub archive_refs: Vec<ArchiveRef>,
}

impl Index {
    pub open spec fn wf(&self) -> bool {
        &&& self.archive_refs@.len() <= 0x1_0000_0000
        &&& forall|i: int|
            0 <= i < self.archive_refs@.len() ==> (#[trigger] self.archive_refs@[i]).id == i
                && self.archive_refs@[i].index_id == self.id
    }

    /// Parses the catalog file of partition `id`; a file that ends inside a record is refused.
    pub fn from_buffer(id: u8, buffer: &[u8]) -> (r: Result<Index, CacheError>)
        ensures
            r is Err <==> !spec_catalog_ok(buffer@),
            r is Err ==> r->Err_0 == CacheError::IndexParse(id),
            r is Ok ==> {
                let idx = r->Ok_0;
                &&& idx.wf()
                &&& idx.id == id
                &&& idx.archive_refs@.len() == buffer@.len() / 6
                &&& forall|i: int|
                    0 <= i < idx.archive_refs@.len() ==> #[trigger] idx.archive_refs@[i]
                        == spec_archive_ref(id, buffer@, i)
            },
    {
        let len: usize = buffer.len();
        if len % INDEX_ENTRY_SIZE != 0 || (len / INDEX_ENTRY_SIZE) as u64 > 0x1_0000_0000u64 {
            return Err(CacheError::IndexParse(id));
        }
        let count: usize = len / INDEX_ENTRY_SIZE;
        let mut archive_refs: Vec<ArchiveRef> = Vec::new();
        let mut i: usize = 0;
        while i < count
            invariant
                len == buffer@.len(),
                count == buffer@.len() / 6,
                buffer@.len() % 6 == 0,
                count <= 0x1_0000_0000,
                i <= count,
                archive_refs@.len() == i,
                forall|j: int|
                    0 <= j < i ==> #[trigger] archive_refs@[j] == spec_archive_ref(id, buffer@, j),
            decreases count - i,
        {
            assert(i * 6 + 6 <= buffer@.len()) by (nonlinear_arith)
                requires
                    i < count,
                    count == buffer@.len() / 6,
                    buffer@.len() % 6 == 0,
            ;
            let at: usize = i * INDEX_ENTRY_SIZE;
            let length: u32 = read_be24(buffer, at);
            let sector: u32 = read_be24(buffer, at + 3);
            archive_refs.push(ArchiveRef { id: i as u32, index_id: id, sector, length: length as usize });
            i = i + 1;
        }
        Ok(Index { id, archive_refs })
    }

    /// The catalog entry of record `archive_id`, if the catalog has one.
    pub fn get(&self, archive_id: u32) -> (r: Option<&ArchiveRef>)
        requires
            self.wf(),
        ensures
            r is Some <==> (archive_id as int) < self.archive_refs@.len(),
            r is Some ==> *r->Some_0 == self.archive_refs@[archive_id as int],
    {
        if (archive_id as usize) < self.archive_refs.len() {
            Some(&self.archive_refs[archive_id as usize])
        } else {
            None
        }
    }
}

} // verus!
