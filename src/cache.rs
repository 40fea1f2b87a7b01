use vstd::prelude::*;

use crate::archive::{djd2, parse_descriptor, spec_descriptor, spec_djd2, Archive};
use crate::checksum::{is_blank, parse_version, spec_version, Checksum, Entry};
use crate::error::CacheError;
use crate::index::{spec_archive_ref, spec_catalog_ok, ArchiveRef, Index};
use crate::primitives::{crc32_of, whirlpool_of};
use crate::reader::{lemma_chain_len, read_internal, spec_read, spec_written};
use vstd::set_lib::{lemma_int_range, lemma_len_subset, set_int_range};

verus! {

/// The partition whose catalog-of-catalogs record never gets a checksum: its entry stays zero.
pub const EXCLUDED_INDEX: u32 = 47;

/// The partition that holds the compression dictionary for chat messages.
pub const HUFFMAN_INDEX: u8 = 10;

/// The name of the compression dictionary record: "huffman".
pub open spec fn huffman_name() -> Seq<u8> {
    seq![104u8, 117, 102, 102, 109, 97, 110]
}

/// Whether `decode` may hand back `d` for a buffer holding `raw`.
pub open spec fn decodes_to<F: Fn(&[u8]) -> Option<Vec<u8>>>(decode: F, raw: Seq<u8>, d: Option<Vec<u8>>) -> bool {
    exists|b: &[u8]| b@ == raw && #[trigger] decode.ensures((b,), d)
}

/// The first record of `archives` whose name hash is `hash`.
pub open spec fn first_named(archives: Seq<Archive>, hash: i32) -> Option<Archive>
    decreases archives.len(),
{
    if archives.len() == 0 {
        None
    } else if archives[0].name_hash == hash {
        Some(archives[0])
    } else {
        first_named(archives.drop_first(), hash)
    }
}

/// Finds the first record of `archives` whose name hash is `hash`.
pub fn find_first_named(archives: &[Archive], hash: i32) -> (r: Option<Archive>)
    ensures
        r == first_named(archives@, hash),
{
    let mut i: usize = 0;
    assert(archives@.subrange(0, archives@.len() as int) =~= archives@);
    while i < archives.len()
        invariant
            i <= archives@.len(),
            first_named(archives@, hash) == first_named(archives@.subrange(i as int, archives@.len() as int), hash),
        decreases archives@.len() - i,
    {
        proof {
            let rest = archives@.subrange(i as int, archives@.len() as int);
            assert(rest.drop_first() =~= archives@.subrange(i + 1, archives@.len() as int));
        }
        if archives[i].name_hash == hash {
            return Some(archives[i]);
        }
        i = i + 1;
    }
    None
}

/// At most 256 catalogs carry pairwise different partition ids.
proof fn lemma_distinct_ids(indices: Seq<Index>)
    requires
        forall|i: int, j: int| 0 <= i < j < indices.len() ==> (#[trigger] indices[i]).id != (#[trigger] indices[j]).id,
    ensures
        indices.len() <= 256,
{
    let ids = indices.map_values(|x: Index| x.id as int);
    assert forall|i: int, j: int| 0 <= i < ids.len() && 0 <= j < ids.len() && i != j implies ids[i] != ids[j] by {
        if i < j {
            assert(indices[i].id != indices[j].id);
        } else {
            assert(indices[j].id != indices[i].id);
        }
    }
    assert(ids.no_duplicates());
    ids.unique_seq_to_set();
    lemma_int_range(0, 256);
    assert forall|x: int| ids.to_set().contains(x) implies set_int_range(0, 256).contains(x) by {
        let k = choose|k: int| 0 <= k < ids.len() && ids[k] == x;
        assert(ids[k] == indices[k].id as int);
    }
    lemma_len_subset(ids.to_set(), set_int_range(0, 256));
}

/// The partition whose records are the catalogs of all other partitions.
pub const REFERENCE_TABLE: u8 = 255;

/// Read access to a store: the bytes of its main data file and the catalog of each
/// partition present.
pub struct Cache<'a> {
    data: &'a [u8],
    indices: Vec<Index>,
}

impl<'a> Cache<'a> {
    pub closed spec fn data(&self) -> Seq<u8> {
        self.data@
    }

    pub closed spec fn indices(&self) -> Seq<Index> {
        self.indices@
    }

    /// Every catalog is well formed, and no two belong to the same partition.
    pub open spec fn wf(&self) -> bool {
        &&& self.indices().len() <= 256
        &&& forall|i: int| 0 <= i < self.indices().len() ==> (#[trigger] self.indices()[i]).wf()
        &&& forall|i: int, j: int|
            0 <= i < j < self.indices().len() ==> (#[trigger] self.indices()[i]).id != (
            #[trigger] self.indices()[j]).id
    }

    pub open spec fn has_index(&self, index_id: u8) -> bool {
        exists|i: int| 0 <= i < self.indices().len() && (#[trigger] self.indices()[i]).id == index_id
    }

    /// The catalog of partition `index_id` (meaningful where `has_index` holds).
    pub open spec fn index(&self, index_id: u8) -> Index {
        self.indices()[choose|i: int| 0 <= i < self.indices().len() && (#[trigger] self.indices()[i]).id == index_id]
    }

    /// The catalog entry of a record, or why there is none.
    pub open spec fn spec_archive(&self, index_id: u8, archive_id: u32) -> Result<ArchiveRef, CacheError> {
        if !self.has_index(index_id) {
            Err(CacheError::IndexNotFound(index_id))
        } else if archive_id as int >= self.index(index_id).archive_refs@.len() {
            Err(CacheError::ArchiveNotFound(index_id, archive_id))
        } else {
            Ok(self.index(index_id).archive_refs@[archive_id as int])
        }
    }

    /// The bytes of a record, or why they cannot be had.
    pub open spec fn spec_read(&self, index_id: u8, archive_id: u32) -> Result<Seq<u8>, CacheError> {
        match self.spec_archive(index_id, archive_id) {
            Ok(a) => spec_read(self.data(), a),
            Err(e) => Err(e),
        }
    }

    /// The bytes a read of the record hands out, on success or before its failure: none where
    /// the partition or the record is missing.
    pub open spec fn spec_written(&self, index_id: u8, archive_id: u32) -> Seq<u8> {
        match self.spec_archive(index_id, archive_id) {
            Ok(a) => spec_written(self.data(), a),
            Err(_) => Seq::empty(),
        }
    }

    /// Builds a cache over the main data file `data` and the catalog files in `catalogs`,
    /// each given with its partition id. The catalog of catalogs (partition 255) must be
    /// among them; a truncated catalog or a partition given twice is refused.
    pub fn new(data: &'a [u8], catalogs: Vec<(u8, Vec<u8>)>) -> (r: Result<Cache<'a>, CacheError>)
        ensures
            r is Ok <==> {
                &&& forall|i: int| 0 <= i < catalogs@.len() ==> spec_catalog_ok((#[trigger] catalogs@[i]).1@)
                &&& forall|i: int, j: int|
                    0 <= i < j < catalogs@.len() ==> (#[trigger] catalogs@[i]).0 != (#[trigger] catalogs@[j]).0
                &&& exists|i: int| 0 <= i < catalogs@.len() && (#[trigger] catalogs@[i]).0 == REFERENCE_TABLE
            },
            r is Ok ==> {
                let c = r->Ok_0;
                &&& c.wf()
                &&& c.data() == data@
                &&& c.indices().len() == catalogs@.len()
                &&& forall|i: int|
                    0 <= i < catalogs@.len() ==> {
                        let idx = #[trigger] c.indices()[i];
                        &&& idx.id == catalogs@[i].0
                        &&& idx.archive_refs@.len() == catalogs@[i].1@.len() / 6
                        &&& forall|k: int|
                            0 <= k < idx.archive_refs@.len() ==> #[trigger] idx.archive_refs@[k]
                                == spec_archive_ref(idx.id, catalogs@[i].1@, k)
                    }
            },
            r matches Err(CacheError::IndexParse(id)) ==> exists|i: int|
                0 <= i < catalogs@.len() && (#[trigger] catalogs@[i]).0 == id && !spec_catalog_ok(catalogs@[i].1@),
            r matches Err(CacheError::DuplicateIndex(id)) ==> exists|i: int, j: int|
                0 <= i < j < catalogs@.len() && (#[trigger] catalogs@[i]).0 == id && (#[trigger] catalogs@[j]).0 == id,
            r is Err ==> r matches Err(CacheError::IndexParse(_)) || r matches Err(CacheError::DuplicateIndex(_))
                || r == Err::<Cache<'a>, CacheError>(CacheError::MissingReferenceTable),
            r == Err::<Cache<'a>, CacheError>(CacheError::MissingReferenceTable) ==> forall|i: int|
                0 <= i < catalogs@.len() ==> (#[trigger] catalogs@[i]).0 != REFERENCE_TABLE,
    {
        let mut indices: Vec<Index> = Vec::new();
        let mut has_reference: bool = false;
        let mut i: usize = 0;
        while i < catalogs.len()
            invariant
                i <= catalogs@.len(),
                indices@.len() == i,
                has_reference <==> exists|k: int| 0 <= k < i && (#[trigger] catalogs@[k]).0 == REFERENCE_TABLE,
                forall|k: int| 0 <= k < i ==> spec_catalog_ok((#[trigger] catalogs@[k]).1@),
                forall|k: int, j: int|
                    0 <= k < j < i ==> (#[trigger] catalogs@[k]).0 != (#[trigger] catalogs@[j]).0,
                forall|k: int|
                    0 <= k < i ==> {
                        let idx = #[trigger] indices@[k];
                        &&& idx.wf()
                        &&& idx.id == catalogs@[k].0
                        &&& idx.archive_refs@.len() == catalogs@[k].1@.len() / 6
                        &&& forall|m: int|
                            0 <= m < idx.archive_refs@.len() ==> #[trigger] idx.archive_refs@[m]
                                == spec_archive_ref(idx.id, catalogs@[k].1@, m)
                    },
            decreases catalogs@.len() - i,
        {
            let id: u8 = catalogs[i].0;
            let mut j: usize = 0;
            while j < i
                invariant
                    j <= i,
                    i < catalogs@.len(),
                    id == catalogs@[i as int].0,
                    indices@.len() == i,
                    forall|k: int| 0 <= k < i ==> (#[trigger] indices@[k]).id == catalogs@[k].0,
                    forall|k: int| 0 <= k < j ==> (#[trigger] catalogs@[k]).0 != id,
                decreases i - j,
            {
                if indices[j].id == id {
                    return Err(CacheError::DuplicateIndex(id));
                }
                j = j + 1;
            }
            let index: Index = match Index::from_buffer(id, catalogs[i].1.as_slice()) {
                Ok(index) => index,
                Err(e) => {
                    return Err(e);
                },
            };
            if id == REFERENCE_TABLE {
                has_reference = true;
            }
            indices.push(index);
            i = i + 1;
        }
        if !has_reference {
            return Err(CacheError::MissingReferenceTable);
        }
        proof {
            assert forall|k: int, j: int| 0 <= k < j < indices@.len() implies (#[trigger] indices@[k]).id != (
            #[trigger] indices@[j]).id by {
                assert(catalogs@[k].0 != catalogs@[j].0);
            }
            lemma_distinct_ids(indices@);
        }
        Ok(Cache { data, indices })
    }

    /// The catalog of partition `index_id`.
    fn find_index(&self, index_id: u8) -> (r: Option<&Index>)
        requires
            self.wf(),
        ensures
            r is Some <==> self.has_index(index_id),
            r is Some ==> *r->Some_0 == self.index(index_id),
    {
        let mut i: usize = 0;
        while i < self.indices.len()
            invariant
                self.wf(),
                i <= self.indices@.len(),
                forall|k: int| 0 <= k < i ==> (#[trigger] self.indices@[k]).id != index_id,
            decreases self.indices@.len() - i,
        {
            if self.indices[i].id == index_id {
                proof {
                    let w = choose|k: int| 0 <= k < self.indices().len() && (#[trigger] self.indices()[k]).id == index_id;
                    assert(self.indices()[i as int].id == index_id);
                    if w != i as int {
                        if w < i as int {
                            assert(self.indices()[w].id != self.indices()[i as int].id);
                        } else {
                            assert(self.indices()[i as int].id != self.indices()[w].id);
                        }
                    }
                }
                return Some(&self.indices[i]);
            }
            i = i + 1;
        }
        None
    }

    /// The catalog entry of record `archive_id` of partition `index_id`.
    pub fn archive_ref(&self, index_id: u8, archive_id: u32) -> (r: Result<&ArchiveRef, CacheError>)
        requires
            self.wf(),
        ensures
            match self.spec_archive(index_id, archive_id) {
                Ok(a) => r is Ok && *r->Ok_0 == a,
                Err(e) => r is Err && r->Err_0 == e,
            },
    {
        let index = match self.find_index(index_id) {
            Some(index) => index,
            None => {
                return Err(CacheError::IndexNotFound(index_id));
            },
        };
        match index.get(archive_id) {
            Some(a) => Ok(a),
            None => Err(CacheError::ArchiveNotFound(index_id, archive_id)),
        }
    }

    /// Reads record `archive_id` of partition `index_id` into a new buffer.
    pub fn read(&self, index_id: u8, archive_id: u32) -> (r: Result<Vec<u8>, CacheError>)
        requires
            self.wf(),
        ensures
            match self.spec_read(index_id, archive_id) {
                Ok(bytes) => r is Ok && r->Ok_0@ == bytes,
                Err(e) => r is Err && r->Err_0 == e,
            },
    {
        let archive = self.archive_ref(index_id, archive_id)?;
        let mut buffer: Vec<u8> = Vec::with_capacity(archive.length);
        read_internal(self.data, archive, &mut buffer)?;
        Ok(buffer)
    }

    /// Reads record `archive_id` of partition `index_id`, appending its bytes to `writer`.
    pub fn read_into_writer(&self, index_id: u8, archive_id: u32, writer: &mut Vec<u8>) -> (r: Result<
        (),
        CacheError,
    >)
        requires
            self.wf(),
        ensures
            match self.spec_read(index_id, archive_id) {
                Ok(bytes) => r is Ok && final(writer)@ == old(writer)@ + bytes,
                Err(e) => r is Err && r->Err_0 == e,
            },
            final(writer)@ == old(writer)@ + self.spec_written(index_id, archive_id),
    {
        let archive = match self.archive_ref(index_id, archive_id) {
            Ok(archive) => archive,
            Err(e) => {
                assert(writer@ =~= writer@ + Seq::<u8>::empty());
                return Err(e);
            },
        };
        read_internal(self.data, archive, writer)
    }

    /// Whether partition `index_id` gets a zero entry in the manifest: its catalog-of-catalogs
    /// record is absent, empty, or the excluded one.
    pub open spec fn spec_skipped(&self, index_id: u32) -> bool {
        match self.spec_read(REFERENCE_TABLE, index_id) {
            Ok(raw) => raw.len() == 0 || index_id == EXCLUDED_INDEX,
            Err(_) => true,
        }
    }

    /// Whether `e` is the manifest entry of the non-skipped partition whose catalog-of-catalogs
    /// record is `raw`, given a decoder `decode`.
    pub open spec fn spec_entry_of<F: Fn(&[u8]) -> Option<Vec<u8>>>(e: Entry, raw: Seq<u8>, decode: F) -> bool {
        &&& e.crc == crc32_of(raw)
        &&& e.hash@ == whirlpool_of(raw)
        &&& e.hash@.len() == 64
        &&& exists|b: &[u8], d: Option<Vec<u8>>|
            b@ == raw && #[trigger] decode.ensures((b,), d) && d is Some && spec_version(d->Some_0@) == Some(e.version)
    }

    /// Builds the validation manifest: for each partition index below `index_count`, in order,
    /// a zero entry where the partition is skipped, else the crc and digest of its still
    /// compressed catalog-of-catalogs record and the version read from that record as
    /// `decode` decompresses it. Fails with `Decode` at the first record that `decode`
    /// refuses or that decodes too short to hold its version.
    pub fn create_checksum<F: Fn(&[u8]) -> Option<Vec<u8>>>(&self, decode: F) -> (r: Result<Checksum, CacheError>)
        requires
            self.wf(),
            forall|b: &[u8]| decode.requires((b,)),
        ensures
            r is Ok ==> {
                let c = r->Ok_0;
                &&& c.spec_index_count() == self.indices().len()
                &&& c.spec_entries().len() == self.indices().len()
                &&& forall|i: int|
                    0 <= i < self.indices().len() ==> {
                        let e = #[trigger] c.spec_entries()[i];
                        if self.spec_skipped(i as u32) {
                            is_blank(e)
                        } else {
                            Self::spec_entry_of(e, self.spec_read(REFERENCE_TABLE, i as u32)->Ok_0, decode)
                        }
                    }
            },
            r is Err ==> r->Err_0 is Decode && r->Err_0->Decode_0 < self.indices().len() && !self.spec_skipped(
                r->Err_0->Decode_0,
            ),
            r is Err ==> exists|d: Option<Vec<u8>>|
                #[trigger] decodes_to(decode, self.spec_read(REFERENCE_TABLE, r->Err_0->Decode_0)->Ok_0, d) && (d is None
                    || spec_version(d->Some_0@) is None),
            (forall|b: &[u8], d: Option<Vec<u8>>|
                #[trigger] decode.ensures((b,), d) ==> d is Some && spec_version(d->Some_0@) is Some) ==> r is Ok,
    {
        let count: usize = self.indices.len();
        let mut checksum = Checksum::new(count);
        let mut index_id: u32 = 0;
        while (index_id as usize) < count
            invariant
                self.wf(),
                count == self.indices().len(),
                count <= 256,
                index_id <= count,
                forall|b: &[u8]| decode.requires((b,)),
                checksum.spec_index_count() == count,
                checksum.spec_entries().len() == index_id,
                forall|i: int|
                    0 <= i < index_id ==> {
                        let e = #[trigger] checksum.spec_entries()[i];
                        if self.spec_skipped(i as u32) {
                            is_blank(e)
                        } else {
                            Self::spec_entry_of(e, self.spec_read(REFERENCE_TABLE, i as u32)->Ok_0, decode)
                        }
                    },
            decreases count - index_id,
        {
            let ghost before = checksum.spec_entries();
            let entry: Entry = match self.read(REFERENCE_TABLE, index_id) {
                Ok(buffer) => {
                    if buffer.len() > 0 && index_id != EXCLUDED_INDEX {
                        let raw: &[u8] = buffer.as_slice();
                        let decoded: Option<Vec<u8>> = decode(raw);
                        match decoded {
                            Some(d) => match parse_version(d.as_slice()) {
                                Some(version) => {
                                    let entry = Entry::from_record(raw, version);
                                    assert(decode.ensures((raw,), Some(d)));
                                    entry
                                },
                                None => {
                                    assert(decode.ensures((raw,), Some(d)));
                                    assert(decodes_to(decode, raw@, Some(d)));
                                    return Err(CacheError::Decode(index_id));
                                },
                            },
                            None => {
                                assert(decode.ensures((raw,), None::<Vec<u8>>));
                                assert(decodes_to(decode, raw@, None::<Vec<u8>>));
                                return Err(CacheError::Decode(index_id));
                            },
                        }
                    } else {
                        Entry::default()
                    }
                },
                Err(_) => Entry::default(),
            };
            checksum.push(entry);
            proof {
                assert(checksum.spec_entries()[index_id as int] == entry);
                assert forall|i: int| 0 <= i < index_id implies #[trigger] checksum.spec_entries()[i] == before[i] by {}
            }
            index_id = index_id + 1;
        }
        Ok(checksum)
    }

    /// The record of partition `index_id` named `name` among the records `archives` that the
    /// partition's descriptor lists, or why there is none.
    pub open spec fn spec_find_named(&self, index_id: u8, archives: Seq<Archive>, name: Seq<u8>) -> Result<
        ArchiveRef,
        CacheError,
    > {
        if !self.has_index(index_id) {
            Err(CacheError::IndexNotFound(index_id))
        } else {
            match first_named(archives, spec_djd2(name)) {
                None => Err(CacheError::NameNotInArchive(spec_djd2(name), index_id)),
                Some(a) => self.spec_archive(index_id, a.id),
            }
        }
    }

    /// Looks up the record named `name` of partition `index_id`, given the records its
    /// descriptor lists.
    pub fn find_named(&self, index_id: u8, archives: &[Archive], name: &[u8]) -> (r: Result<ArchiveRef, CacheError>)
        requires
            self.wf(),
        ensures
            r == self.spec_find_named(index_id, archives@, name@),
    {
        if self.find_index(index_id).is_none() {
            return Err(CacheError::IndexNotFound(index_id));
        }
        let hash: i32 = djd2(name);
        match find_first_named(archives, hash) {
            None => Err(CacheError::NameNotInArchive(hash, index_id)),
            Some(a) => match self.archive_ref(index_id, a.id) {
                Ok(found) => Ok(*found),
                Err(e) => Err(e),
            },
        }
    }

    /// The outcome of looking up `name` in partition `index_id` once its descriptor has been
    /// decompressed to `d`: a refused or malformed descriptor gives `ReferenceTable`.
    pub open spec fn spec_by_name(&self, index_id: u8, name: Seq<u8>, d: Option<Vec<u8>>) -> Result<
        ArchiveRef,
        CacheError,
    > {
        match d {
            None => Err(CacheError::ReferenceTable(index_id)),
            Some(v) => match spec_descriptor(v@) {
                None => Err(CacheError::ReferenceTable(index_id)),
                Some(archives) => self.spec_find_named(index_id, archives, name),
            },
        }
    }

    /// Whether `r` is what a lookup of `name` in partition `index_id` gives with `decode`.
    pub open spec fn spec_lookup<F: Fn(&[u8]) -> Option<Vec<u8>>>(
        &self,
        index_id: u8,
        name: Seq<u8>,
        decode: F,
        r: Result<ArchiveRef, CacheError>,
    ) -> bool {
        if !self.has_index(index_id) {
            r == Err::<ArchiveRef, CacheError>(CacheError::IndexNotFound(index_id))
        } else {
            match self.spec_read(REFERENCE_TABLE, index_id as u32) {
                Err(e) => r == Err::<ArchiveRef, CacheError>(e),
                Ok(raw) => exists|d: Option<Vec<u8>>|
                    #[trigger] decodes_to(decode, raw, d) && r == self.spec_by_name(index_id, name, d),
            }
        }
    }

    /// Looks up the record named `name` of partition `index_id`: reads the partition's
    /// descriptor from the catalog of catalogs, decompresses it with `decode`, and searches
    /// the records it lists. A descriptor that `decode` refuses or that is malformed gives
    /// `ReferenceTable`.
    pub fn archive_by_name<F: Fn(&[u8]) -> Option<Vec<u8>>>(&self, index_id: u8, name: &[u8], decode: &F) -> (r:
        Result<ArchiveRef, CacheError>)
        requires
            self.wf(),
            forall|b: &[u8]| decode.requires((b,)),
        ensures
            self.spec_lookup(index_id, name@, *decode, r),
    {
        if self.find_index(index_id).is_none() {
            return Err(CacheError::IndexNotFound(index_id));
        }
        let buffer: Vec<u8> = self.read(REFERENCE_TABLE, index_id as u32)?;
        let raw: &[u8] = buffer.as_slice();
        let decoded: Option<Vec<u8>> = decode(raw);
        assert(decode.ensures((raw,), decoded));
        assert(decodes_to(*decode, raw@, decoded));
        let d: Vec<u8> = match decoded {
            Some(d) => d,
            None => {
                return Err(CacheError::ReferenceTable(index_id));
            },
        };
        let archives: Vec<Archive> = match parse_descriptor(d.as_slice()) {
            Some(archives) => archives,
            None => {
                return Err(CacheError::ReferenceTable(index_id));
            },
        };
        self.find_named(index_id, archives.as_slice(), name)
    }

    /// Whether `r` is what reading the dictionary gives once the lookup gave `found`.
    pub open spec fn spec_table_from<F: Fn(&[u8]) -> Option<Vec<u8>>>(
        &self,
        found: Result<ArchiveRef, CacheError>,
        decode: F,
        r: Result<Vec<u8>, CacheError>,
    ) -> bool {
        match found {
            Err(e) => r == Err::<Vec<u8>, CacheError>(e),
            Ok(a) => match self.spec_read(HUFFMAN_INDEX, a.id) {
                Err(e) => r == Err::<Vec<u8>, CacheError>(e),
                Ok(bytes) => exists|t: Option<Vec<u8>>|
                    #[trigger] decodes_to(decode, bytes, t) && r == match t {
                        Some(v) => Ok::<Vec<u8>, CacheError>(v),
                        None => Err(CacheError::Decode(a.id)),
                    },
            },
        }
    }

    /// The compression dictionary for chat messages: the record named "huffman" of
    /// partition 10, decompressed with `decode`. Fails as `archive_by_name` does, as `read`
    /// does on the record found, or with `Decode` (naming the record) where `decode` refuses it.
    pub fn huffman_table<F: Fn(&[u8]) -> Option<Vec<u8>>>(&self, decode: F) -> (r: Result<Vec<u8>, CacheError>)
        requires
            self.wf(),
            forall|b: &[u8]| decode.requires((b,)),
        ensures
            exists|found: Result<ArchiveRef, CacheError>|
                #[trigger] self.spec_lookup(HUFFMAN_INDEX, huffman_name(), decode, found) && self.spec_table_from(
                    found,
                    decode,
                    r,
                ),
    {
        let name: [u8; 7] = [104, 117, 102, 102, 109, 97, 110];
        assert(name@ == huffman_name());
        let found: Result<ArchiveRef, CacheError> = self.archive_by_name(HUFFMAN_INDEX, name.as_slice(), &decode);
        assert(self.spec_lookup(HUFFMAN_INDEX, huffman_name(), decode, found));
        let archive: ArchiveRef = match found {
            Ok(archive) => archive,
            Err(e) => {
                return Err(e);
            },
        };
        let buffer: Vec<u8> = match self.read(HUFFMAN_INDEX, archive.id) {
            Ok(buffer) => buffer,
            Err(e) => {
                return Err(e);
            },
        };
        let raw: &[u8] = buffer.as_slice();
        let decoded: Option<Vec<u8>> = decode(raw);
        assert(decode.ensures((raw,), decoded));
        assert(decodes_to(decode, raw@, decoded));
        match decoded {
            Some(table) => Ok(table),
            None => Err(CacheError::Decode(archive.id)),
        }
    }

    /// The number of partitions whose catalog is loaded, the catalog of catalogs included.
    pub fn index_count(&self) -> (r: usize)
        ensures
            r == self.indices().len(),
    {
        self.indices.len()
    }
}

/// A record that reads successfully yields exactly the length its catalog entry declares.
pub proof fn lemma_read_len(c: Cache, index_id: u8, archive_id: u32)
    ensures
        c.spec_read(index_id, archive_id) is Ok ==> c.spec_read(index_id, archive_id)->Ok_0.len()
            == c.spec_archive(index_id, archive_id)->Ok_0.length,
{
    if let Ok(a) = c.spec_archive(index_id, archive_id) {
        lemma_chain_len(c.data(), a, a.sector, a.length as nat, 0);
    }
}

/// Reading a record depends on the store alone: two caches over the same bytes with the same
/// catalogs give the same result for every record.
pub proof fn lemma_read_deterministic(c1: Cache, c2: Cache, index_id: u8, archive_id: u32)
    requires
        c1.data() == c2.data(),
        c1.indices() == c2.indices(),
    ensures
        c1.spec_read(index_id, archive_id) == c2.spec_read(index_id, archive_id),
{
}

} // verus!
