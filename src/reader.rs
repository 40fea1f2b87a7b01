use vstd::prelude::*;

use crate::error::{CacheError, SectorFault};
use crate::index::ArchiveRef;
use crate::sector::{spec_header, SectorHeader, SectorHeaderSize, SECTOR_SIZE};

verus! {

/// The error that names the block at `sector`, holding chunk `chunk` of record `a`.
pub open spec fn sector_error(a: ArchiveRef, sector: u32, chunk: usize, fault: SectorFault) -> CacheError {
    CacheError::Sector { sector, index_id: a.index_id, archive_id: a.id, chunk, fault }
}

/// Prepends `done` to a successful result; an error stays as it is.
pub open spec fn prepend(done: Seq<u8>, r: Result<Seq<u8>, CacheError>) -> Result<Seq<u8>, CacheError> {
    match r {
        Ok(rest) => Ok(done + rest),
        Err(e) => Err(e),
    }
}

/// What following the chain of record `a` yields from block `sector` on, when `remaining`
/// bytes are still owed and the block at `sector` must carry chunk index `chunk`.
///
/// A block with at least a full payload still owed is read whole and leads on to the block
/// its header names; a shorter rest is read from the final block alone.
pub open spec fn spec_chain(
    data: Seq<u8>,
    a: ArchiveRef,
    sector: u32,
    remaining: nat,
    chunk: usize,
) -> Result<Seq<u8>, CacheError>
    decreases remaining,
{
    let size = SectorHeaderSize::spec_for_archive(a.id);
    let hl = size.spec_header_len() as nat;
    let dl = size.spec_data_len() as nat;
    let off = sector as nat * SECTOR_SIZE as nat;
    let take = if remaining >= dl { dl } else { remaining };
    if remaining == 0 {
        Ok(Seq::empty())
    } else if off + hl + take > data.len() {
        Err(sector_error(a, sector, chunk, SectorFault::OutOfBounds))
    } else {
        let h = spec_header(data, off as int, size);
        match h.spec_validate(a.id, chunk, a.index_id) {
            Some(fault) => Err(sector_error(a, sector, chunk, fault)),
            None => {
                let payload = data.subrange((off + hl) as int, (off + hl + take) as int);
                if remaining >= dl {
                    prepend(payload, spec_chain(data, a, h.next, (remaining - dl) as nat, (chunk + 1) as usize))
                } else {
                    Ok(payload)
                }
            },
        }
    }
}

/// The payload bytes that following the chain hands out before it ends or fails: those of
/// every block whose header passed, and none of the block that failed.
pub open spec fn spec_chain_written(
    data: Seq<u8>,
    a: ArchiveRef,
    sector: u32,
    remaining: nat,
    chunk: usize,
) -> Seq<u8>
    decreases remaining,
{
    let size = SectorHeaderSize::spec_for_archive(a.id);
    let hl = size.spec_header_len() as nat;
    let dl = size.spec_data_len() as nat;
    let off = sector as nat * SECTOR_SIZE as nat;
    let take = if remaining >= dl { dl } else { remaining };
    if remaining == 0 || off + hl + take > data.len() {
        Seq::empty()
    } else {
        let h = spec_header(data, off as int, size);
        if h.spec_validate(a.id, chunk, a.index_id) is Some {
            Seq::empty()
        } else {
            let payload = data.subrange((off + hl) as int, (off + hl + take) as int);
            if remaining >= dl {
                payload + spec_chain_written(data, a, h.next, (remaining - dl) as nat, (chunk + 1) as usize)
            } else {
                payload
            }
        }
    }
}

/// The payload bytes that reading record `a` hands out, on success or before its failure.
pub open spec fn spec_written(data: Seq<u8>, a: ArchiveRef) -> Seq<u8> {
    spec_chain_written(data, a, a.sector, a.length as nat, 0)
}

/// The bytes of record `a` reassembled from `data`, or the first fault met on its chain.
pub open spec fn spec_read(data: Seq<u8>, a: ArchiveRef) -> Result<Seq<u8>, CacheError> {
    spec_chain(data, a, a.sector, a.length as nat, 0)
}

/// A successful chain yields exactly the bytes it owed.
pub proof fn lemma_chain_len(data: Seq<u8>, a: ArchiveRef, sector: u32, remaining: nat, chunk: usize)
    ensures
        spec_chain(data, a, sector, remaining, chunk) is Ok ==> spec_chain(
            data,
            a,
            sector,
            remaining,
            chunk,
        )->Ok_0.len() == remaining,
    decreases remaining,
{
    let size = SectorHeaderSize::spec_for_archive(a.id);
    let dl = size.spec_data_len() as nat;
    let off = sector as nat * SECTOR_SIZE as nat;
    if remaining > 0 && remaining >= dl {
        let h = spec_header(data, off as int, size);
        lemma_chain_len(data, a, h.next, (remaining - dl) as nat, (chunk + 1) as usize);
    }
}

/// A block whose header names another record, another partition, or a chunk index out of
/// sequence ends the chain in an error, whatever its payload holds.
pub proof fn lemma_mismatched_header_rejected(
    data: Seq<u8>,
    a: ArchiveRef,
    sector: u32,
    remaining: nat,
    chunk: usize,
)
    requires
        remaining > 0,
        spec_header(data, sector as int * SECTOR_SIZE as int, SectorHeaderSize::spec_for_archive(a.id)).spec_validate(
            a.id,
            chunk,
            a.index_id,
        ) is Some,
    ensures
        spec_chain(data, a, sector, remaining, chunk) is Err,
{
}

/// Appends to `writer` the bytes of record `a`, following its chain of blocks in `data`
/// and checking each block's header against the record, the partition and the chunk index.
/// On failure `writer` holds only the payloads of the blocks that passed before the one that failed.
pub fn read_internal(data: &[u8], a: &ArchiveRef, writer: &mut Vec<u8>) -> (r: Result<(), CacheError>)
    ensures
        final(writer)@ == old(writer)@ + spec_written(data@, *a),
        match spec_read(data@, *a) {
            Ok(bytes) => r is Ok && final(writer)@ == old(writer)@ + bytes,
            Err(e) => r == Err::<(), CacheError>(e),
        },
{
    let size = SectorHeaderSize::for_archive(a.id);
    let hl: usize = size.header_len();
    let dl: usize = size.data_len();
    let data_len: usize = data.len();
    let mut current: u32 = a.sector;
    let mut remaining: usize = a.length;
    let mut chunk: usize = 0;
    let ghost start = old(writer)@;
    let ghost done: Seq<u8> = Seq::empty();
    while remaining > 0
        invariant
            data_len == data@.len(),
            size == SectorHeaderSize::spec_for_archive(a.id),
            hl == size.spec_header_len(),
            dl == size.spec_data_len(),
            chunk + remaining <= a.length,
            writer@ == start + done,
            start == old(writer)@,
            spec_read(data@, *a) == prepend(done, spec_chain(data@, *a, current, remaining as nat, chunk)),
            spec_written(data@, *a) == done + spec_chain_written(data@, *a, current, remaining as nat, chunk),
        decreases remaining,
    {
        let take: usize = if remaining >= dl { dl } else { remaining };
        let offset: Option<usize> = (current as usize).checked_mul(SECTOR_SIZE);
        let end: usize = match offset {
            Some(off) => {
                if off <= data_len && hl + take <= data_len - off {
                    off + hl + take
                } else {
                    0
                }
            },
            None => 0,
        };
        if end == 0 {
            assert(spec_chain_written(data@, *a, current, remaining as nat, chunk) == Seq::<u8>::empty());
            assert(done + Seq::<u8>::empty() =~= done);
            assert(spec_written(data@, *a) == done);
            return Err(CacheError::Sector {
                sector: current,
                index_id: a.index_id,
                archive_id: a.id,
                chunk,
                fault: SectorFault::OutOfBounds,
            });
        }
        let off: usize = end - hl - take;
        let header: SectorHeader = SectorHeader::parse(data, off, size);
        match header.validate(a.id, chunk, a.index_id) {
            Err(fault) => {
                assert(spec_chain_written(data@, *a, current, remaining as nat, chunk) == Seq::<u8>::empty());
                assert(done + Seq::<u8>::empty() =~= done);
                assert(spec_written(data@, *a) == done);
                return Err(CacheError::Sector {
                    sector: current,
                    index_id: a.index_id,
                    archive_id: a.id,
                    chunk,
                    fault,
                });
            },
            Ok(()) => {},
        }
        let payload: &[u8] = &data[off + hl..end];
        let ghost before = writer@;
        let ghost old_done = done;
        let ghost step = spec_chain(data@, *a, current, remaining as nat, chunk);
        let ghost wstep = spec_chain_written(data@, *a, current, remaining as nat, chunk);
        writer.extend_from_slice(payload);
        proof {
            assert(writer@ =~= before + payload@);
            assert(payload@ == data@.subrange((off + hl) as int, (off + hl + take) as int));
            done = old_done + payload@;
            assert(writer@ =~= start + done);
        }
        if remaining >= dl {
            current = header.next;
            remaining = remaining - dl;
            chunk = chunk + 1;
            proof {
                let rest = spec_chain(data@, *a, current, remaining as nat, chunk);
                assert(step == prepend(payload@, rest));
                let wrest = spec_chain_written(data@, *a, current, remaining as nat, chunk);
                assert(wstep == payload@ + wrest);
                assert(old_done + (payload@ + wrest) =~= done + wrest);
                match rest {
                    Ok(r) => assert(old_done + (payload@ + r) =~= done + r),
                    Err(_) => {},
                }
            }
        } else {
            remaining = 0;
            proof {
                assert(step == Ok::<Seq<u8>, CacheError>(payload@));
                assert(wstep == payload@);
                assert(done + Seq::<u8>::empty() =~= done);
                assert(old_done + payload@ =~= done + Seq::<u8>::empty());
            }
        }
    }
    assert(done + Seq::<u8>::empty() =~= done);
    Ok(())
}

} // verus!
