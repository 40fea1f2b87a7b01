use rscache::checksum::{Checksum, Entry, OsrsEncode};
use rscache::error::SectorFault;
use rscache::index::Index;
use rscache::sector::{SectorHeader, SectorHeaderSize, SECTOR_SIZE};
use rscache::{Cache, CacheError};

/// Writes one block: a normal or expanded header, then the payload.
fn put_block(data: &mut Vec<u8>, sector: u32, archive: u32, chunk: u16, next: u32, index: u8, payload: &[u8]) {
    let off = sector as usize * SECTOR_SIZE;
    let mut block = Vec::new();
    if archive > 0xFFFF {
        block.extend_from_slice(&archive.to_be_bytes());
    } else {
        block.extend_from_slice(&(archive as u16).to_be_bytes());
    }
    block.extend_from_slice(&chunk.to_be_bytes());
    block.extend_from_slice(&next.to_be_bytes()[1..]);
    block.push(index);
    block.extend_from_slice(payload);
    if data.len() < off + SECTOR_SIZE {
        data.resize(off + SECTOR_SIZE, 0);
    }
    data[off..off + block.len()].copy_from_slice(&block);
}

fn catalog_record(length: u32, sector: u32) -> Vec<u8> {
    let mut r = length.to_be_bytes()[1..].to_vec();
    r.extend_from_slice(&sector.to_be_bytes()[1..]);
    r
}

/// A store with one partition (2) holding record 0 over three blocks (1, 2, 3) and record 1 in block 4.
fn sample_store() -> (Vec<u8>, Vec<(u8, Vec<u8>)>, Vec<u8>) {
    let full = SECTOR_SIZE - 8;
    let payload: Vec<u8> = (0..(2 * full + 100)).map(|i| (i % 251) as u8).collect();
    let mut data = vec![0u8; SECTOR_SIZE];
    put_block(&mut data, 1, 0, 0, 2, 2, &payload[..full]);
    put_block(&mut data, 2, 0, 1, 3, 2, &payload[full..2 * full]);
    put_block(&mut data, 3, 0, 2, 0, 2, &payload[2 * full..]);
    put_block(&mut data, 4, 1, 0, 0, 2, &[9, 8, 7]);
    let mut catalog = catalog_record(payload.len() as u32, 1);
    catalog.extend(catalog_record(3, 4));
    let catalogs = vec![(2u8, catalog), (255u8, Vec::new())];
    (data, catalogs, payload)
}

#[test]
fn read_reassembles_multi_block_record() {
    let (data, catalogs, payload) = sample_store();
    let cache = Cache::new(&data, catalogs).unwrap();
    let bytes = cache.read(2, 0).unwrap();
    assert_eq!(bytes.len(), payload.len());
    assert_eq!(bytes, payload);
    assert_eq!(cache.read(2, 1).unwrap(), vec![9, 8, 7]);
}

#[test]
fn read_is_repeatable() {
    let (data, catalogs, _) = sample_store();
    let cache = Cache::new(&data, catalogs).unwrap();
    assert_eq!(cache.read(2, 0).unwrap(), cache.read(2, 0).unwrap());
}

#[test]
fn read_into_writer_appends() {
    let (data, catalogs, payload) = sample_store();
    let cache = Cache::new(&data, catalogs).unwrap();
    let mut out = vec![1u8, 2];
    cache.read_into_writer(2, 0, &mut out).unwrap();
    assert_eq!(out.len(), 2 + payload.len());
    assert_eq!(&out[2..], &payload[..]);
}

#[test]
fn read_reports_missing_partition_and_record() {
    let (data, catalogs, _) = sample_store();
    let cache = Cache::new(&data, catalogs).unwrap();
    assert_eq!(cache.read(7, 0), Err(CacheError::IndexNotFound(7)));
    assert_eq!(cache.read(2, 2), Err(CacheError::ArchiveNotFound(2, 2)));
    assert_eq!(cache.index_count(), 2);
}

#[test]
fn empty_record_reads_empty() {
    let data = vec![0u8; SECTOR_SIZE];
    let catalogs = vec![(0u8, catalog_record(0, 0)), (255u8, Vec::new())];
    let cache = Cache::new(&data, catalogs).unwrap();
    assert_eq!(cache.read(0, 0).unwrap(), Vec::<u8>::new());
}

#[test]
fn wrong_record_id_in_header_is_rejected() {
    let (mut data, catalogs, _) = sample_store();
    put_block(&mut data, 2, 5, 1, 3, 2, &[0u8; SECTOR_SIZE - 8]);
    let cache = Cache::new(&data, catalogs).unwrap();
    assert_eq!(
        cache.read(2, 0),
        Err(CacheError::Sector { sector: 2, index_id: 2, archive_id: 0, chunk: 1, fault: SectorFault::ArchiveMismatch })
    );
}

#[test]
fn failed_read_keeps_only_earlier_payloads() {
    let (mut data, catalogs, payload) = sample_store();
    put_block(&mut data, 2, 0, 1, 3, 9, &[0xEE; SECTOR_SIZE - 8]);
    let cache = Cache::new(&data, catalogs).unwrap();
    let mut out = vec![7u8];
    assert!(cache.read_into_writer(2, 0, &mut out).is_err());
    assert_eq!(out.len(), 1 + SECTOR_SIZE - 8);
    assert_eq!(&out[1..], &payload[..SECTOR_SIZE - 8]);
    let mut untouched = vec![7u8];
    assert_eq!(cache.read_into_writer(9, 0, &mut untouched), Err(CacheError::IndexNotFound(9)));
    assert_eq!(cache.read_into_writer(2, 5, &mut untouched), Err(CacheError::ArchiveNotFound(2, 5)));
    assert_eq!(untouched, vec![7u8]);
}

#[test]
fn out_of_sequence_chunk_is_rejected() {
    let (mut data, catalogs, _) = sample_store();
    put_block(&mut data, 3, 0, 5, 0, 2, &[0u8; 100]);
    let cache = Cache::new(&data, catalogs).unwrap();
    assert_eq!(
        cache.read(2, 0),
        Err(CacheError::Sector { sector: 3, index_id: 2, archive_id: 0, chunk: 2, fault: SectorFault::ChunkMismatch })
    );
}

#[test]
fn wrong_partition_in_header_is_rejected() {
    let (mut data, catalogs, _) = sample_store();
    put_block(&mut data, 4, 1, 0, 0, 3, &[9, 8, 7]);
    let cache = Cache::new(&data, catalogs).unwrap();
    assert_eq!(
        cache.read(2, 1),
        Err(CacheError::Sector { sector: 4, index_id: 2, archive_id: 1, chunk: 0, fault: SectorFault::IndexMismatch })
    );
}

#[test]
fn chain_past_end_of_data_is_rejected() {
    let (data, mut catalogs, _) = sample_store();
    catalogs[0].1.extend(catalog_record(10, 1000));
    let cache = Cache::new(&data, catalogs).unwrap();
    assert_eq!(
        cache.read(2, 2),
        Err(CacheError::Sector { sector: 1000, index_id: 2, archive_id: 2, chunk: 0, fault: SectorFault::OutOfBounds })
    );
}

#[test]
fn expanded_header_layout_is_used_for_large_ids() {
    let mut data = vec![0u8; SECTOR_SIZE];
    put_block(&mut data, 1, 70000, 0, 0, 4, &[1, 2, 3, 4]);
    let mut block = vec![0u8; SECTOR_SIZE];
    block.copy_from_slice(&data[SECTOR_SIZE..2 * SECTOR_SIZE]);
    let h = SectorHeader::parse(&block, 0, SectorHeaderSize::Expanded);
    assert_eq!(h, SectorHeader { archive_id: 70000, chunk: 0, next: 0, index_id: 4 });
    assert_eq!(SectorHeaderSize::for_archive(70000), SectorHeaderSize::Expanded);
    assert_eq!(SectorHeaderSize::for_archive(65535), SectorHeaderSize::Normal);
    assert_eq!(SectorHeaderSize::Expanded.data_len(), SECTOR_SIZE - 10);
    assert_eq!(h.validate(70000, 0, 4), Ok(()));
    assert_eq!(h.validate(70000, 1, 4), Err(SectorFault::ChunkMismatch));
}

#[test]
fn truncated_catalog_is_refused() {
    assert!(matches!(Index::from_buffer(3, &[0, 0, 1, 0, 0, 2, 0, 0]), Err(CacheError::IndexParse(3))));
    let data = vec![0u8; SECTOR_SIZE];
    let catalogs = vec![(3u8, vec![0u8; 7]), (255u8, Vec::new())];
    assert!(matches!(Cache::new(&data, catalogs), Err(CacheError::IndexParse(3))));
}

#[test]
fn catalog_records_are_positional() {
    let mut bytes = catalog_record(0x010203, 0x040506);
    bytes.extend(catalog_record(7, 8));
    let index = Index::from_buffer(9, &bytes).unwrap();
    assert_eq!(index.archive_refs.len(), 2);
    assert_eq!(index.archive_refs[0].length, 0x010203);
    assert_eq!(index.archive_refs[0].sector, 0x040506);
    assert_eq!(index.archive_refs[1].id, 1);
    assert_eq!(index.archive_refs[1].index_id, 9);
}

#[test]
fn missing_reference_table_and_duplicates_are_refused() {
    let data = vec![0u8; SECTOR_SIZE];
    assert!(matches!(Cache::new(&data, vec![(1u8, Vec::new())]), Err(CacheError::MissingReferenceTable)));
    assert!(matches!(
        Cache::new(&data, vec![(1u8, Vec::new()), (1u8, Vec::new()), (255u8, Vec::new())]),
        Err(CacheError::DuplicateIndex(1))
    ));
}

#[test]
fn plain_encoding_is_crc_then_version() {
    let mut c = Checksum::new(2);
    c.push(Entry { crc: 0x01020304, version: 0x0A0B0C0D, hash: vec![0; 64] });
    c.push(Entry { crc: 0xFFFFFFFF, version: 6, hash: vec![0; 64] });
    let out = c.clone().encode().unwrap();
    assert_eq!(out, vec![1, 2, 3, 4, 10, 11, 12, 13, 255, 255, 255, 255, 0, 0, 0, 6]);
    assert_eq!(c.encode_plain().len(), 16);
}

#[test]
fn validate_compares_in_order() {
    let mut c = Checksum::new(3);
    for crc in [5u32, 6, 7] {
        c.push(Entry { crc, version: 0, hash: vec![0; 64] });
    }
    assert!(c.validate(&[5, 6, 7]));
    assert!(!c.validate(&[6, 5, 7]));
    assert!(!c.validate(&[5, 6]));
    assert!(!c.validate(&[5, 6, 8]));
    assert!(!c.validate(&[5, 6, 7, 0]));
    assert_eq!(c.index_count(), 3);
    assert_eq!(c.iter().map(|e| e.crc).collect::<Vec<_>>(), vec![5, 6, 7]);
}

#[test]
fn default_entry_is_zero() {
    let e = Entry::default();
    assert_eq!(e.crc, 0);
    assert_eq!(e.version, 0);
    assert_eq!(e.hash, vec![0u8; 64]);
}
