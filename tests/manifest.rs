use num_bigint::{BigInt, Sign};
use rscache::archive::{djd2, parse_descriptor, Archive};
use rscache::checksum::{parse_version, Checksum, Entry, Rs3Encode};
use rscache::sector::SECTOR_SIZE;
use rscache::{Cache, CacheError};
use whirlpool::{Digest, Whirlpool};

fn put_block(data: &mut Vec<u8>, sector: u32, archive: u16, index: u8, payload: &[u8]) {
    let off = sector as usize * SECTOR_SIZE;
    if data.len() < off + SECTOR_SIZE {
        data.resize(off + SECTOR_SIZE, 0);
    }
    let mut block = archive.to_be_bytes().to_vec();
    block.extend_from_slice(&[0, 0, 0, 0, 0, index]);
    block.extend_from_slice(payload);
    data[off..off + block.len()].copy_from_slice(&block);
}

fn catalog_record(length: usize, sector: u32) -> Vec<u8> {
    let mut r = (length as u32).to_be_bytes()[1..].to_vec();
    r.extend_from_slice(&sector.to_be_bytes()[1..]);
    r
}

fn identity(b: &[u8]) -> Option<Vec<u8>> {
    Some(b.to_vec())
}

/// 22 partitions (0 to 20 and the catalog of catalogs); reference records 0 to 19 hold data,
/// record 20 is empty and record 21 is absent.
fn manifest_store() -> (Vec<u8>, Vec<(u8, Vec<u8>)>, Vec<Vec<u8>>) {
    let mut data = vec![0u8; SECTOR_SIZE];
    let mut reference = Vec::new();
    let mut records = Vec::new();
    for i in 0..20u32 {
        let format = if i % 2 == 0 { 6u8 } else { 5u8 };
        let mut payload = vec![format];
        payload.extend_from_slice(&(1000 + i).to_be_bytes());
        payload.extend_from_slice(&[i as u8; 11]);
        put_block(&mut data, 1 + i, i as u16, 255, &payload);
        reference.extend(catalog_record(payload.len(), 1 + i));
        records.push(payload);
    }
    reference.extend(catalog_record(0, 0));
    let mut catalogs: Vec<(u8, Vec<u8>)> = (0..21u8).map(|id| (id, Vec::new())).collect();
    catalogs.push((255, reference));
    (data, catalogs, records)
}

#[test]
fn manifest_of_twenty_two_partitions_validates() {
    let (data, catalogs, records) = manifest_store();
    let cache = Cache::new(&data, catalogs).unwrap();
    assert_eq!(cache.index_count(), 22);
    let checksum = cache.create_checksum(identity).unwrap();
    assert_eq!(checksum.index_count(), 22);
    let entries: Vec<Entry> = checksum.iter().cloned().collect();
    assert_eq!(entries.len(), 22);
    let mut crcs: Vec<u32> = records.iter().map(|r| crc::crc32::checksum_ieee(r)).collect();
    crcs.push(0);
    crcs.push(0);
    assert!(checksum.validate(&crcs));
    for (i, e) in entries.iter().enumerate().take(20) {
        assert_ne!(e.crc, 0);
        assert_eq!(e.version, if i % 2 == 0 { 1000 + i as u32 } else { 0 });
        assert_eq!(e.hash, Whirlpool::digest(&records[i]).to_vec());
    }
    assert_eq!(entries[20], Entry::default());
    assert_eq!(entries[21], Entry::default());
    for k in 0..22 {
        let mut wrong = crcs.clone();
        wrong[k] ^= 1;
        assert!(!checksum.validate(&wrong));
    }
}

#[test]
fn excluded_partition_gets_zero_entry() {
    let mut data = vec![0u8; SECTOR_SIZE];
    let mut reference = Vec::new();
    for i in 0..48u32 {
        let payload = vec![5u8, 1, 2, 3, 4];
        put_block(&mut data, 1 + i, i as u16, 255, &payload);
        reference.extend(catalog_record(payload.len(), 1 + i));
    }
    let mut catalogs: Vec<(u8, Vec<u8>)> = (0..47u8).map(|id| (id, Vec::new())).collect();
    catalogs.push((255, reference));
    let cache = Cache::new(&data, catalogs).unwrap();
    let checksum = cache.create_checksum(identity).unwrap();
    let entries: Vec<Entry> = checksum.iter().cloned().collect();
    assert_eq!(entries.len(), 48);
    assert_eq!(entries[47], Entry::default());
    assert_eq!(entries[46].crc, crc::crc32::checksum_ieee(&[5, 1, 2, 3, 4]));
}

#[test]
fn refused_decode_fails_the_manifest() {
    let (data, catalogs, _) = manifest_store();
    let cache = Cache::new(&data, catalogs).unwrap();
    let r = cache.create_checksum(|b: &[u8]| if b[5] == 3 { None } else { Some(b.to_vec()) });
    assert_eq!(r.unwrap_err(), CacheError::Decode(3));
    let short = cache.create_checksum(|_b: &[u8]| Some(vec![6u8, 1]));
    assert_eq!(short.unwrap_err(), CacheError::Decode(0));
}

#[test]
fn version_is_read_only_from_format_six() {
    assert_eq!(parse_version(&[6, 0, 0, 1, 2]), Some(258));
    assert_eq!(parse_version(&[7, 255, 255, 255, 255, 9]), Some(u32::MAX));
    assert_eq!(parse_version(&[5, 0, 0, 1, 2]), Some(0));
    assert_eq!(parse_version(&[6, 0, 0]), None);
    assert_eq!(parse_version(&[]), None);
}

fn signed_sample() -> Checksum {
    let mut c = Checksum::new(100);
    c.push(Entry { crc: 0x11223344, version: 7, hash: vec![1u8; 64] });
    c.push(Entry { crc: 0xAABBCCDD, version: 0x01000000, hash: (0..64u8).collect() });
    c
}

#[test]
fn signed_encoding_layout() {
    let c = signed_sample();
    let out = c.encode_signed(b"65537", b"1000000000000000000000000000057").unwrap();
    let body_len = 81 * 99;
    assert_eq!(out[0], 99);
    assert_eq!(&out[1..5], &[0x11, 0x22, 0x33, 0x44]);
    assert_eq!(&out[5..9], &[0, 0, 0, 7]);
    assert_eq!(&out[9..17], &[0u8; 8]);
    assert_eq!(&out[17..81], &[1u8; 64][..]);
    assert_eq!(&out[81..85], &[0xAA, 0xBB, 0xCC, 0xDD]);
    assert_eq!(&out[85..89], &[1, 0, 0, 0]);
    assert_eq!(&out[89..97], &[0u8; 8]);
    assert_eq!(out[97..161].to_vec(), (0..64u8).collect::<Vec<u8>>());
    assert!(out[161..body_len].iter().all(|b| *b == 0));
    let mut base = vec![0u8];
    base.extend(Whirlpool::digest(&out[..body_len]).to_vec());
    let e = BigInt::parse_bytes(b"65537", 10).unwrap();
    let m = BigInt::parse_bytes(b"1000000000000000000000000000057", 10).unwrap();
    let sig = BigInt::from_bytes_be(Sign::Plus, &base).modpow(&e, &m).to_bytes_be().1;
    assert_eq!(out.len(), body_len + sig.len());
    assert_eq!(&out[body_len..], &sig[..]);
    assert_eq!(c.encode(b"65537", b"1000000000000000000000000000057").unwrap(), out);
}

#[test]
fn signed_encoding_refusals() {
    let c = signed_sample();
    assert_eq!(c.encode_signed(b"abc", b"17"), Err(CacheError::Encode));
    assert_eq!(c.encode_signed(b"3", b"000"), Err(CacheError::Encode));
    assert_eq!(c.encode_signed(b"", b"17"), Err(CacheError::Encode));
    assert_eq!(Checksum::new(1).encode_signed(b"3", b"17"), Err(CacheError::Encode));
    assert_eq!(Checksum::new(257).encode_signed(b"3", b"17"), Err(CacheError::Encode));
    let mut short_hash = Checksum::new(100);
    short_hash.push(Entry { crc: 1, version: 1, hash: vec![0; 10] });
    assert_eq!(short_hash.encode_signed(b"3", b"17"), Err(CacheError::Encode));
}

#[test]
fn signed_encoding_writes_every_entry() {
    let mut c = Checksum::new(82);
    for k in 0..82u32 {
        c.push(Entry { crc: 100 + k, version: k, hash: vec![k as u8; 64] });
    }
    let out = c.encode_signed(b"3", b"1000003").unwrap();
    let body_len = 81 * 81;
    assert_eq!(out[0], 81);
    for k in 0..82usize {
        let o = 80 * k + 1;
        assert_eq!(&out[o..o + 4], &(100 + k as u32).to_be_bytes());
        assert_eq!(&out[o + 4..o + 8], &(k as u32).to_be_bytes());
        assert_eq!(&out[o + 8..o + 16], &[0u8; 8]);
        assert_eq!(&out[o + 16..o + 80], &[k as u8; 64][..]);
    }
    assert_eq!(&out[6481..6485], &181u32.to_be_bytes());
    assert!(out[1 + 80 * 82..body_len].iter().all(|b| *b == 0));
    let mut base = vec![0u8];
    base.extend(Whirlpool::digest(&out[..body_len]).to_vec());
    let sig = BigInt::from_bytes_be(Sign::Plus, &base)
        .modpow(&BigInt::from(3), &BigInt::from(1000003))
        .to_bytes_be()
        .1;
    assert_eq!(&out[body_len..], &sig[..]);
    let mut short_list = Checksum::new(30);
    short_list.push(Entry { crc: 9, version: 1, hash: vec![2; 64] });
    let out = short_list.encode_signed(b"3", b"17").unwrap();
    assert_eq!(out[0], 29);
    assert!(out[81..81 * 29].iter().all(|b| *b == 0));
}

#[test]
fn signed_encoding_refuses_entries_that_do_not_fit() {
    let mut c = Checksum::new(22);
    for _ in 0..22 {
        c.push(Entry::default());
    }
    assert_eq!(c.encode_signed(b"3", b"17"), Err(CacheError::Encode));
    let mut one_short = Checksum::new(82);
    for _ in 0..83 {
        one_short.push(Entry::default());
    }
    assert_eq!(one_short.encode_signed(b"3", b"17"), Err(CacheError::Encode));
}

#[test]
fn entries_can_be_replaced_and_taken_out() {
    let mut c = Checksum::new(2);
    c.push(Entry::default());
    assert!(c.set_entry(0, Entry { crc: 3, version: 4, hash: vec![1; 64] }));
    assert!(!c.set_entry(1, Entry::default()));
    let entries = c.into_entries();
    assert_eq!(entries.len(), 1);
    assert_eq!((entries[0].crc, entries[0].version), (3, 4));
}

#[test]
fn name_hash_matches_known_value() {
    assert_eq!(djd2(b"huffman"), 1258058669);
    assert_eq!(djd2(b""), 0);
    assert_eq!(djd2(b"a"), 97);
}

fn descriptor(names: &[i32]) -> Vec<u8> {
    let mut d = vec![6u8, 0, 0, 0, 9, 1];
    d.extend_from_slice(&(names.len() as u16).to_be_bytes());
    for k in 0..names.len() {
        d.extend_from_slice(&(if k == 0 { 0u16 } else { 1u16 }).to_be_bytes());
    }
    for n in names {
        d.extend_from_slice(&n.to_be_bytes());
    }
    d
}

#[test]
fn descriptor_lists_ids_and_names() {
    let d = descriptor(&[5, -7]);
    assert_eq!(
        parse_descriptor(&d),
        Some(vec![Archive { id: 0, name_hash: 5 }, Archive { id: 1, name_hash: -7 }])
    );
    assert_eq!(parse_descriptor(&d[..d.len() - 1]), None);
    assert_eq!(parse_descriptor(&[4, 0]), None);
    let wide = vec![7u8, 0, 0, 0, 1, 0, 0, 2, 0x80, 0, 0, 3, 0, 2];
    assert_eq!(
        parse_descriptor(&wide),
        Some(vec![Archive { id: 3, name_hash: 0 }, Archive { id: 5, name_hash: 0 }])
    );
}

/// Partition 10 holds records 0 and 1; the descriptor names record 1 "huffman".
fn named_store() -> (Vec<u8>, Vec<(u8, Vec<u8>)>) {
    let mut data = vec![0u8; SECTOR_SIZE];
    let desc = descriptor(&[42, 1258058669]);
    put_block(&mut data, 1, 10, 255, &desc);
    put_block(&mut data, 2, 0, 10, &[1, 1, 1]);
    put_block(&mut data, 3, 1, 10, &[4, 5, 6, 7]);
    let mut reference = Vec::new();
    for _ in 0..10 {
        reference.extend(catalog_record(0, 0));
    }
    reference.extend(catalog_record(desc.len(), 1));
    let mut ten = catalog_record(3, 2);
    ten.extend(catalog_record(4, 3));
    (data, vec![(10u8, ten), (255u8, reference)])
}

#[test]
fn archive_by_name_finds_named_record() {
    let (data, catalogs) = named_store();
    let cache = Cache::new(&data, catalogs).unwrap();
    let a = cache.archive_by_name(10, b"huffman", &identity).unwrap();
    assert_eq!((a.id, a.index_id, a.length, a.sector), (1, 10, 4, 3));
    assert_eq!(
        cache.archive_by_name(10, b"missing", &identity),
        Err(CacheError::NameNotInArchive(djd2(b"missing"), 10))
    );
    assert_eq!(cache.archive_by_name(3, b"huffman", &identity), Err(CacheError::IndexNotFound(3)));
    assert_eq!(cache.archive_by_name(10, b"huffman", &|_b: &[u8]| None), Err(CacheError::ReferenceTable(10)));
    assert_eq!(cache.huffman_table(identity).unwrap(), vec![4, 5, 6, 7]);
}

#[test]
fn find_named_uses_given_records() {
    let (data, catalogs) = named_store();
    let cache = Cache::new(&data, catalogs).unwrap();
    let archives = [Archive { id: 0, name_hash: djd2(b"x") }, Archive { id: 9, name_hash: djd2(b"y") }];
    assert_eq!(cache.find_named(10, &archives, b"x").unwrap().id, 0);
    assert_eq!(cache.find_named(10, &archives, b"y"), Err(CacheError::ArchiveNotFound(10, 9)));
}
