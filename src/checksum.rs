use vstd::prelude::*;

use core::slice::Iter;

use crate::error::CacheError;
use crate::primitives::{
    check_decimal, check_nonzero_decimal, crc32, crc32_of, is_decimal, is_nonzero_decimal, modpow,
    spec_modpow, whirlpool, whirlpool_of,
};
use crate::sector::{be32, read_be32};

verus! {

/// Length of the digest each entry carries.
pub const DIGEST_LEN: usize = 64;

/// `n` zero bytes.
pub open spec fn zeros(n: nat) -> Seq<u8> {
    Seq::new(n, |i: int| 0u8)
}

/// The four big-endian bytes of `x`.
pub open spec fn be32_bytes(x: u32) -> Seq<u8> {
    seq![(x / 0x100_0000) as u8, ((x / 0x1_0000) % 256) as u8, ((x / 256) % 256) as u8, (x % 256) as u8]
}

/// Validation data of one partition.
#[derive(Clone, Debug, PartialEq, Eq, PartialOrd, Ord, Hash)]
pub struct Entry {
    pub crc: u32,
    pub version: u32,
    pub hash: Vec<u8>,
}

/// The entry of a partition left out of validation: every field zero.
pub open spec fn is_blank(e: Entry) -> bool {
    e.crc == 0 && e.version == 0 && e.hash@ == zeros(64)
}

impl Default for Entry {
    fn default() -> (r: Self)
        ensures
            is_blank(r),
    {
        let hash: Vec<u8> = vec![0u8; DIGEST_LEN];
        assert(hash@ =~= zeros(64));
        Entry { crc: 0, version: 0, hash }
    }
}

/// The version a decoded catalog-of-catalogs record declares: a big-endian `u32` after the
/// leading format byte when that byte is at least 6, zero for older formats.
pub open spec fn spec_version(decoded: Seq<u8>) -> Option<u32> {
    if decoded.len() == 0 {
        None
    } else if decoded[0] >= 6 {
        if decoded.len() >= 5 {
            Some(be32(decoded, 1) as u32)
        } else {
            None
        }
    } else {
        Some(0)
    }
}

/// Reads the version of a decoded catalog-of-catalogs record; `None` when the record is too
/// short to hold it.
pub fn parse_version(decoded: &[u8]) -> (r: Option<u32>)
    ensures
        r == spec_version(decoded@),
{
    if decoded.len() == 0 {
        None
    } else if decoded[0] >= 6 {
        if decoded.len() >= 5 {
            Some(read_be32(decoded, 1))
        } else {
            None
        }
    } else {
        Some(0)
    }
}

impl Entry {
    /// The entry of a partition whose catalog-of-catalogs record is `raw` and declares `version`.
    pub fn from_record(raw: &[u8], version: u32) -> (r: Entry)
        ensures
            r.crc == crc32_of(raw@),
            r.version == version,
            r.hash@ == whirlpool_of(raw@),
            r.hash@.len() == 64,
    {
        Entry { crc: crc32(raw), version, hash: whirlpool(raw) }
    }
}

/// The plain record of an entry: crc then version, big-endian.
pub open spec fn plain_record(e: Entry) -> Seq<u8> {
    be32_bytes(e.crc) + be32_bytes(e.version)
}

/// The signed record of an entry: crc, version, two reserved zero words, digest.
pub open spec fn signed_record(e: Entry) -> Seq<u8> {
    be32_bytes(e.crc) + be32_bytes(e.version) + zeros(8) + e.hash@
}

/// The records of `es`, in order, one after the other.
pub open spec fn concat_records(es: Seq<Entry>, f: spec_fn(Entry) -> Seq<u8>) -> Seq<u8>
    decreases es.len(),
{
    if es.len() == 0 {
        Seq::empty()
    } else {
        concat_records(es.drop_last(), f) + f(es.last())
    }
}

/// The plain encoding of a manifest.
pub open spec fn spec_plain(es: Seq<Entry>) -> Seq<u8> {
    concat_records(es, |e: Entry| plain_record(e))
}

/// Whether `count` entries of a manifest built for `n` partitions fit the signed layout: a
/// one-byte count of `n - 1` (so `2 <= n <= 256`) and one 80-byte record per entry from
/// offset 1, all within `81 * (n - 1)` bytes.
pub open spec fn signed_fits(n: usize, count: nat) -> bool {
    2 <= n <= 256 && 80 * count + 1 <= 81 * (n - 1)
}

/// Whether the signed encoding of `es` for `n` partitions with this key material succeeds.
pub open spec fn signed_ok(n: usize, es: Seq<Entry>, exponent: Seq<u8>, modulus: Seq<u8>) -> bool {
    &&& signed_fits(n, es.len())
    &&& forall|k: int| 0 <= k < es.len() ==> (#[trigger] es[k]).hash@.len() == 64
    &&& is_decimal(exponent)
    &&& is_nonzero_decimal(modulus)
}

/// The signed layout before its signature, `81 * (n - 1)` bytes: count byte, the record of
/// every entry in order, zero padding.
pub open spec fn spec_signed_body(n: usize, es: Seq<Entry>) -> Seq<u8> {
    seq![(n - 1) as u8] + concat_records(es, |e: Entry| signed_record(e)) + zeros(
        (81 * (n - 1) - 1 - 80 * es.len()) as nat,
    )
}

/// The signature appended to a signed body: its digest, behind one zero byte, raised to the
/// exponent modulo the modulus.
pub open spec fn spec_signature(body: Seq<u8>, exponent: Seq<u8>, modulus: Seq<u8>) -> Seq<u8> {
    spec_modpow(seq![0u8] + whirlpool_of(body), exponent, modulus)
}

/// Records of equal width `w` stand one after the other: record `k` starts at `w * k`.
pub proof fn lemma_concat_stride(es: Seq<Entry>, f: spec_fn(Entry) -> Seq<u8>, w: nat)
    requires
        forall|k: int| 0 <= k < es.len() ==> #[trigger] f(es[k]).len() == w,
    ensures
        concat_records(es, f).len() == w * es.len(),
        forall|k: int|
            0 <= k < es.len() ==> #[trigger] concat_records(es, f).subrange(w * k, w * k + w) == f(es[k]),
    decreases es.len(),
{
    if es.len() > 0 {
        let init = es.drop_last();
        let n = es.len() - 1;
        assert forall|k: int| 0 <= k < init.len() implies #[trigger] f(init[k]).len() == w by {
            assert(init[k] == es[k]);
        }
        lemma_concat_stride(init, f, w);
        let whole = concat_records(es, f);
        let front = concat_records(init, f);
        assert(whole == front + f(es.last()));
        assert(w * es.len() == w * n + w) by (nonlinear_arith)
            requires
                n == es.len() - 1,
        ;
        assert forall|k: int| 0 <= k < es.len() implies #[trigger] whole.subrange(w * k, w * k + w) == f(es[k]) by {
            if k < n {
                assert(w * k + w <= w * n) by (nonlinear_arith)
                    requires
                        k < n,
                ;
                assert(0 <= w * k) by (nonlinear_arith)
                    requires
                        0 <= k,
                ;
                assert(init[k] == es[k]);
                assert(whole.subrange(w * k, w * k + w) =~= front.subrange(w * k, w * k + w));
            } else {
                assert(k == n);
                assert(whole.subrange(w * k, w * k + w) =~= f(es.last()));
            }
        }
    }
}

/// The plain encoding holds 8 bytes per entry, and group `k` is the crc then the version of
/// entry `k`, big-endian.
pub proof fn lemma_plain_layout(es: Seq<Entry>)
    ensures
        spec_plain(es).len() == 8 * es.len(),
        forall|k: int|
            0 <= k < es.len() ==> #[trigger] spec_plain(es).subrange(8 * k, 8 * k + 8) == be32_bytes(es[k].crc)
                + be32_bytes(es[k].version),
{
    let f = |e: Entry| plain_record(e);
    lemma_concat_stride(es, f, 8);
    assert forall|k: int| 0 <= k < es.len() implies #[trigger] spec_plain(es).subrange(8 * k, 8 * k + 8)
        == be32_bytes(es[k].crc) + be32_bytes(es[k].version) by {
        assert(f(es[k]) == plain_record(es[k]));
    }
}

/// The signed body is `81 * (n - 1)` bytes; byte 0 is `n - 1`; for every entry `k`, the record
/// at `80 * k + 1` is the crc, the version, two zero words and the digest of entry `k`; every
/// byte after the records is zero.
pub proof fn lemma_signed_layout(n: usize, es: Seq<Entry>)
    requires
        signed_fits(n, es.len()),
        forall|k: int| 0 <= k < es.len() ==> (#[trigger] es[k]).hash@.len() == 64,
    ensures
        spec_signed_body(n, es).len() == 81 * (n - 1),
        spec_signed_body(n, es)[0] == (n - 1) as u8,
        forall|k: int|
            0 <= k < es.len() ==> #[trigger] spec_signed_body(n, es).subrange(80 * k + 1, 80 * k + 81)
                == be32_bytes(es[k].crc) + be32_bytes(es[k].version) + zeros(8) + es[k].hash@,
        forall|i: int| 1 + 80 * es.len() <= i < 81 * (n - 1) ==> #[trigger] spec_signed_body(n, es)[i] == 0,
{
    let f = |e: Entry| signed_record(e);
    assert forall|k: int| 0 <= k < es.len() implies #[trigger] f(es[k]).len() == 80 by {}
    lemma_concat_stride(es, f, 80);
    let recs = concat_records(es, f);
    let body = spec_signed_body(n, es);
    assert(body == seq![(n - 1) as u8] + recs + zeros((81 * (n - 1) - 1 - 80 * es.len()) as nat));
    assert forall|k: int| 0 <= k < es.len() implies #[trigger] body.subrange(80 * k + 1, 80 * k + 81)
        == be32_bytes(es[k].crc) + be32_bytes(es[k].version) + zeros(8) + es[k].hash@ by {
        assert(80 * k + 80 <= 80 * es.len()) by (nonlinear_arith)
            requires
                k < es.len(),
        ;
        assert(body.subrange(80 * k + 1, 80 * k + 81) =~= recs.subrange(80 * k, 80 * k + 80));
    }
}

/// Appends the four big-endian bytes of `x`.
fn push_be32(buffer: &mut Vec<u8>, x: u32)
    ensures
        final(buffer)@ == old(buffer)@ + be32_bytes(x),
{
    buffer.push((x / 0x100_0000) as u8);
    buffer.push(((x / 0x1_0000) % 256) as u8);
    buffer.push(((x / 256) % 256) as u8);
    buffer.push((x % 256) as u8);
    assert(final(buffer)@ =~= old(buffer)@ + be32_bytes(x));
}

/// Appends `n` zero bytes.
fn push_zeros(buffer: &mut Vec<u8>, n: usize)
    ensures
        final(buffer)@ == old(buffer)@ + zeros(n as nat),
{
    let ghost start = buffer@;
    let mut i: usize = 0;
    while i < n
        invariant
            i <= n,
            buffer@ == start + zeros(i as nat),
        decreases n - i,
    {
        buffer.push(0u8);
        i = i + 1;
        assert(buffer@ =~= start + zeros(i as nat));
    }
}

/// Validator for a store: one entry per partition, in partition order.
#[derive(Clone, Debug, PartialEq, Eq, PartialOrd, Ord, Hash, Default)]
pub struct Checksum {
    index_count: usize,
    entries: Vec<Entry>,
}

impl Checksum {
    /// The number of partitions the manifest was built for.
    pub closed spec fn spec_index_count(&self) -> usize {
        self.index_count
    }

    /// The entries, in partition order.
    pub closed spec fn spec_entries(&self) -> Seq<Entry> {
        self.entries@
    }

    /// The crc of each entry, in order.
    pub open spec fn crcs(&self) -> Seq<u32> {
        self.spec_entries().map_values(|e: Entry| e.crc)
    }

    /// An empty manifest for `index_count` partitions.
    pub fn new(index_count: usize) -> (r: Checksum)
        ensures
            r.spec_index_count() == index_count,
            r.spec_entries() == Seq::<Entry>::empty(),
    {
        Checksum { index_count, entries: Vec::new() }
    }

    /// Appends the entry of the next partition.
    pub fn push(&mut self, entry: Entry)
        ensures
            final(self).spec_index_count() == old(self).spec_index_count(),
            final(self).spec_entries() == old(self).spec_entries().push(entry),
    {
        self.entries.push(entry);
    }

    /// Replaces the entry at `index`; returns false, changing nothing, where there is none.
    pub fn set_entry(&mut self, index: usize, entry: Entry) -> (r: bool)
        ensures
            r == (index < old(self).spec_entries().len()),
            final(self).spec_index_count() == old(self).spec_index_count(),
            final(self).spec_entries() == if r {
                old(self).spec_entries().update(index as int, entry)
            } else {
                old(self).spec_entries()
            },
    {
        if index < self.entries.len() {
            self.entries.set(index, entry);
            true
        } else {
            false
        }
    }

    /// The entries, in partition order, taken out of the manifest.
    pub fn into_entries(self) -> (r: Vec<Entry>)
        ensures
            r@ == self.spec_entries(),
    {
        self.entries
    }

    /// Whether `crcs` is exactly the crc of each entry, in order.
    pub fn validate(&self, crcs: &[u32]) -> (r: bool)
        ensures
            r == (self.crcs() == crcs@),
    {
        if self.entries.len() != crcs.len() {
            assert(self.crcs().len() != crcs@.len());
            return false;
        }
        let mut i: usize = 0;
        while i < crcs.len()
            invariant
                i <= crcs@.len(),
                crcs@.len() == self.entries@.len(),
                forall|k: int| 0 <= k < i ==> self.crcs()[k] == crcs@[k],
            decreases crcs@.len() - i,
        {
            if self.entries[i].crc != crcs[i] {
                assert(self.crcs()[i as int] != crcs@[i as int]);
                return false;
            }
            i = i + 1;
        }
        assert(self.crcs() =~= crcs@);
        true
    }

    /// The number of partitions the manifest was built for.
    pub fn index_count(&self) -> (r: usize)
        ensures
            r == self.spec_index_count(),
    {
        self.index_count
    }

    /// The entries, in partition order.
    pub fn iter(&self) -> (r: Iter<'_, Entry>)
        ensures
            vstd::std_specs::slice::into_iter_elts(r) == self.spec_entries(),
    {
        self.entries.as_slice().iter()
    }

    /// The plain encoding: crc and version of each entry, big-endian, 8 bytes per entry.
    pub fn encode_plain(&self) -> (r: Vec<u8>)
        ensures
            r@ == spec_plain(self.spec_entries()),
    {
        let ghost es = self.entries@;
        let mut buffer: Vec<u8> = Vec::new();
        let mut i: usize = 0;
        while i < self.entries.len()
            invariant
                es == self.entries@,
                i <= es.len(),
                buffer@ == spec_plain(es.subrange(0, i as int)),
            decreases es.len() - i,
        {
            push_be32(&mut buffer, self.entries[i].crc);
            push_be32(&mut buffer, self.entries[i].version);
            proof {
                let next = es.subrange(0, i + 1);
                assert(next.drop_last() =~= es.subrange(0, i as int));
                assert(next.last() == es[i as int]);
            }
            i = i + 1;
        }
        assert(es.subrange(0, es.len() as int) =~= es);
        buffer
    }

    /// The signed encoding: within `81 * (index_count - 1)` bytes, a count byte of
    /// `index_count - 1`, then an 80-byte record for every entry, entry `k` at `80 * k + 1`,
    /// the rest zero; then the signature made with the decimal `exponent` and `modulus`.
    /// Refused when `index_count` is not between 2 and 256, the records do not fit, a digest
    /// is not 64 bytes, or the key material is not decimal (or the modulus is zero).
    pub fn encode_signed(&self, exponent: &[u8], modulus: &[u8]) -> (r: Result<Vec<u8>, CacheError>)
        ensures
            r is Ok <==> signed_ok(self.spec_index_count(), self.spec_entries(), exponent@, modulus@),
            r is Ok ==> {
                let body = spec_signed_body(self.spec_index_count(), self.spec_entries());
                r->Ok_0@ == body + spec_signature(body, exponent@, modulus@)
            },
            r is Err ==> r->Err_0 == CacheError::Encode,
    {
        let ghost es = self.entries@;
        let n: usize = self.index_count;
        if n < 2 || n > 256 || !check_decimal(exponent) || !check_nonzero_decimal(modulus) {
            return Err(CacheError::Encode);
        }
        let count: usize = self.entries.len();
        if count > 81 * 255 || 80 * count + 1 > 81 * (n - 1) {
            return Err(CacheError::Encode);
        }
        let mut buffer: Vec<u8> = Vec::new();
        buffer.push((n - 1) as u8);
        let mut i: usize = 0;
        while i < count
            invariant
                es == self.entries@,
                count == es.len(),
                n == self.index_count,
                2 <= n <= 256,
                i <= count,
                buffer@ == seq![(n - 1) as u8] + concat_records(
                    es.subrange(0, i as int),
                    |e: Entry| signed_record(e),
                ),
                forall|k: int| 0 <= k < i ==> (#[trigger] es[k]).hash@.len() == 64,
            decreases count - i,
        {
            let entry: &Entry = &self.entries[i];
            if entry.hash.len() != DIGEST_LEN {
                assert(es[i as int].hash@.len() != 64);
                return Err(CacheError::Encode);
            }
            let ghost before = buffer@;
            push_be32(&mut buffer, entry.crc);
            push_be32(&mut buffer, entry.version);
            push_zeros(&mut buffer, 8);
            buffer.extend_from_slice(entry.hash.as_slice());
            proof {
                assert(buffer@ =~= before + signed_record(es[i as int]));
                let next = es.subrange(0, i + 1);
                assert(next.drop_last() =~= es.subrange(0, i as int));
                assert(next.last() == es[i as int]);
            }
            i = i + 1;
        }
        assert(es.subrange(0, count as int) =~= es);
        proof {
            let f = |e: Entry| signed_record(e);
            assert forall|k: int| 0 <= k < es.len() implies #[trigger] f(es[k]).len() == 80 by {}
            lemma_concat_stride(es, f, 80);
        }
        push_zeros(&mut buffer, 81 * (n - 1) - 1 - 80 * count);
        let digest: Vec<u8> = whirlpool(buffer.as_slice());
        let mut base: Vec<u8> = Vec::new();
        base.push(0u8);
        base.extend_from_slice(digest.as_slice());
        let signature: Vec<u8> = modpow(base.as_slice(), exponent, modulus);
        let ghost body = buffer@;
        assert(body == spec_signed_body(n, es));
        assert(base@ =~= seq![0u8] + whirlpool_of(body));
        buffer.extend_from_slice(signature.as_slice());
        assert(buffer@ =~= body + spec_signature(body, exponent@, modulus@));
        Ok(buffer)
    }
}

/// Encodes a manifest in the plain layout.
pub trait OsrsEncode: Sized {
    /// The bytes of the plain encoding.
    spec fn spec_plain_encoding(&self) -> Seq<u8>;

    fn encode(self) -> (r: Result<Vec<u8>, CacheError>)
        ensures
            r is Ok,
            r->Ok_0@ == self.spec_plain_encoding(),
    ;
}

/// Encodes a manifest in the signed layout, with a decimal exponent and modulus.
pub trait Rs3Encode: Sized {
    /// Whether the signed encoding succeeds with this key material.
    spec fn spec_signed_ok(&self, exponent: Seq<u8>, modulus: Seq<u8>) -> bool;

    /// The bytes of the signed encoding, signature included.
    spec fn spec_signed_encoding(&self, exponent: Seq<u8>, modulus: Seq<u8>) -> Seq<u8>;

    fn encode(self, exponent: &[u8], modulus: &[u8]) -> (r: Result<Vec<u8>, CacheError>)
        ensures
            r is Ok <==> self.spec_signed_ok(exponent@, modulus@),
            r is Ok ==> r->Ok_0@ == self.spec_signed_encoding(exponent@, modulus@),
            r is Err ==> r->Err_0 == CacheError::Encode,
    ;
}

impl OsrsEncode for Checksum {
    open spec fn spec_plain_encoding(&self) -> Seq<u8> {
        spec_plain(self.spec_entries())
    }

    fn encode(self) -> (r: Result<Vec<u8>, CacheError>) {
        Ok(self.encode_plain())
    }
}

impl Rs3Encode for Checksum {
    open spec fn spec_signed_ok(&self, exponent: Seq<u8>, modulus: Seq<u8>) -> bool {
        signed_ok(self.spec_index_count(), self.spec_entries(), exponent, modulus)
    }

    open spec fn spec_signed_encoding(&self, exponent: Seq<u8>, modulus: Seq<u8>) -> Seq<u8> {
        let body = spec_signed_body(self.spec_index_count(), self.spec_entries());
        body + spec_signature(body, exponent, modulus)
    }

    fn encode(self, exponent: &[u8], modulus: &[u8]) -> (r: Result<Vec<u8>, CacheError>) {
        self.encode_signed(exponent, modulus)
    }
}

} // verus!
