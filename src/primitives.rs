use vstd::prelude::*;

use num_bigint::{BigInt, Sign};
use vstd::arithmetic::power::pow;
use whirlpool::{Digest, Whirlpool};

verus! {

/// The IEEE CRC-32 of a byte sequence.
pub uninterp spec fn crc32_of(b: Seq<u8>) -> u32;

/// The 64-byte Whirlpool digest of a byte sequence.
pub uninterp spec fn whirlpool_of(b: Seq<u8>) -> Seq<u8>;


/// The number that big-endian bytes denote.
pub open spec fn be_value(s: Seq<u8>) -> nat
    decreases s.len(),
{
    if s.len() == 0 {
        0
    } else {
        be_value(s.drop_last()) * 256 + s.last() as nat
    }
}

/// The shortest big-endian bytes of `v`: a single byte below 256 (`[0]` for zero), otherwise
/// no leading zero byte.
pub open spec fn be_bytes_min(v: nat) -> Seq<u8>
    decreases v,
{
    if v < 256 {
        seq![v as u8]
    } else {
        be_bytes_min(v / 256).push((v % 256) as u8)
    }
}

/// `base`, read as an unsigned big-endian integer, raised to the decimal `exponent` modulo
/// the decimal `modulus`, written as the shortest big-endian bytes.
pub open spec fn spec_modpow(base: Seq<u8>, exponent: Seq<u8>, modulus: Seq<u8>) -> Seq<u8> {
    be_bytes_min((pow(be_value(base) as int, decimal_value(exponent)) % (decimal_value(modulus) as int)) as nat)
}

/// The number that a text of decimal digits denotes.
pub open spec fn decimal_value(s: Seq<u8>) -> nat
    decreases s.len(),
{
    if s.len() == 0 {
        0
    } else {
        decimal_value(s.drop_last()) * 10 + (s.last() as int - 48) as nat
    }
}

/// A non-empty text of ASCII decimal digits.
pub open spec fn is_decimal(s: Seq<u8>) -> bool {
    s.len() > 0 && forall|i: int| 0 <= i < s.len() ==> 48 <= #[trigger] s[i] <= 57
}

/// A decimal text holding at least one digit other than zero.
pub open spec fn is_nonzero_decimal(s: Seq<u8>) -> bool {
    is_decimal(s) && exists|i: int| 0 <= i < s.len() && #[trigger] s[i] != 48
}

/// Relies on crc::crc32::checksum_ieee: the IEEE CRC-32 of the bytes, which depends on them alone.
#[verifier::external_body]
pub(crate) fn crc32(b: &[u8]) -> (r: u32)
    ensures
        r == crc32_of(b@),
{
    crc::crc32::checksum_ieee(b)
}

/// Relies on whirlpool::Whirlpool::digest: a 64-byte digest that depends on the bytes alone.
#[verifier::external_body]
pub(crate) fn whirlpool(b: &[u8]) -> (r: Vec<u8>)
    ensures
        r@ == whirlpool_of(b@),
        r@.len() == 64,
{
    Whirlpool::digest(b).to_vec()
}

/// Relies on num_bigint::BigInt::modpow, its arguments parsed with BigInt::parse_bytes
/// (radix 10) and BigInt::from_bytes_be, its result written with BigInt::to_bytes_be.
/// Decimal texts always parse, and a modulus other than zero keeps modpow from panicking;
/// with a positive modulus the result lies in `[0, modulus)`, and `to_bytes_be` writes its
/// magnitude with no leading zero byte (`[0]` for zero).
#[verifier::external_body]
pub(crate) fn modpow(base: &[u8], exponent: &[u8], modulus: &[u8]) -> (r: Vec<u8>)
    requires
        is_decimal(exponent@),
        is_nonzero_decimal(modulus@),
    ensures
        r@ == spec_modpow(base@, exponent@, modulus@),
{
    let exponent = BigInt::parse_bytes(exponent, 10).unwrap_or_default();
    let modulus = BigInt::parse_bytes(modulus, 10).unwrap_or_default();
    BigInt::from_bytes_be(Sign::Plus, base).modpow(&exponent, &modulus).to_bytes_be().1
}

/// Whether `s` is a non-empty text of decimal digits.
pub fn check_decimal(s: &[u8]) -> (r: bool)
    ensures
        r == is_decimal(s@),
{
    if s.len() == 0 {
        return false;
    }
    let mut i: usize = 0;
    while i < s.len()
        invariant
            i <= s@.len(),
            forall|k: int| 0 <= k < i ==> 48 <= #[trigger] s@[k] <= 57,
        decreases s@.len() - i,
    {
        if s[i] < 48 || s[i] > 57 {
            return false;
        }
        i = i + 1;
    }
    true
}

/// Whether `s` is a decimal text naming a number other than zero.
pub fn check_nonzero_decimal(s: &[u8]) -> (r: bool)
    ensures
        r == is_nonzero_decimal(s@),
{
    if !check_decimal(s) {
        return false;
    }
    let mut i: usize = 0;
    while i < s.len()
        invariant
            i <= s@.len(),
            is_decimal(s@),
            forall|k: int| 0 <= k < i ==> #[trigger] s@[k] == 48,
        decreases s@.len() - i,
    {
        if s[i] != 48 {
            assert(s@[i as int] != 48);
            return true;
        }
        i = i + 1;
    }
    assert(forall|k: int| 0 <= k < s@.len() ==> #[trigger] s@[k] == 48);
    false
}

} // verus!
