use vstd::prelude::*;

use crate::error::CacheError;
use crate::sector::{be16, be32, read_be16, read_be32};

verus! {

/// A record as a partition's descriptor lists it: its id and the hash of its name
/// (zero where the descriptor carries no names).
#[derive(Clone, Copy, Debug, PartialEq, Eq, Structural)]
pub struct Archive {
    pub id: u32,
    pub name_hash: i32,
}

/// One step of the name hash: `h * 31 + c`, modulo 2^32.
pub open spec fn djd2_step(h: u32, c: u8) -> u32 {
    ((h as int * 31 + c as int) % 0x1_0000_0000) as u32
}

/// The hash of a name's bytes before the final reinterpretation as `i32`.
pub open spec fn djd2_bits(s: Seq<u8>) -> u32
    decreases s.len(),
{
    if s.len() == 0 {
        0
    } else {
        djd2_step(djd2_bits(s.drop_last()), s.last())
    }
}

/// The hash that descriptors store for a name: `h = h * 31 + c` over its bytes, wrapping.
pub open spec fn spec_djd2(s: Seq<u8>) -> i32 {
    #[verifier::truncate] (djd2_bits(s) as i32)
}

/// Hashes a name as descriptors store it.
pub fn djd2(name: &[u8]) -> (r: i32)
    ensures
        r == spec_djd2(name@),
{
    let mut h: u32 = 0;
    let mut i: usize = 0;
    while i < name.len()
        invariant
            i <= name@.len(),
            h == djd2_bits(name@.subrange(0, i as int)),
        decreases name@.len() - i,
    {
        let next: u64 = ((h as u64) * 31 + name[i] as u64) % 0x1_0000_0000;
        proof {
            let pre = name@.subrange(0, i + 1);
            assert(pre.drop_last() =~= name@.subrange(0, i as int));
        }
        h = next as u32;
        i = i + 1;
    }
    assert(name@.subrange(0, name@.len() as int) =~= name@);
    #[verifier::truncate] (h as i32)
}

/// Reads a count or an id delta at `pos`: a 16-bit value, or, where `wide`, a value whose
/// first byte tells 16 bits (top bit clear) from 31 bits (top bit set).
pub open spec fn spec_var(s: Seq<u8>, pos: nat, wide: bool) -> Option<(nat, nat)> {
    if wide && pos < s.len() && s[pos as int] >= 128 {
        if pos + 4 <= s.len() {
            Some(((be32(s, pos as int) - 0x8000_0000) as nat, pos + 4))
        } else {
            None
        }
    } else if pos + 2 <= s.len() {
        Some((be16(s, pos as int), pos + 2))
    } else {
        None
    }
}

/// Reads `n` delta-coded ids from `pos`, the first delta counted from `last`; gives the ids
/// and the position after them.
pub open spec fn spec_ids(s: Seq<u8>, pos: nat, wide: bool, n: nat, last: u32) -> Option<(Seq<u32>, nat)>
    decreases n,
{
    if n == 0 {
        Some((Seq::empty(), pos))
    } else {
        match spec_var(s, pos, wide) {
            None => None,
            Some((d, next)) => {
                let id = ((last as int + d) % 0x1_0000_0000) as u32;
                match spec_ids(s, next, wide, (n - 1) as nat, id) {
                    None => None,
                    Some((rest, end)) => Some((seq![id] + rest, end)),
                }
            },
        }
    }
}

/// The records a decoded descriptor lists, in order, or `None` where it is malformed.
///
/// Layout: protocol byte (5 to 7); a 4-byte revision from protocol 6; a flags byte whose low
/// bit marks named records; the record count; the delta-coded ids; then, for named
/// descriptors, one 4-byte name hash per record. Counts and deltas are 16-bit before
/// protocol 7 and variable-width from it.
pub open spec fn spec_descriptor(s: Seq<u8>) -> Option<Seq<Archive>> {
    if s.len() == 0 || s[0] < 5 || s[0] > 7 {
        None
    } else {
        let protocol = s[0];
        let wide = protocol >= 7;
        let fpos: nat = if protocol >= 6 { 5 } else { 1 };
        if fpos >= s.len() {
            None
        } else {
            let named = s[fpos as int] % 2 == 1;
            match spec_var(s, fpos + 1, wide) {
                None => None,
                Some((n, ipos)) => match spec_ids(s, ipos, wide, n, 0) {
                    None => None,
                    Some((ids, npos)) => if !named {
                        Some(Seq::new(n, |k: int| Archive { id: ids[k], name_hash: 0 }))
                    } else if npos + 4 * n <= s.len() {
                        Some(
                            Seq::new(
                                n,
                                |k: int| Archive { id: ids[k], name_hash: #[verifier::truncate] (be32(s, npos + 4 * k) as u32 as i32) },
                            ),
                        )
                    } else {
                        None
                    },
                },
            }
        }
    }
}

/// Reads a count or id delta (see `spec_var`).
fn read_var(s: &[u8], pos: usize, wide: bool) -> (r: Option<(u32, usize)>)
    ensures
        match spec_var(s@, pos as nat, wide) {
            None => r is None,
            Some((v, next)) => r is Some && r->Some_0.0 == v && r->Some_0.1 == next,
        },
{
    let len: usize = s.len();
    if wide && pos < len && s[pos] >= 128 {
        if pos <= len && 4 <= len - pos {
            Some((read_be32(s, pos) - 0x8000_0000, pos + 4))
        } else {
            None
        }
    } else if pos <= len && 2 <= len - pos {
        Some((read_be16(s, pos) as u32, pos + 2))
    } else {
        None
    }
}

/// Parses the record list of a decoded descriptor.
pub fn parse_descriptor(s: &[u8]) -> (r: Option<Vec<Archive>>)
    ensures
        match spec_descriptor(s@) {
            None => r is None,
            Some(archives) => r is Some && r->Some_0@ == archives,
        },
{
    let len: usize = s.len();
    if len == 0 || s[0] < 5 || s[0] > 7 {
        return None;
    }
    let protocol: u8 = s[0];
    let wide: bool = protocol >= 7;
    let fpos: usize = if protocol >= 6 { 5 } else { 1 };
    if fpos >= len {
        return None;
    }
    let named: bool = s[fpos] % 2 == 1;
    let (n, ipos) = match read_var(s, fpos + 1, wide) {
        None => {
            return None;
        },
        Some(v) => v,
    };
    let ghost whole = spec_ids(s@, ipos as nat, wide, n as nat, 0);
    let mut ids: Vec<u32> = Vec::new();
    let mut pos: usize = ipos;
    let mut last: u32 = 0;
    let mut k: u32 = 0;
    while k < n
        invariant
            len == s@.len(),
            0 < s@.len(),
            5 <= s@[0] <= 7,
            wide == (s@[0] >= 7),
            fpos == (if s@[0] >= 6 { 5usize } else { 1usize }),
            fpos < len,
            named == (s@[fpos as int] % 2 == 1),
            spec_var(s@, (fpos + 1) as nat, wide) == Some((n as nat, ipos as nat)),
            whole == spec_ids(s@, ipos as nat, wide, n as nat, 0),
            k <= n,
            ids@.len() == k,
            whole == match spec_ids(s@, pos as nat, wide, (n - k) as nat, last) {
                None => None,
                Some((rest, end)) => Some((ids@ + rest, end)),
            },
        decreases n - k,
    {
        let (d, next) = match read_var(s, pos, wide) {
            None => {
                assert(spec_ids(s@, pos as nat, wide, (n - k) as nat, last) is None);
                return None;
            },
            Some(v) => v,
        };
        let id: u32 = ((last as u64 + d as u64) % 0x1_0000_0000) as u32;
        let ghost before = ids@;
        ids.push(id);
        proof {
            match spec_ids(s@, next as nat, wide, (n - k - 1) as nat, id) {
                None => {},
                Some((rest, end)) => {
                    assert(before + (seq![id] + rest) =~= ids@ + rest);
                },
            }
        }
        pos = next;
        last = id;
        k = k + 1;
    }
    assert(ids@ + Seq::<u32>::empty() =~= ids@);
    assert(whole == Some((ids@, pos as nat)));
    assert(spec_var(s@, (fpos + 1) as nat, wide) == Some((n as nat, ipos as nat)));
    let mut archives: Vec<Archive> = Vec::new();
    if named && !(pos <= len && (n as usize) <= (len - pos) / 4) {
        return None;
    }
    let mut i: usize = 0;
    while i < n as usize
        invariant
            len == s@.len(),
            0 < s@.len(),
            5 <= s@[0] <= 7,
            wide == (s@[0] >= 7),
            fpos == (if s@[0] >= 6 { 5usize } else { 1usize }),
            fpos < len,
            named == (s@[fpos as int] % 2 == 1),
            spec_var(s@, (fpos + 1) as nat, wide) == Some((n as nat, ipos as nat)),
            whole == spec_ids(s@, ipos as nat, wide, n as nat, 0),
            whole == Some((ids@, pos as nat)),
            i <= n,
            ids@.len() == n,
            archives@.len() == i,
            named ==> pos + 4 * n <= len,
            forall|j: int|
                0 <= j < i ==> #[trigger] archives@[j] == (if named {
                    Archive { id: ids@[j], name_hash: #[verifier::truncate] (be32(s@, pos + 4 * j) as u32 as i32) }
                } else {
                    Archive { id: ids@[j], name_hash: 0 }
                }),
        decreases n - i,
    {
        let name_hash: i32 = if named {
            assert(pos + 4 * i + 4 <= len) by (nonlinear_arith)
                requires
                    i < n,
                    pos + 4 * n <= len,
            ;
            #[verifier::truncate] (read_be32(s, pos + 4 * i) as i32)
        } else {
            0
        };
        archives.push(Archive { id: ids[i], name_hash });
        i = i + 1;
    }
    proof {
        let sp = spec_descriptor(s@);
        assert(sp is Some);
        assert(archives@ =~= sp->Some_0);
    }
    Some(archives)
}

} // verus!
