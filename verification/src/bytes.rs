//! Little-endian fields of a byte string.

use vstd::prelude::*;

verus! {

/// The 16-bit little-endian number at `at`.
pub open spec fn word16(b: Seq<u8>, at: int) -> int {
    b[at] + 256 * b[at + 1]
}

/// The 32-bit little-endian number at `at`.
pub open spec fn word32(b: Seq<u8>, at: int) -> int {
    word16(b, at) + 0x1_0000 * word16(b, at + 2)
}

/// The 64-bit little-endian number at `at`.
pub open spec fn word64(b: Seq<u8>, at: int) -> int {
    word32(b, at) + 0x1_0000_0000 * word32(b, at + 4)
}

/// What a field of `width` bytes at `at` holds, if it lies inside `b`.
pub open spec fn field16(b: Seq<u8>, at: int) -> Option<u64> {
    if 0 <= at && at + 2 <= b.len() {
        Some(word16(b, at) as u64)
    } else {
        None
    }
}

pub open spec fn field32(b: Seq<u8>, at: int) -> Option<u64> {
    if 0 <= at && at + 4 <= b.len() {
        Some(word32(b, at) as u64)
    } else {
        None
    }
}

pub open spec fn field64(b: Seq<u8>, at: int) -> Option<u64> {
    if 0 <= at && at + 8 <= b.len() {
        Some(word64(b, at) as u64)
    } else {
        None
    }
}

/// The 16-bit little-endian field at `at`, or `None` where it runs past the end.
pub fn le16(b: &[u8], at: usize) -> (r: Option<u64>)
    ensures
        r == field16(b@, at as int),
        r matches Some(v) ==> v < 0x1_0000 && v == word16(b@, at as int),
{
    if b.len() < 2 || at > b.len() - 2 {
        return None;
    }
    Some(b[at] as u64 + 256 * (b[at + 1] as u64))
}

/// The 32-bit little-endian field at `at`, or `None` where it runs past the end.
pub fn le32(b: &[u8], at: usize) -> (r: Option<u64>)
    ensures
        r == field32(b@, at as int),
        r matches Some(v) ==> v < 0x1_0000_0000 && v == word32(b@, at as int),
{
    if b.len() < 4 || at > b.len() - 4 {
        return None;
    }
    let low: u64 = b[at] as u64 + 256 * (b[at + 1] as u64);
    let high: u64 = b[at + 2] as u64 + 256 * (b[at + 3] as u64);
    Some(low + 0x1_0000 * high)
}

/// The 64-bit little-endian field at `at`, or `None` where it runs past the end.
pub fn le64(b: &[u8], at: usize) -> (r: Option<u64>)
    ensures
        r == field64(b@, at as int),
        r matches Some(v) ==> v == word64(b@, at as int),
{
    if b.len() < 8 || at > b.len() - 8 {
        return None;
    }
    match (le32(b, at), le32(b, at + 4)) {
        (Some(low), Some(high)) => Some(low + 0x1_0000_0000 * high),
        _ => None,
    }
}

/// A field has its lowest byte first, and one that runs past the end is no field.
pub proof fn law_the_lowest_byte_stands_first(b: Seq<u8>, at: int)
    ensures
        0 <= at && at + 2 <= b.len() ==> field16(b, at) is Some && field16(b, at)->0 == b[at] + 0x100
            * b[at + 1],
        0 <= at && at + 4 <= b.len() ==> field32(b, at) is Some && field32(b, at)->0 == b[at] + 0x100
            * b[at + 1] + 0x1_0000 * b[at + 2] + 0x100_0000 * b[at + 3],
        0 <= at && at + 8 <= b.len() ==> field64(b, at) is Some && field64(b, at)->0 == b[at] + 0x100
            * b[at + 1] + 0x1_0000 * b[at + 2] + 0x100_0000 * b[at + 3] + 0x1_0000_0000 * b[at + 4]
            + 0x100_0000_0000 * b[at + 5] + 0x1_0000_0000_0000 * b[at + 6] + 0x100_0000_0000_0000
            * b[at + 7],
        at + 2 > b.len() ==> field16(b, at) is None,
        at + 4 > b.len() ==> field32(b, at) is None,
        at + 8 > b.len() ==> field64(b, at) is None,
{
}

} // verus!
