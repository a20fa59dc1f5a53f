//! Little-endian reads at a byte offset, failing instead of panicking when the
//! read would run past the end of the buffer.

use vstd::prelude::*;

verus! {

/// The unsigned value of the two bytes at `i`, least significant first.
pub open spec fn spec_u16(s: Seq<u8>, i: int) -> int {
    s[i] + 256 * s[i + 1]
}

/// The unsigned value of the four bytes at `i`, least significant first.
pub open spec fn spec_u32(s: Seq<u8>, i: int) -> int {
    s[i] + 256 * s[i + 1] + 65536 * s[i + 2] + 16777216 * s[i + 3]
}

/// The byte at offset `i`, if there is one.
pub fn u8(v: &[u8], i: usize) -> (res: Option<u8>)
    ensures
        res is Some <==> i < v@.len(),
        res matches Some(b) ==> b == v@[i as int],
{
    if i < v.len() {
        Some(v[i])
    } else {
        None
    }
}

/// The little-endian `u16` at offset `i`, if both of its bytes are present.
pub fn u16(v: &[u8], i: usize) -> (res: Option<u16>)
    ensures
        res is Some <==> i + 2 <= v@.len(),
        res matches Some(x) ==> x == spec_u16(v@, i as int),
        res matches Some(x) ==> x == v@[i as int] + 256 * v@[i + 1],
{
    if i < v.len() && v.len() - i >= 2 {
        let b0 = v[i] as u16;
        let b1 = v[i + 1] as u16;
        Some(b0 + 256 * b1)
    } else {
        None
    }
}

/// The little-endian `u32` at offset `i`, if all four of its bytes are present.
pub fn u32(v: &[u8], i: usize) -> (res: Option<u32>)
    ensures
        res is Some <==> i + 4 <= v@.len(),
        res matches Some(x) ==> x == spec_u32(v@, i as int),
        res matches Some(x) ==> x == v@[i as int] + 256 * v@[i + 1] + 65536 * v@[i + 2]
            + 16777216 * v@[i + 3],
{
    if i < v.len() && v.len() - i >= 4 {
        let b0 = v[i] as u32;
        let b1 = v[i + 1] as u32;
        let b2 = v[i + 2] as u32;
        let b3 = v[i + 3] as u32;
        Some(b0 + 256 * b1 + 65536 * b2 + 16777216 * b3)
    } else {
        None
    }
}

/// The two-byte read is little-endian and loses nothing: the low byte comes first, the
/// high byte second, and each can be recovered from the value.
pub proof fn lemma_u16_little_endian(s: Seq<u8>, i: int)
    requires
        0 <= i,
        i + 2 <= s.len(),
    ensures
        spec_u16(s, i) == s[i] + 256 * s[i + 1],
        0 <= spec_u16(s, i) < 0x1_0000,
        spec_u16(s, i) % 256 == s[i],
        spec_u16(s, i) / 256 == s[i + 1],
{
}

/// The four-byte read is little-endian and loses nothing: byte `i + k` carries the
/// value's bits `8k` to `8k + 7`.
pub proof fn lemma_u32_little_endian(s: Seq<u8>, i: int)
    requires
        0 <= i,
        i + 4 <= s.len(),
    ensures
        spec_u32(s, i) == s[i] + 256 * s[i + 1] + 65536 * s[i + 2] + 16777216 * s[i + 3],
        0 <= spec_u32(s, i) < 0x1_0000_0000,
        spec_u32(s, i) % 256 == s[i],
        (spec_u32(s, i) / 256) % 256 == s[i + 1],
        (spec_u32(s, i) / 65536) % 256 == s[i + 2],
        spec_u32(s, i) / 16777216 == s[i + 3],
{
}

} // verus!
