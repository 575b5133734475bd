//! Little-endian integer decoding shared by all the binary formats.
use vstd::prelude::*;

verus! {

/// The little-endian `u16` stored at `s[i..i + 2]`.
pub open spec fn le_u16(s: Seq<u8>, i: int) -> u16 {
    (s[i] as int + 256 * s[i + 1]) as u16
}

/// The little-endian `u32` stored at `s[i..i + 4]`.
pub open spec fn le_u32(s: Seq<u8>, i: int) -> u32 {
    (s[i] as int + 256 * s[i + 1] + 65536 * s[i + 2] + 16777216 * s[i + 3]) as u32
}

/// Whether `n` bytes starting at `pos` lie inside `s`.
pub open spec fn fits(s: Seq<u8>, pos: int, n: int) -> bool {
    0 <= pos && pos + n <= s.len()
}

/// Decodes the little-endian `u16` at `bytes[i..i + 2]`.
pub fn u16_at(bytes: &[u8], i: usize) -> (r: u16)
    requires
        i + 2 <= bytes@.len(),
    ensures
        r == le_u16(bytes@, i as int),
{
    let b0 = bytes[i] as u16;
    let b1 = bytes[i + 1] as u16;
    b0 + b1 * 256
}

/// Decodes the little-endian `u32` at `bytes[i..i + 4]`.
pub fn u32_at(bytes: &[u8], i: usize) -> (r: u32)
    requires
        i + 4 <= bytes@.len(),
    ensures
        r == le_u32(bytes@, i as int),
{
    let b0 = bytes[i] as u32;
    let b1 = bytes[i + 1] as u32;
    let b2 = bytes[i + 2] as u32;
    let b3 = bytes[i + 3] as u32;
    b0 + b1 * 256 + b2 * 65536 + b3 * 16777216
}

/// Whether `n` bytes starting at `pos` lie inside `bytes`, computed without overflow.
pub fn has_room(bytes: &[u8], pos: usize, n: usize) -> (r: bool)
    ensures
        r == fits(bytes@, pos as int, n as int),
        r ==> pos + n <= bytes.len(),
{
    pos <= bytes.len() && n <= bytes.len() - pos
}

/// The deep view of a byte vector is its view.
pub broadcast proof fn lemma_bytes_deep_view(v: Vec<u8>)
    ensures
        #[trigger] v.deep_view() == v@,
{
}

} // verus!
