//! Little-endian integers on the wire.

use vstd::prelude::*;

verus! {

/// The two bytes of `v`, least significant first.
pub open spec fn u16_le_bytes(v: u16) -> Seq<u8> {
    seq![(v % 256) as u8, (v / 256) as u8]
}

/// The 16-bit integer whose little-endian bytes are `lo`, `hi`.
pub open spec fn le_u16(lo: u8, hi: u8) -> u16 {
    (lo + 256 * hi) as u16
}

/// The four bytes of `v`, least significant first.
pub open spec fn u32_le_bytes(v: u32) -> Seq<u8> {
    seq![
        (v % 256) as u8,
        ((v / 256) % 256) as u8,
        ((v / 65536) % 256) as u8,
        (v / 16777216) as u8,
    ]
}

/// The 32-bit integer whose little-endian bytes are the first four of `s`.
#[verifier::opaque]
pub open spec fn le_u32(s: Seq<u8>) -> u32
    recommends
        s.len() >= 4,
{
    (s[0] + 256 * s[1] + 65536 * s[2] + 16777216 * s[3]) as u32
}

/// Decoding undoes encoding, for both widths.
pub proof fn lemma_le_round_trip(v16: u16, v32: u32)
    ensures
        u16_le_bytes(v16).len() == 2,
        le_u16(u16_le_bytes(v16)[0], u16_le_bytes(v16)[1]) == v16,
        u32_le_bytes(v32).len() == 4,
        le_u32(u32_le_bytes(v32)) == v32,
{
    reveal(le_u32);
}

/// The integer depends on the first four bytes only.
pub proof fn lemma_le_u32_prefix(s: Seq<u8>, t: Seq<u8>)
    requires
        s.len() >= 4,
        t.len() >= 4,
        s.subrange(0, 4) == t.subrange(0, 4),
    ensures
        le_u32(s) == le_u32(t),
{
    reveal(le_u32);
    assert(s[0] == s.subrange(0, 4)[0] && s[1] == s.subrange(0, 4)[1]);
    assert(s[2] == s.subrange(0, 4)[2] && s[3] == s.subrange(0, 4)[3]);
    assert(t[0] == t.subrange(0, 4)[0] && t[1] == t.subrange(0, 4)[1]);
    assert(t[2] == t.subrange(0, 4)[2] && t[3] == t.subrange(0, 4)[3]);
}

/// Calls `endio::LEWrite::write` with a `u32` on a `Vec<u8>`: endio hands
/// `v.to_le_bytes()` to the vector's `write_all`, which appends them and
/// cannot fail.
#[verifier::external_body]
pub(crate) fn put_u32(out: &mut Vec<u8>, v: u32)
    ensures
        final(out)@ == old(out)@ + u32_le_bytes(v),
{
    let _ = endio::LEWrite::write(out, v);
}

/// Calls `endio::LEWrite::write` with a `u16` on a `Vec<u8>`: endio hands
/// `v.to_le_bytes()` to the vector's `write_all`, which appends them and
/// cannot fail.
#[verifier::external_body]
pub(crate) fn put_u16(out: &mut Vec<u8>, v: u16)
    ensures
        final(out)@ == old(out)@ + u16_le_bytes(v),
{
    let _ = endio::LEWrite::write(out, v);
}

/// Calls `endio::LERead::read` for a `u16` on a byte slice: endio reads
/// exactly two bytes with `read_exact` and decodes them with
/// `u16::from_le_bytes`; a slice shorter than two bytes gives an error.
#[verifier::external_body]
pub(crate) fn get_u16(bytes: &[u8]) -> (r: Option<u16>)
    ensures
        bytes@.len() < 2 ==> r is None,
        bytes@.len() >= 2 ==> r == Some(le_u16(bytes@[0], bytes@[1])),
{
    let mut reader: &[u8] = bytes;
    endio::LERead::read(&mut reader).ok()
}

/// Decodes a four-byte little-endian length.
pub fn u32_from_le(b: &[u8; 4]) -> (v: u32)
    ensures
        v == le_u32(b@),
{
    proof {
        reveal(le_u32);
    }
    let b0: u32 = b[0] as u32;
    let b1: u32 = b[1] as u32;
    let b2: u32 = b[2] as u32;
    let b3: u32 = b[3] as u32;
    b0 + 256 * b1 + 65536 * b2 + 16777216 * b3
}

} // verus!
