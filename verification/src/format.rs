//! The byte layout shared by the reader and the builder: the magic value, the
//! header geometry and the little-endian encoding of 32-bit integers.

use vstd::prelude::*;

verus! {

/// Length of the magic value that opens every archive.
pub const MAGIC_LEN: usize = 8;

/// Position of the version byte.
pub const VERSION_AT: usize = 8;

/// Position of the 32-bit pointer to the manifest.
pub const MANIFEST_PTR_AT: usize = 12;

/// Length of the fixed header; the builder places the manifest right behind it.
pub const HEADER_LEN: usize = 16;

/// Length of the fixed part of a manifest record: two copies of the size, the
/// payload offset and the length of the name.
pub const RECORD_FIXED_LEN: usize = 16;

/// The magic value, the ASCII text `FAR!byAZ`.
pub open spec fn magic() -> Seq<u8> {
    seq![0x46u8, 0x41u8, 0x52u8, 0x21u8, 0x62u8, 0x79u8, 0x41u8, 0x5au8]
}

/// The 32-bit integer stored little-endian in the four bytes of `bytes` that
/// start at `at`.
pub open spec fn le_u32(bytes: Seq<u8>, at: int) -> u32
    recommends
        0 <= at,
        at + 4 <= bytes.len(),
{
    (bytes[at] as int + 256 * (bytes[at + 1] as int) + 65536 * (bytes[at + 2] as int) + 16777216
        * (bytes[at + 3] as int)) as u32
}

/// The four bytes that store `x` little-endian.
pub open spec fn u32_le_bytes(x: u32) -> Seq<u8> {
    seq![
        (x % 256) as u8,
        ((x / 256) % 256) as u8,
        ((x / 65536) % 256) as u8,
        ((x / 16777216) % 256) as u8,
    ]
}

/// Decoding undoes encoding, wherever the four bytes stand.
pub proof fn lemma_le_u32_of_bytes(bytes: Seq<u8>, at: int, x: u32)
    requires
        0 <= at,
        at + 4 <= bytes.len(),
        bytes.subrange(at, at + 4) == u32_le_bytes(x),
    ensures
        le_u32(bytes, at) == x,
{
    let s = bytes.subrange(at, at + 4);
    assert(s[0] == bytes[at] && s[1] == bytes[at + 1] && s[2] == bytes[at + 2] && s[3] == bytes[at
        + 3]);
}

/// Reads the little-endian 32-bit integer at `at`.
pub fn read_u32_le(bytes: &Vec<u8>, at: usize) -> (x: Option<u32>)
    ensures
        x is Some <==> at + 4 <= bytes@.len(),
        x matches Some(v) ==> v == le_u32(bytes@, at as int),
{
    if bytes.len() < 4 || at > bytes.len() - 4 {
        return None;
    }
    let b0 = bytes[at] as u32;
    let b1 = bytes[at + 1] as u32;
    let b2 = bytes[at + 2] as u32;
    let b3 = bytes[at + 3] as u32;
    Some(b0 + 256 * b1 + 65536 * b2 + 16777216 * b3)
}

/// Appends the little-endian bytes of `x` to `out`.
pub fn write_u32_le(out: &mut Vec<u8>, x: u32)
    ensures
        final(out)@ == old(out)@ + u32_le_bytes(x),
{
    out.push((x % 256) as u8);
    out.push(((x / 256) % 256) as u8);
    out.push(((x / 65536) % 256) as u8);
    out.push(((x / 16777216) % 256) as u8);
    assert(out@ =~= old(out)@ + u32_le_bytes(x));
}

/// Tells whether `bytes` opens with the magic value.
pub fn has_magic(bytes: &Vec<u8>) -> (b: bool)
    ensures
        b <==> (bytes@.len() >= MAGIC_LEN && bytes@.subrange(0, MAGIC_LEN as int) == magic()),
{
    if bytes.len() < MAGIC_LEN {
        return false;
    }
    let b = bytes[0] == 0x46 && bytes[1] == 0x41 && bytes[2] == 0x52 && bytes[3] == 0x21
        && bytes[4] == 0x62 && bytes[5] == 0x79 && bytes[6] == 0x41 && bytes[7] == 0x5a;
    proof {
        let head = bytes@.subrange(0, MAGIC_LEN as int);
        if b {
            assert(head =~= magic());
        } else {
            assert(head[0] == bytes@[0] && head[1] == bytes@[1] && head[2] == bytes@[2]
                && head[3] == bytes@[3] && head[4] == bytes@[4] && head[5] == bytes@[5]
                && head[6] == bytes@[6] && head[7] == bytes@[7]);
        }
    }
    b
}

/// Appends the magic value to `out`.
pub fn write_magic(out: &mut Vec<u8>)
    ensures
        final(out)@ == old(out)@ + magic(),
{
    out.push(0x46);
    out.push(0x41);
    out.push(0x52);
    out.push(0x21);
    out.push(0x62);
    out.push(0x79);
    out.push(0x41);
    out.push(0x5a);
    assert(out@ =~= old(out)@ + magic());
}

} // verus!
