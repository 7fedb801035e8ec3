//! Little-endian reads from an in-memory byte buffer. Every parser below sits
//! on these: a position is passed explicitly, so a nested read can never
//! disturb a caller's cursor.

use vstd::prelude::*;

verus! {

/// The 16-bit little-endian value stored at `pos`.
pub open spec fn le16(data: Seq<u8>, pos: int) -> int
    recommends
        0 <= pos,
        pos + 2 <= data.len(),
{
    data[pos] + data[pos + 1] * 0x100
}

/// The 32-bit little-endian value stored at `pos`.
pub open spec fn le32(data: Seq<u8>, pos: int) -> int
    recommends
        0 <= pos,
        pos + 4 <= data.len(),
{
    data[pos] + data[pos + 1] * 0x100 + data[pos + 2] * 0x1_0000 + data[pos + 3] * 0x100_0000
}

/// Reads the byte at `pos`.
pub fn read_u8(data: &[u8], pos: usize) -> (r: u8)
    requires
        pos < data@.len(),
    ensures
        r == data@[pos as int],
{
    data[pos]
}

/// Reads a 16-bit little-endian value at `pos`.
pub fn read_u16(data: &[u8], pos: usize) -> (r: u16)
    requires
        pos + 2 <= data@.len(),
    ensures
        r == le16(data@, pos as int),
{
    data[pos] as u16 + data[pos + 1] as u16 * 0x100
}

/// Reads a 32-bit little-endian value at `pos`.
pub fn read_u32(data: &[u8], pos: usize) -> (r: u32)
    requires
        pos + 4 <= data@.len(),
    ensures
        r == le32(data@, pos as int),
{
    data[pos] as u32 + data[pos + 1] as u32 * 0x100 + data[pos + 2] as u32 * 0x1_0000
        + data[pos + 3] as u32 * 0x100_0000
}

/// The 64-bit little-endian value stored at `pos`.
pub open spec fn le64(data: Seq<u8>, pos: int) -> int
    recommends
        0 <= pos,
        pos + 8 <= data.len(),
{
    le32(data, pos) + le32(data, pos + 4) * 0x1_0000_0000
}

/// Reads a 64-bit little-endian value at `pos`.
pub fn read_u64(data: &[u8], pos: usize) -> (r: u64)
    requires
        pos + 8 <= data@.len(),
    ensures
        r == le64(data@, pos as int),
{
    let len: usize = data.len();
    assert(pos + 4 <= len);
    let lo = read_u32(data, pos);
    let hi = read_u32(data, pos + 4);
    lo as u64 + hi as u64 * 0x1_0000_0000
}

/// Copies `data[pos .. pos + n]` into an owned buffer.
pub fn read_bytes(data: &[u8], pos: usize, n: usize) -> (r: Vec<u8>)
    requires
        pos + n <= data@.len(),
    ensures
        r@ == data@.subrange(pos as int, pos as int + n as int),
{
    let len: usize = data.len();
    let mut r: Vec<u8> = Vec::new();
    let mut i: usize = 0;
    while i < n
        invariant
            i <= n,
            len == data@.len(),
            pos + n <= len,
            r@ == data@.subrange(pos as int, pos as int + i as int),
        decreases n - i,
    {
        r.push(data[pos + i]);
        assert(r@ =~= data@.subrange(pos as int, pos as int + (i + 1) as int));
        i = i + 1;
    }
    r
}

} // verus!
