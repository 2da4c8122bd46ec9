//! Little-endian fixed-width fields inside a byte buffer.
use vstd::prelude::*;

verus! {

/// Byte `k` (0 = least significant) of `v`.
pub open spec fn le_byte(v: u64, k: int) -> u8 {
    ((v >> ((8 * k) as u64)) & 0xff) as u8
}

/// `b` with the `n` bytes at `off` replaced by the low `n` bytes of `v`, little-endian.
pub open spec fn put_le(b: Seq<u8>, off: int, n: int, v: u64) -> Seq<u8> {
    Seq::new(b.len(), |i: int| if off <= i < off + n { le_byte(v, i - off) } else { b[i] })
}

pub open spec fn put_u32(b: Seq<u8>, off: int, v: u32) -> Seq<u8> {
    put_le(b, off, 4, v as u64)
}

pub open spec fn put_u64(b: Seq<u8>, off: int, v: u64) -> Seq<u8> {
    put_le(b, off, 8, v)
}

/// The 32-bit little-endian value stored at `off`.
pub open spec fn get_u32(b: Seq<u8>, off: int) -> u32 {
    ((b[off] as u32) | ((b[off + 1] as u32) << 8u32) | ((b[off + 2] as u32) << 16u32) | ((
    b[off + 3] as u32) << 24u32)) as u32
}

/// The 64-bit little-endian value stored at `off`.
pub open spec fn get_u64(b: Seq<u8>, off: int) -> u64 {
    ((b[off] as u64) | ((b[off + 1] as u64) << 8u64) | ((b[off + 2] as u64) << 16u64) | ((
    b[off + 3] as u64) << 24u64) | ((b[off + 4] as u64) << 32u64) | ((b[off + 5] as u64)
        << 40u64) | ((b[off + 6] as u64) << 48u64) | ((b[off + 7] as u64) << 56u64)) as u64
}

/// Decoding a field that was just encoded gives back the value.
pub proof fn lemma_get_put_u64(b: Seq<u8>, off: int, v: u64)
    requires
        0 <= off,
        off + 8 <= b.len(),
    ensures
        get_u64(put_u64(b, off, v), off) == v,
{
    let p = put_u64(b, off, v);
    assert(p[off] == le_byte(v, 0) && p[off + 1] == le_byte(v, 1) && p[off + 2] == le_byte(v, 2)
        && p[off + 3] == le_byte(v, 3) && p[off + 4] == le_byte(v, 4) && p[off + 5] == le_byte(v, 5)
        && p[off + 6] == le_byte(v, 6) && p[off + 7] == le_byte(v, 7));
    assert(((((v >> 0u64) & 0xff) as u8) as u64 | (((((v >> 8u64) & 0xff) as u8) as u64) << 8u64)
        | (((((v >> 16u64) & 0xff) as u8) as u64) << 16u64) | (((((v >> 24u64) & 0xff) as u8) as u64)
        << 24u64) | (((((v >> 32u64) & 0xff) as u8) as u64) << 32u64) | (((((v >> 40u64) & 0xff) as u8) as u64)
        << 40u64) | (((((v >> 48u64) & 0xff) as u8) as u64) << 48u64) | (((((v >> 56u64) & 0xff) as u8) as u64)
        << 56u64)) == v) by (bit_vector);
}

/// Decoding a field that was just encoded gives back the value.
pub proof fn lemma_get_put_u32(b: Seq<u8>, off: int, v: u32)
    requires
        0 <= off,
        off + 4 <= b.len(),
    ensures
        get_u32(put_u32(b, off, v), off) == v,
{
    let p = put_u32(b, off, v);
    let w = v as u64;
    assert(p[off] == le_byte(w, 0) && p[off + 1] == le_byte(w, 1) && p[off + 2] == le_byte(w, 2)
        && p[off + 3] == le_byte(w, 3));
    assert(((((v as u64 >> 0u64) & 0xff) as u8) as u32 | (((((v as u64 >> 8u64) & 0xff) as u8) as u32) << 8u32)
        | (((((v as u64 >> 16u64) & 0xff) as u8) as u32) << 16u32) | (((((v as u64 >> 24u64) & 0xff) as u8) as u32)
        << 24u32)) == v) by (bit_vector);
}

/// Reads the 32-bit little-endian field at `off`.
pub fn read_u32_le(buf: &Vec<u8>, off: usize) -> (r: u32)
    requires
        off + 4 <= buf@.len(),
    ensures
        r == get_u32(buf@, off as int),
{
    let len: usize = buf.len();
    assert(off + 3 < len);
    (buf[off] as u32) | ((buf[off + 1] as u32) << 8u32) | ((buf[off + 2] as u32) << 16u32) | ((
    buf[off + 3] as u32) << 24u32)
}

/// Reads the 64-bit little-endian field at `off`.
pub fn read_u64_le(buf: &Vec<u8>, off: usize) -> (r: u64)
    requires
        off + 8 <= buf@.len(),
    ensures
        r == get_u64(buf@, off as int),
{
    let len: usize = buf.len();
    assert(off + 7 < len);
    (buf[off] as u64) | ((buf[off + 1] as u64) << 8u64) | ((buf[off + 2] as u64) << 16u64) | ((
    buf[off + 3] as u64) << 24u64) | ((buf[off + 4] as u64) << 32u64) | ((buf[off + 5] as u64)
        << 40u64) | ((buf[off + 6] as u64) << 48u64) | ((buf[off + 7] as u64) << 56u64)
}

/// Stores the low `n` bytes of `v` little-endian at `off`.
fn write_le(buf: &mut Vec<u8>, off: usize, n: usize, v: u64)
    requires
        n <= 8,
        off + n <= old(buf)@.len(),
    ensures
        final(buf)@ == put_le(old(buf)@, off as int, n as int, v),
{
    let len: usize = buf.len();
    let mut k: usize = 0;
    while k < n
        invariant
            k <= n <= 8,
            off + n <= len == buf@.len(),
            buf@ == Seq::new(
                old(buf)@.len(),
                |i: int| if off <= i < off + k { le_byte(v, i - off) } else { old(buf)@[i] },
            ),
        decreases n - k,
    {
        let byte: u8 = (#[verifier::truncate] (((v >> ((8 * k) as u64)) & 0xff) as u8));
        buf.set(off + k, byte);
        k = k + 1;
        assert(buf@ =~= Seq::new(
            old(buf)@.len(),
            |i: int| if off <= i < off + k { le_byte(v, i - off) } else { old(buf)@[i] },
        ));
    }
    assert(buf@ =~= put_le(old(buf)@, off as int, n as int, v));
}

/// Stores `v` as a 32-bit little-endian field at `off`; the buffer's length is kept.
pub fn write_u32_le(buf: &mut Vec<u8>, off: usize, v: u32)
    requires
        off + 4 <= old(buf)@.len(),
    ensures
        final(buf)@ == put_u32(old(buf)@, off as int, v),
{
    write_le(buf, off, 4, v as u64);
}

/// Stores `v` as a 64-bit little-endian field at `off`; the buffer's length is kept.
pub fn write_u64_le(buf: &mut Vec<u8>, off: usize, v: u64)
    requires
        off + 8 <= old(buf)@.len(),
    ensures
        final(buf)@ == put_u64(old(buf)@, off as int, v),
{
    write_le(buf, off, 8, v);
}

} // verus!
