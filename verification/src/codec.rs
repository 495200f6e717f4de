//! Little-endian fixed-width integer fields inside byte buffers.
use vstd::prelude::*;
use vstd::bytes::*;
use vstd::slice::slice_subrange;

verus! {

/// Appends the little-endian bytes of a `u16`.
pub fn put_u16(buf: &mut Vec<u8>, x: u16)
    ensures
        final(buf)@ == old(buf)@ + spec_u16_to_le_bytes(x),
{
    let mut b = u16_to_le_bytes(x);
    buf.append(&mut b);
}

/// Appends the little-endian bytes of a `u32`.
pub fn put_u32(buf: &mut Vec<u8>, x: u32)
    ensures
        final(buf)@ == old(buf)@ + spec_u32_to_le_bytes(x),
{
    let mut b = u32_to_le_bytes(x);
    buf.append(&mut b);
}

/// Appends the little-endian bytes of a `u64`.
pub fn put_u64(buf: &mut Vec<u8>, x: u64)
    ensures
        final(buf)@ == old(buf)@ + spec_u64_to_le_bytes(x),
{
    let mut b = u64_to_le_bytes(x);
    buf.append(&mut b);
}

/// Appends raw bytes.
pub fn put_bytes(buf: &mut Vec<u8>, bytes: &[u8])
    ensures
        final(buf)@ == old(buf)@ + bytes@,
{
    let mut i: usize = 0;
    while i < bytes.len()
        invariant
            i <= bytes@.len(),
            buf@ == old(buf)@ + bytes@.take(i as int),
        decreases bytes@.len() - i,
    {
        buf.push(bytes[i]);
        assert(bytes@.take(i as int).push(bytes@[i as int]) =~= bytes@.take(i + 1));
        i = i + 1;
    }
    assert(bytes@.take(bytes@.len() as int) =~= bytes@);
}

/// Reads a little-endian `u16` at `off`.
pub fn get_u16(buf: &[u8], off: usize) -> (r: u16)
    requires
        off + 2 <= buf@.len(),
    ensures
        r == spec_u16_from_le_bytes(buf@.subrange(off as int, off + 2)),
{
    let n = buf.len();
    assert(n == buf@.len());
    u16_from_le_bytes(slice_subrange(buf, off, off + 2))
}

/// Reads a little-endian `u32` at `off`.
pub fn get_u32(buf: &[u8], off: usize) -> (r: u32)
    requires
        off + 4 <= buf@.len(),
    ensures
        r == spec_u32_from_le_bytes(buf@.subrange(off as int, off + 4)),
{
    let n = buf.len();
    assert(n == buf@.len());
    u32_from_le_bytes(slice_subrange(buf, off, off + 4))
}

/// Reads a little-endian `u64` at `off`.
pub fn get_u64(buf: &[u8], off: usize) -> (r: u64)
    requires
        off + 8 <= buf@.len(),
    ensures
        r == spec_u64_from_le_bytes(buf@.subrange(off as int, off + 8)),
{
    let n = buf.len();
    assert(n == buf@.len());
    u64_from_le_bytes(slice_subrange(buf, off, off + 8))
}

/// Copies `len` bytes starting at `off`.
pub fn get_bytes(buf: &[u8], off: usize, len: usize) -> (r: Vec<u8>)
    requires
        off + len <= buf@.len(),
    ensures
        r@ == buf@.subrange(off as int, off + len),
{
    let n = buf.len();
    let mut out: Vec<u8> = Vec::new();
    let mut i: usize = 0;
    while i < len
        invariant
            n == buf@.len(),
            off + len <= buf@.len(),
            i <= len,
            out@ == buf@.subrange(off as int, off + i),
        decreases len - i,
    {
        out.push(buf[off + i]);
        assert(buf@.subrange(off as int, off + i).push(buf@[off + i]) =~= buf@.subrange(off as int, off + i + 1));
        i = i + 1;
    }
    out
}

/// Every fixed-width encoding decodes back to its value, and has its width.
pub proof fn lemma_le_round_trips()
    ensures
        forall|x: u16| #[trigger] spec_u16_to_le_bytes(x).len() == 2 && spec_u16_from_le_bytes(spec_u16_to_le_bytes(x)) == x,
        forall|x: u32| #[trigger] spec_u32_to_le_bytes(x).len() == 4 && spec_u32_from_le_bytes(spec_u32_to_le_bytes(x)) == x,
        forall|x: u64| #[trigger] spec_u64_to_le_bytes(x).len() == 8 && spec_u64_from_le_bytes(spec_u64_to_le_bytes(x)) == x,
{
    lemma_auto_spec_u16_to_from_le_bytes();
    lemma_auto_spec_u32_to_from_le_bytes();
    lemma_auto_spec_u64_to_from_le_bytes();
}

} // verus!
