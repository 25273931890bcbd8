//! Big-endian integer layouts shared by the peer wire protocol and the UDP tracker protocol.
use vstd::prelude::*;

verus! {

/// The value of two bytes read as a big-endian unsigned integer.
pub open spec fn be_u16(b: Seq<u8>) -> int {
    b[0] * 256 + b[1]
}

/// The value of four bytes read as a big-endian unsigned integer.
pub open spec fn be_u32(b: Seq<u8>) -> int {
    b[0] * 16777216 + b[1] * 65536 + b[2] * 256 + b[3]
}

/// The value of eight bytes read as a big-endian unsigned integer.
pub open spec fn be_u64(b: Seq<u8>) -> int {
    be_u32(b.subrange(0, 4)) * 4294967296 + be_u32(b.subrange(4, 8))
}

/// The two big-endian bytes of `v`.
pub open spec fn u16_bytes(v: u16) -> Seq<u8> {
    seq![(v / 256) as u8, (v % 256) as u8]
}

/// The four big-endian bytes of `v`.
pub open spec fn u32_bytes(v: u32) -> Seq<u8> {
    seq![
        (v / 16777216) as u8,
        ((v / 65536) % 256) as u8,
        ((v / 256) % 256) as u8,
        (v % 256) as u8,
    ]
}

/// The eight big-endian bytes of `v`.
pub open spec fn u64_bytes(v: u64) -> Seq<u8> {
    u32_bytes((v / 4294967296) as u32) + u32_bytes((v % 4294967296) as u32)
}

/// Reading back the bytes of a `u16` gives the value.
pub proof fn lemma_u16_roundtrip(v: u16)
    ensures
        u16_bytes(v).len() == 2,
        be_u16(u16_bytes(v)) == v,
{
    let hi = (v / 256) as u8;
    let lo = (v % 256) as u8;
    assert(hi == v / 256 && lo == v % 256);
    assert(u16_bytes(v)[0] == hi && u16_bytes(v)[1] == lo);
}

/// Reading back the bytes of a `u32` gives the value.
pub proof fn lemma_u32_roundtrip(v: u32)
    ensures
        u32_bytes(v).len() == 4,
        be_u32(u32_bytes(v)) == v,
{
    let b = u32_bytes(v);
    assert(b[0] == v / 16777216 && b[1] == (v / 65536) % 256 && b[2] == (v / 256) % 256 && b[3]
        == v % 256) by {
        assert(v / 16777216 < 256) by (nonlinear_arith);
    }
    assert((v / 16777216) * 16777216 + ((v / 65536) % 256) * 65536 + ((v / 256) % 256) * 256 + v
        % 256 == v) by (nonlinear_arith);
}

/// Reading back the bytes of a `u64` gives the value.
pub proof fn lemma_u64_roundtrip(v: u64)
    ensures
        u64_bytes(v).len() == 8,
        be_u64(u64_bytes(v)) == v,
{
    let hi = (v / 4294967296) as u32;
    let lo = (v % 4294967296) as u32;
    assert(v / 4294967296 < 4294967296) by (nonlinear_arith);
    lemma_u32_roundtrip(hi);
    lemma_u32_roundtrip(lo);
    let b = u64_bytes(v);
    assert(b.subrange(0, 4) == u32_bytes(hi));
    assert(b.subrange(4, 8) == u32_bytes(lo));
    assert(hi * 4294967296 + lo == v) by (nonlinear_arith)
        requires
            hi == v / 4294967296,
            lo == v % 4294967296,
    ;
}

/// Reads the big-endian `u16` that starts at `offset`.
pub fn read_u16_be(buf: &[u8], offset: usize) -> (v: u16)
    requires
        offset + 2 <= buf@.len(),
    ensures
        v == be_u16(buf@.subrange(offset as int, offset + 2)),
{
    (buf[offset] as u16) * 256 + (buf[offset + 1] as u16)
}

/// Reads the big-endian `u32` that starts at `offset`.
pub fn read_u32_be(buf: &[u8], offset: usize) -> (v: u32)
    requires
        offset + 4 <= buf@.len(),
    ensures
        v == be_u32(buf@.subrange(offset as int, offset + 4)),
{
    (buf[offset] as u32) * 16777216 + (buf[offset + 1] as u32) * 65536 + (buf[offset + 2] as u32)
        * 256 + (buf[offset + 3] as u32)
}

/// Reads the big-endian `u64` that starts at `offset`.
pub fn read_u64_be(buf: &[u8], offset: usize) -> (v: u64)
    requires
        offset + 8 <= buf@.len(),
    ensures
        v == be_u64(buf@.subrange(offset as int, offset + 8)),
{
    let len = buf.len();
    assert(offset + 8 <= len);
    let hi = read_u32_be(buf, offset);
    let lo = read_u32_be(buf, offset + 4);
    proof {
        let s = buf@.subrange(offset as int, offset + 8);
        assert(s.subrange(0, 4) == buf@.subrange(offset as int, offset + 4));
        assert(s.subrange(4, 8) == buf@.subrange(offset + 4, offset + 8));
        assert(hi * 4294967296 + lo <= u64::MAX) by (nonlinear_arith)
            requires
                hi <= u32::MAX,
                lo <= u32::MAX,
        ;
    }
    (hi as u64) * 4294967296 + (lo as u64)
}

/// Appends the big-endian bytes of `v`.
pub fn push_u16_be(out: &mut Vec<u8>, v: u16)
    ensures
        final(out)@ == old(out)@ + u16_bytes(v),
{
    out.push((v / 256) as u8);
    out.push((v % 256) as u8);
}

/// Appends the big-endian bytes of `v`.
pub fn push_u32_be(out: &mut Vec<u8>, v: u32)
    ensures
        final(out)@ == old(out)@ + u32_bytes(v),
{
    proof {
        assert(v / 16777216 < 256) by (nonlinear_arith);
    }
    out.push((v / 16777216) as u8);
    out.push(((v / 65536) % 256) as u8);
    out.push(((v / 256) % 256) as u8);
    out.push((v % 256) as u8);
}

/// Appends the big-endian bytes of `v`.
pub fn push_u64_be(out: &mut Vec<u8>, v: u64)
    ensures
        final(out)@ == old(out)@ + u64_bytes(v),
{
    proof {
        assert(v / 4294967296 < 4294967296) by (nonlinear_arith);
    }
    push_u32_be(out, (v / 4294967296) as u32);
    push_u32_be(out, (v % 4294967296) as u32);
}

/// Appends every byte of `bytes`.
pub fn push_slice(out: &mut Vec<u8>, bytes: &[u8])
    ensures
        final(out)@ == old(out)@ + bytes@,
{
    let mut i: usize = 0;
    while i < bytes.len()
        invariant
            i <= bytes@.len(),
            out@ == old(out)@ + bytes@.subrange(0, i as int),
        decreases bytes@.len() - i,
    {
        out.push(bytes[i]);
        i = i + 1;
        assert(bytes@.subrange(0, i as int) == bytes@.subrange(0, i - 1).push(bytes@[i - 1]));
    }
    assert(bytes@.subrange(0, bytes@.len() as int) == bytes@);
}

/// The bytes of `buf` from `start` (inclusive) to `end` (exclusive), copied.
pub fn copy_range(buf: &[u8], start: usize, end: usize) -> (out: Vec<u8>)
    requires
        start <= end <= buf@.len(),
    ensures
        out@ == buf@.subrange(start as int, end as int),
{
    let mut out: Vec<u8> = Vec::new();
    let mut i: usize = start;
    while i < end
        invariant
            start <= i <= end,
            end <= buf@.len(),
            out@ == buf@.subrange(start as int, i as int),
        decreases end - i,
    {
        out.push(buf[i]);
        i = i + 1;
        assert(buf@.subrange(start as int, i as int) == buf@.subrange(start as int, i - 1).push(
            buf@[i - 1],
        ));
    }
    out
}

} // verus!
