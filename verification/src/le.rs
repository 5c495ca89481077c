//! Little-endian integers in byte buffers.
use byteorder::{ByteOrder, LittleEndian};
use vstd::prelude::*;

verus! {

/// The number that two little-endian bytes hold.
#[verifier::opaque]
pub open spec fn u16_of(s: Seq<u8>) -> u16 {
    (s[0] + 0x100 * s[1]) as u16
}

/// The number that four little-endian bytes hold.
#[verifier::opaque]
pub open spec fn u32_of(s: Seq<u8>) -> u32 {
    (s[0] + 0x100 * (s[1] + 0x100 * (s[2] + 0x100 * s[3]))) as u32
}

/// The number that eight little-endian bytes hold.
#[verifier::opaque]
pub open spec fn u64_of(s: Seq<u8>) -> u64 {
    (u32_of(s.subrange(0, 4)) + 0x1_0000_0000 * u32_of(s.subrange(4, 8))) as u64
}

/// The two little-endian bytes of `x`.
#[verifier::opaque]
pub open spec fn bytes_of_u16(x: u16) -> Seq<u8> {
    seq![(x % 0x100) as u8, (x / 0x100) as u8]
}

/// The four little-endian bytes of `x`.
#[verifier::opaque]
pub open spec fn bytes_of_u32(x: u32) -> Seq<u8> {
    seq![
        (x % 0x100) as u8,
        (x / 0x100 % 0x100) as u8,
        (x / 0x100 / 0x100 % 0x100) as u8,
        (x / 0x100 / 0x100 / 0x100) as u8,
    ]
}

/// The eight little-endian bytes of `x`.
#[verifier::opaque]
pub open spec fn bytes_of_u64(x: u64) -> Seq<u8> {
    bytes_of_u32((x % 0x1_0000_0000) as u32) + bytes_of_u32((x / 0x1_0000_0000) as u32)
}

/// The numbers that consecutive groups of four bytes hold.
pub open spec fn u32s_of(s: Seq<u8>) -> Seq<u32> {
    Seq::new(s.len() / 4, |i: int| u32_of(s.subrange(4 * i, 4 * i + 4)))
}

/// The numbers that consecutive groups of eight bytes hold.
pub open spec fn u64s_of(s: Seq<u8>) -> Seq<u64> {
    Seq::new(s.len() / 8, |i: int| u64_of(s.subrange(8 * i, 8 * i + 8)))
}

/// The numbers that consecutive groups of two bytes hold.
pub open spec fn u16s_of(s: Seq<u8>) -> Seq<u16> {
    Seq::new(s.len() / 2, |i: int| u16_of(s.subrange(2 * i, 2 * i + 2)))
}

/// The bytes of all numbers of `v`, one number after the other.
pub open spec fn bytes_of_u32s(v: Seq<u32>) -> Seq<u8> {
    Seq::new(4 * v.len(), |i: int| bytes_of_u32(v[i / 4])[i % 4])
}

/// The bytes of all numbers of `v`, one number after the other.
pub open spec fn bytes_of_u64s(v: Seq<u64>) -> Seq<u8> {
    Seq::new(8 * v.len(), |i: int| bytes_of_u64(v[i / 8])[i % 8])
}

/// The bytes of all numbers of `v`, one number after the other.
pub open spec fn bytes_of_u16s(v: Seq<u16>) -> Seq<u8> {
    Seq::new(2 * v.len(), |i: int| bytes_of_u16(v[i / 2])[i % 2])
}

/// A number of 16 bits takes two bytes.
pub broadcast proof fn u16_size(x: u16)
    ensures
        #[trigger] bytes_of_u16(x).len() == 2,
{
    reveal(bytes_of_u16);
}

/// A number of 32 bits takes four bytes.
pub broadcast proof fn u32_size(x: u32)
    ensures
        #[trigger] bytes_of_u32(x).len() == 4,
{
    reveal(bytes_of_u32);
}

/// A number of 64 bits takes eight bytes.
pub broadcast proof fn u64_size(x: u64)
    ensures
        #[trigger] bytes_of_u64(x).len() == 8,
{
    reveal(bytes_of_u32);
    reveal(bytes_of_u64);
}

/// How many bytes a number takes.
pub broadcast group sizes {
    u16_size,
    u32_size,
    u64_size,
}

/// Reading back the bytes of a number gives the number.
pub proof fn u16_round_trip(x: u16)
    ensures
        bytes_of_u16(x).len() == 2,
        u16_of(bytes_of_u16(x)) == x,
{
    reveal(u16_of);
    reveal(bytes_of_u16);
}

/// Reading back the bytes of a number gives the number.
pub proof fn u32_round_trip(x: u32)
    ensures
        bytes_of_u32(x).len() == 4,
        u32_of(bytes_of_u32(x)) == x,
{
    reveal(u32_of);
    reveal(bytes_of_u32);
}

/// Reading back the bytes of a number gives the number.
pub proof fn u64_round_trip(x: u64)
    ensures
        bytes_of_u64(x).len() == 8,
        u64_of(bytes_of_u64(x)) == x,
{
    broadcast use sizes;

    reveal(u64_of);
    reveal(bytes_of_u64);
    let lo = (x % 0x1_0000_0000) as u32;
    let hi = (x / 0x1_0000_0000) as u32;
    assert(bytes_of_u64(x).subrange(0, 4) =~= bytes_of_u32(lo));
    assert(bytes_of_u64(x).subrange(4, 8) =~= bytes_of_u32(hi));
    u32_round_trip(lo);
    u32_round_trip(hi);
}

/// Reading back the bytes of a list of numbers gives the list.
pub proof fn u16s_round_trip(v: Seq<u16>)
    ensures
        u16s_of(bytes_of_u16s(v)) == v,
{
    broadcast use sizes;

    let b = bytes_of_u16s(v);
    assert forall|i: int| 0 <= i < v.len() implies u16s_of(b)[i] == v[i] by {
        let c = bytes_of_u16(v[i]);
        u16_round_trip(v[i]);
        assert forall|j: int| 0 <= j < 2 implies b.subrange(2 * i, 2 * i + 2)[j] == c[j] by {
            assert((2 * i + j) / 2 == i && (2 * i + j) % 2 == j);
        }
        assert(b.subrange(2 * i, 2 * i + 2) =~= c);
    }
    assert(u16s_of(b) =~= v);
}

/// Reading back the bytes of a list of numbers gives the list.
pub proof fn u32s_round_trip(v: Seq<u32>)
    ensures
        u32s_of(bytes_of_u32s(v)) == v,
{
    broadcast use sizes;

    let b = bytes_of_u32s(v);
    assert forall|i: int| 0 <= i < v.len() implies u32s_of(b)[i] == v[i] by {
        let c = bytes_of_u32(v[i]);
        u32_round_trip(v[i]);
        assert forall|j: int| 0 <= j < 4 implies b.subrange(4 * i, 4 * i + 4)[j] == c[j] by {
            assert((4 * i + j) / 4 == i && (4 * i + j) % 4 == j);
        }
        assert(b.subrange(4 * i, 4 * i + 4) =~= c);
    }
    assert(u32s_of(b) =~= v);
}

/// Reading back the bytes of a list of numbers gives the list.
pub proof fn u64s_round_trip(v: Seq<u64>)
    ensures
        u64s_of(bytes_of_u64s(v)) == v,
{
    broadcast use sizes;

    let b = bytes_of_u64s(v);
    assert forall|i: int| 0 <= i < v.len() implies u64s_of(b)[i] == v[i] by {
        let c = bytes_of_u64(v[i]);
        u64_round_trip(v[i]);
        assert forall|j: int| 0 <= j < 8 implies b.subrange(8 * i, 8 * i + 8)[j] == c[j] by {
            assert((8 * i + j) / 8 == i && (8 * i + j) % 8 == j);
        }
        assert(b.subrange(8 * i, 8 * i + 8) =~= c);
    }
    assert(u64s_of(b) =~= v);
}

/// `byteorder::LittleEndian::read_u16`: the number that the first two bytes hold.
#[verifier::external_body]
pub(crate) fn read_u16(buf: &[u8]) -> (r: u16)
    requires
        buf@.len() >= 2,
    ensures
        r == u16_of(buf@.subrange(0, 2)),
{
    LittleEndian::read_u16(buf)
}

/// `byteorder::LittleEndian::read_u32`: the number that the first four bytes hold.
#[verifier::external_body]
pub(crate) fn read_u32(buf: &[u8]) -> (r: u32)
    requires
        buf@.len() >= 4,
    ensures
        r == u32_of(buf@.subrange(0, 4)),
{
    LittleEndian::read_u32(buf)
}

/// `byteorder::LittleEndian::read_u64`: the number that the first eight bytes hold.
#[verifier::external_body]
pub(crate) fn read_u64(buf: &[u8]) -> (r: u64)
    requires
        buf@.len() >= 8,
    ensures
        r == u64_of(buf@.subrange(0, 8)),
{
    LittleEndian::read_u64(buf)
}

/// `byteorder::LittleEndian::write_u32`: overwrites the first four bytes with
/// those of `n` and leaves the rest.
#[verifier::external_body]
pub(crate) fn write_u32(buf: &mut [u8], n: u32)
    requires
        old(buf)@.len() >= 4,
    ensures
        final(buf)@ == bytes_of_u32(n) + old(buf)@.subrange(4, old(buf)@.len() as int),
{
    LittleEndian::write_u32(buf, n)
}

/// `byteorder::LittleEndian::read_u32_into`: fills `dst` with the numbers that
/// `src` holds; the lengths have to agree.
#[verifier::external_body]
pub(crate) fn read_u32_into(src: &[u8], dst: &mut [u32])
    requires
        src@.len() == 4 * old(dst)@.len(),
    ensures
        final(dst)@ == u32s_of(src@),
{
    LittleEndian::read_u32_into(src, dst)
}

/// `byteorder::LittleEndian::read_u64_into`: fills `dst` with the numbers that
/// `src` holds; the lengths have to agree.
#[verifier::external_body]
pub(crate) fn read_u64_into(src: &[u8], dst: &mut [u64])
    requires
        src@.len() == 8 * old(dst)@.len(),
    ensures
        final(dst)@ == u64s_of(src@),
{
    LittleEndian::read_u64_into(src, dst)
}

/// `byteorder::LittleEndian::write_u32_into`: fills `dst` with the bytes of the
/// numbers in `src`; the lengths have to agree.
#[verifier::external_body]
pub(crate) fn write_u32_into(src: &[u32], dst: &mut [u8])
    requires
        4 * src@.len() == old(dst)@.len(),
    ensures
        final(dst)@ == bytes_of_u32s(src@),
{
    LittleEndian::write_u32_into(src, dst)
}

/// `byteorder::LittleEndian::write_u64_into`: fills `dst` with the bytes of the
/// numbers in `src`; the lengths have to agree.
#[verifier::external_body]
pub(crate) fn write_u64_into(src: &[u64], dst: &mut [u8])
    requires
        8 * src@.len() == old(dst)@.len(),
    ensures
        final(dst)@ == bytes_of_u64s(src@),
{
    LittleEndian::write_u64_into(src, dst)
}

/// Appends the two little-endian bytes of `x`.
pub fn put_u16(out: &mut Vec<u8>, x: u16)
    ensures
        final(out)@ == old(out)@ + bytes_of_u16(x),
{
    out.push((x % 0x100) as u8);
    out.push((x / 0x100) as u8);
    reveal(bytes_of_u16);
    assert(out@ =~= old(out)@ + bytes_of_u16(x));
}

/// Appends the four little-endian bytes of `x`.
pub fn put_u32(out: &mut Vec<u8>, x: u32)
    ensures
        final(out)@ == old(out)@ + bytes_of_u32(x),
{
    out.push((x % 0x100) as u8);
    out.push((x / 0x100 % 0x100) as u8);
    out.push((x / 0x100 / 0x100 % 0x100) as u8);
    out.push((x / 0x100 / 0x100 / 0x100) as u8);
    reveal(bytes_of_u32);
    assert(out@ =~= old(out)@ + bytes_of_u32(x));
}

/// Appends the eight little-endian bytes of `x`.
pub fn put_u64(out: &mut Vec<u8>, x: u64)
    ensures
        final(out)@ == old(out)@ + bytes_of_u64(x),
{
    put_u32(out, (x % 0x1_0000_0000) as u32);
    put_u32(out, (x / 0x1_0000_0000) as u32);
    reveal(bytes_of_u64);
    assert(out@ =~= old(out)@ + bytes_of_u64(x));
}

/// Appends `bytes`.
pub fn put_bytes(out: &mut Vec<u8>, bytes: &[u8])
    ensures
        final(out)@ == old(out)@ + bytes@,
{
    out.extend_from_slice(bytes);
    assert(out@ =~= old(out)@ + bytes@);
}

/// The numbers that `src` holds, four bytes each.
pub fn get_u32s(src: &[u8]) -> (r: Vec<u32>)
    requires
        src@.len() % 4 == 0,
    ensures
        r@ == u32s_of(src@),
{
    let mut out: Vec<u32> = vec![0u32; src.len() / 4];
    read_u32_into(src, out.as_mut_slice());
    out
}

/// The numbers that `src` holds, eight bytes each.
pub fn get_u64s(src: &[u8]) -> (r: Vec<u64>)
    requires
        src@.len() % 8 == 0,
    ensures
        r@ == u64s_of(src@),
{
    let mut out: Vec<u64> = vec![0u64; src.len() / 8];
    read_u64_into(src, out.as_mut_slice());
    out
}

/// Appends the bytes of all numbers of `v`.
pub fn put_u32s(out: &mut Vec<u8>, v: &[u32])
    requires
        4 * v@.len() <= usize::MAX,
    ensures
        final(out)@ == old(out)@ + bytes_of_u32s(v@),
{
    let mut buf: Vec<u8> = vec![0u8; 4 * v.len()];
    write_u32_into(v, buf.as_mut_slice());
    put_bytes(out, buf.as_slice());
}

/// Appends the bytes of all numbers of `v`.
pub fn put_u64s(out: &mut Vec<u8>, v: &[u64])
    requires
        8 * v@.len() <= usize::MAX,
    ensures
        final(out)@ == old(out)@ + bytes_of_u64s(v@),
{
    let mut buf: Vec<u8> = vec![0u8; 8 * v.len()];
    write_u64_into(v, buf.as_mut_slice());
    put_bytes(out, buf.as_slice());
}

/// Appends the four little-endian bytes of a count.
pub fn put_header_u32(out: &mut Vec<u8>, x: u32)
    ensures
        final(out)@ == old(out)@ + bytes_of_u32(x),
{
    let mut header: Vec<u8> = vec![0u8; 4];
    write_u32(header.as_mut_slice(), x);
    assert(header@ =~= bytes_of_u32(x));
    put_bytes(out, header.as_slice());
}

} // verus!
