//! Fixed-width integers on the wire.
//!
//! Netlink carries its integers in the byte order of the host. The functions
//! here say, as mathematics over byte sequences, what each order means, and
//! read and write such integers inside a buffer.
use byteorder::{BigEndian, ByteOrder, LittleEndian, NativeEndian};
use vstd::endian::{endianness, Endian};
use vstd::prelude::*;
use vstd::slice::slice_subrange;

verus! {

/// The two bytes of `v` in the given order.
pub open spec fn u16_bytes(v: u16, order: Endian) -> Seq<u8> {
    let lo = (v % 256) as u8;
    let hi = (v / 256) as u8;
    match order {
        Endian::Little => seq![lo, hi],
        Endian::Big => seq![hi, lo],
    }
}

/// The number that the first two bytes of `b` spell in the given order.
pub open spec fn u16_value(b: Seq<u8>, order: Endian) -> u16
    recommends
        b.len() >= 2,
{
    match order {
        Endian::Little => (b[0] as int + 256 * (b[1] as int)) as u16,
        Endian::Big => (b[1] as int + 256 * (b[0] as int)) as u16,
    }
}

/// The four bytes of `v` in the given order.
pub open spec fn u32_bytes(v: u32, order: Endian) -> Seq<u8> {
    let b0 = (v % 256) as u8;
    let b1 = ((v / 256) % 256) as u8;
    let b2 = ((v / 65536) % 256) as u8;
    let b3 = (v / 16777216) as u8;
    match order {
        Endian::Little => seq![b0, b1, b2, b3],
        Endian::Big => seq![b3, b2, b1, b0],
    }
}

/// The number that the first four bytes of `b` spell in the given order.
pub open spec fn u32_value(b: Seq<u8>, order: Endian) -> u32
    recommends
        b.len() >= 4,
{
    match order {
        Endian::Little => (b[0] as int + 256 * (b[1] as int) + 65536 * (b[2] as int) + 16777216 * (
        b[3] as int)) as u32,
        Endian::Big => (b[3] as int + 256 * (b[2] as int) + 65536 * (b[1] as int) + 16777216 * (
        b[0] as int)) as u32,
    }
}

/// The host-order `u16` that starts at offset `at` of `b`.
pub open spec fn u16_at(b: Seq<u8>, at: int) -> u16
    recommends
        0 <= at,
        at + 2 <= b.len(),
{
    u16_value(b.subrange(at, at + 2), endianness())
}

/// The host-order `u32` that starts at offset `at` of `b`.
pub open spec fn u32_at(b: Seq<u8>, at: int) -> u32
    recommends
        0 <= at,
        at + 4 <= b.len(),
{
    u32_value(b.subrange(at, at + 4), endianness())
}

/// The signed reading of a 32-bit word: two's complement.
pub open spec fn as_signed(v: u32) -> i32 {
    if v < 0x8000_0000 {
        v as i32
    } else {
        (v - 0x1_0000_0000) as i32
    }
}

/// The host-order `i32` that starts at offset `at` of `b`.
pub open spec fn i32_at(b: Seq<u8>, at: int) -> i32
    recommends
        0 <= at,
        at + 4 <= b.len(),
{
    as_signed(u32_at(b, at))
}

/// `b` with the bytes from offset `at` on replaced by `patch`.
pub open spec fn overwrite(b: Seq<u8>, at: int, patch: Seq<u8>) -> Seq<u8>
    recommends
        0 <= at,
        at + patch.len() <= b.len(),
{
    b.subrange(0, at) + patch + b.subrange(at + patch.len(), b.len() as int)
}

/// Reading back what was written gives the number written, in either order.
pub proof fn lemma_u16_round_trip(v: u16, order: Endian)
    ensures
        u16_bytes(v, order).len() == 2,
        u16_value(u16_bytes(v, order), order) == v,
{
}

/// Writing what was read gives the bytes read, in either order.
pub proof fn lemma_u16_bytes_round_trip(b: Seq<u8>, order: Endian)
    requires
        b.len() == 2,
    ensures
        u16_bytes(u16_value(b, order), order) == b,
{
    assert(u16_bytes(u16_value(b, order), order) =~= b);
}

/// Reading back what was written gives the number written, in either order.
pub proof fn lemma_u32_round_trip(v: u32, order: Endian)
    ensures
        u32_bytes(v, order).len() == 4,
        u32_value(u32_bytes(v, order), order) == v,
{
}

/// Writing what was read gives the bytes read, in either order.
pub proof fn lemma_u32_bytes_round_trip(b: Seq<u8>, order: Endian)
    requires
        b.len() == 4,
    ensures
        u32_bytes(u32_value(b, order), order) == b,
{
    let (b0, b1, b2, b3) = match order {
        Endian::Little => (b[0] as int, b[1] as int, b[2] as int, b[3] as int),
        Endian::Big => (b[3] as int, b[2] as int, b[1] as int, b[0] as int),
    };
    let v = b0 + 256 * b1 + 65536 * b2 + 16777216 * b3;
    assert(u32_value(b, order) == v);
    assert(v % 256 == b0);
    assert(v / 256 == b1 + 256 * b2 + 65536 * b3);
    assert((v / 256) % 256 == b1);
    assert(v / 65536 == b2 + 256 * b3);
    assert((v / 65536) % 256 == b2);
    assert(v / 16777216 == b3);
    assert(u32_bytes(u32_value(b, order), order) =~= b);
}

/// `byteorder::NativeEndian::read_u16`: the first two bytes of the slice,
/// read in the byte order of the host.
#[verifier::external_body]
fn native_read_u16(buf: &[u8]) -> (v: u16)
    requires
        buf@.len() >= 2,
    ensures
        v == u16_value(buf@, endianness()),
{
    NativeEndian::read_u16(buf)
}

/// `byteorder::NativeEndian::read_u32`: the first four bytes of the slice,
/// read in the byte order of the host.
#[verifier::external_body]
fn native_read_u32(buf: &[u8]) -> (v: u32)
    requires
        buf@.len() >= 4,
    ensures
        v == u32_value(buf@, endianness()),
{
    NativeEndian::read_u32(buf)
}

/// `byteorder::BigEndian::read_u32`: the first four bytes of the slice, most
/// significant byte first.
#[verifier::external_body]
fn big_read_u32(buf: &[u8]) -> (v: u32)
    requires
        buf@.len() >= 4,
    ensures
        v == u32_value(buf@, Endian::Big),
{
    BigEndian::read_u32(buf)
}

/// `byteorder::LittleEndian::read_u32`: the first four bytes of the slice,
/// least significant byte first.
#[verifier::external_body]
fn little_read_u32(buf: &[u8]) -> (v: u32)
    requires
        buf@.len() >= 4,
    ensures
        v == u32_value(buf@, Endian::Little),
{
    LittleEndian::read_u32(buf)
}

/// `byteorder::NativeEndian::write_u16` into a fresh two-byte array: the
/// bytes of `v` in the byte order of the host.
#[verifier::external_body]
fn native_write_u16(v: u16) -> (out: [u8; 2])
    ensures
        out@ == u16_bytes(v, endianness()),
{
    let mut out = [0u8; 2];
    NativeEndian::write_u16(&mut out, v);
    out
}

/// `byteorder::NativeEndian::write_u32` into a fresh four-byte array: the
/// bytes of `v` in the byte order of the host.
#[verifier::external_body]
fn native_write_u32(v: u32) -> (out: [u8; 4])
    ensures
        out@ == u32_bytes(v, endianness()),
{
    let mut out = [0u8; 4];
    NativeEndian::write_u32(&mut out, v);
    out
}

/// Reads the host-order `u16` at offset `at`.
pub fn get_u16(buf: &[u8], at: usize) -> (v: u16)
    requires
        at + 2 <= buf@.len(),
    ensures
        v == u16_at(buf@, at as int),
{
    let end = buf.len();
    native_read_u16(slice_subrange(buf, at, end))
}

/// Reads the host-order `u32` at offset `at`.
pub fn get_u32(buf: &[u8], at: usize) -> (v: u32)
    requires
        at + 4 <= buf@.len(),
    ensures
        v == u32_at(buf@, at as int),
{
    let end = buf.len();
    native_read_u32(slice_subrange(buf, at, end))
}

/// Reads the host-order `i32` at offset `at`.
pub fn get_i32(buf: &[u8], at: usize) -> (v: i32)
    requires
        at + 4 <= buf@.len(),
    ensures
        v == i32_at(buf@, at as int),
{
    let word = get_u32(buf, at);
    if word < 0x8000_0000 {
        word as i32
    } else {
        ((word - 0x8000_0000) as i32) + i32::MIN
    }
}

/// Reads the big-endian `u32` at offset `at`.
pub fn get_u32_be(buf: &[u8], at: usize) -> (v: u32)
    requires
        at + 4 <= buf@.len(),
    ensures
        v == u32_value(buf@.subrange(at as int, at + 4), Endian::Big),
{
    let end = buf.len();
    big_read_u32(slice_subrange(buf, at, end))
}

/// Reads the little-endian `u32` at offset `at`.
pub fn get_u32_le(buf: &[u8], at: usize) -> (v: u32)
    requires
        at + 4 <= buf@.len(),
    ensures
        v == u32_value(buf@.subrange(at as int, at + 4), Endian::Little),
{
    let end = buf.len();
    little_read_u32(slice_subrange(buf, at, end))
}

/// Appends `v`, most significant byte first.
pub fn push_u32_be(buf: &mut Vec<u8>, v: u32)
    ensures
        final(buf)@ == old(buf)@ + u32_bytes(v, Endian::Big),
{
    buf.push((v / 16777216) as u8);
    buf.push(((v / 65536) % 256) as u8);
    buf.push(((v / 256) % 256) as u8);
    buf.push((v % 256) as u8);
    assert(buf@ =~= old(buf)@ + u32_bytes(v, Endian::Big));
}

/// Writes `v` in host order at offset `at`, leaving the other bytes alone.
pub fn put_u16(buf: &mut Vec<u8>, at: usize, v: u16)
    requires
        at + 2 <= old(buf)@.len(),
    ensures
        final(buf)@ == overwrite(old(buf)@, at as int, u16_bytes(v, endianness())),
{
    let bytes = native_write_u16(v);
    let _ = buf.len();
    buf.set(at, bytes[0]);
    buf.set(at + 1, bytes[1]);
    assert(buf@ =~= overwrite(old(buf)@, at as int, u16_bytes(v, endianness())));
}

/// Writes `v` in host order at offset `at`, leaving the other bytes alone.
pub fn put_u32(buf: &mut Vec<u8>, at: usize, v: u32)
    requires
        at + 4 <= old(buf)@.len(),
    ensures
        final(buf)@ == overwrite(old(buf)@, at as int, u32_bytes(v, endianness())),
{
    let bytes = native_write_u32(v);
    let _ = buf.len();
    buf.set(at, bytes[0]);
    buf.set(at + 1, bytes[1]);
    buf.set(at + 2, bytes[2]);
    buf.set(at + 3, bytes[3]);
    assert(buf@ =~= overwrite(old(buf)@, at as int, u32_bytes(v, endianness())));
}

/// Appends `v` in host order.
pub fn push_u16(buf: &mut Vec<u8>, v: u16)
    ensures
        final(buf)@ == old(buf)@ + u16_bytes(v, endianness()),
{
    let bytes = native_write_u16(v);
    buf.push(bytes[0]);
    buf.push(bytes[1]);
    assert(buf@ =~= old(buf)@ + u16_bytes(v, endianness()));
}

/// Appends `v` in host order.
pub fn push_u32(buf: &mut Vec<u8>, v: u32)
    ensures
        final(buf)@ == old(buf)@ + u32_bytes(v, endianness()),
{
    let bytes = native_write_u32(v);
    buf.push(bytes[0]);
    buf.push(bytes[1]);
    buf.push(bytes[2]);
    buf.push(bytes[3]);
    assert(buf@ =~= old(buf)@ + u32_bytes(v, endianness()));
}

} // verus!
