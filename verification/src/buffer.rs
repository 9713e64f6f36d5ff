use vstd::prelude::*;
use bytebuffer::ByteBuffer;

verus! {

// `bytebuffer::ByteBuffer` is the byte builder and reader the codec runs on.
// Verus cannot see inside it, so the type is declared opaque and every method
// the codec calls stands behind a trusted wrapper whose contract is stated
// over the names below.

#[verifier::external_type_specification]
#[verifier::external_body]
pub struct ExByteBuffer(ByteBuffer);

/// The bytes a `ByteBuffer` holds (its `data` vector).
pub uninterp spec fn buffer_bytes(b: ByteBuffer) -> Seq<u8>;

/// The read cursor of a `ByteBuffer` (its `rpos` field).
pub uninterp spec fn buffer_rpos(b: ByteBuffer) -> int;

/// The write cursor of a `ByteBuffer` (its `wpos` field).
pub uninterp spec fn buffer_wpos(b: ByteBuffer) -> int;

/// A `ByteBuffer` is clean when it is in big-endian order and no partial
/// bit-level read or write is pending (`endian == BigEndian`,
/// `rbit == 0`, `wbit == 0`). Every buffer the codec makes stays clean:
/// the codec never touches the bit-level or endianness methods. The
/// byte-level contracts below hold only for clean buffers, because
/// `flush_bits` advances the cursors when a bit operation is pending and
/// the multi-byte operations depend on the byte order.
pub uninterp spec fn buffer_clean(b: ByteBuffer) -> bool;

/// The high byte of a 16-bit value in big-endian order.
pub open spec fn u16_hi(v: u16) -> u8 {
    (v >> 8) as u8
}

/// The low byte of a 16-bit value in big-endian order.
pub open spec fn u16_lo(v: u16) -> u8 {
    (v & 0xFF) as u8
}

/// The 16-bit value read from two bytes in big-endian order.
pub open spec fn be16(hi: u8, lo: u8) -> u16 {
    (((hi as u16) << 8) | (lo as u16)) as u16
}

/// The four bytes of a 32-bit value in big-endian order.
pub open spec fn be32_bytes(v: u32) -> Seq<u8> {
    seq![(v >> 24) as u8, (v >> 16) as u8, (v >> 8) as u8, v as u8]
}

/// Relies on `ByteBuffer::new`: an empty big-endian buffer with all
/// cursors at zero.
#[verifier::external_body]
pub(crate) fn bb_new() -> (b: ByteBuffer)
    ensures
        buffer_bytes(b) == Seq::<u8>::empty(),
        buffer_rpos(b) == 0,
        buffer_wpos(b) == 0,
        buffer_clean(b),
{
    ByteBuffer::new()
}

/// Relies on `ByteBuffer::from_bytes`: a big-endian buffer holding a copy
/// of the slice, with the write cursor at its end and the read cursor at
/// its start.
#[verifier::external_body]
pub(crate) fn bb_from_slice(data: &[u8]) -> (b: ByteBuffer)
    ensures
        buffer_bytes(b) == data@,
        buffer_rpos(b) == 0,
        buffer_wpos(b) == data@.len(),
        buffer_clean(b),
{
    ByteBuffer::from_bytes(data)
}

/// Relies on `ByteBuffer::write_u8`: with the write cursor at the end of a
/// clean buffer, appends the byte.
#[verifier::external_body]
pub(crate) fn bb_write_u8(b: &mut ByteBuffer, v: u8)
    requires
        buffer_clean(*old(b)),
        buffer_wpos(*old(b)) == buffer_bytes(*old(b)).len(),
    ensures
        buffer_bytes(*final(b)) == buffer_bytes(*old(b)).push(v),
        buffer_wpos(*final(b)) == buffer_bytes(*final(b)).len(),
        buffer_rpos(*final(b)) == buffer_rpos(*old(b)),
        buffer_clean(*final(b)),
{
    b.write_u8(v)
}

/// Relies on `ByteBuffer::write_u16`: with the write cursor at the end of a
/// clean (big-endian) buffer, appends the two bytes of the value, high
/// byte first.
#[verifier::external_body]
pub(crate) fn bb_write_u16(b: &mut ByteBuffer, v: u16)
    requires
        buffer_clean(*old(b)),
        buffer_wpos(*old(b)) == buffer_bytes(*old(b)).len(),
    ensures
        buffer_bytes(*final(b)) == buffer_bytes(*old(b)) + seq![u16_hi(v), u16_lo(v)],
        buffer_wpos(*final(b)) == buffer_bytes(*final(b)).len(),
        buffer_rpos(*final(b)) == buffer_rpos(*old(b)),
        buffer_clean(*final(b)),
{
    b.write_u16(v)
}

/// Relies on `ByteBuffer::write_u32`: with the write cursor at the end of a
/// clean (big-endian) buffer, appends the four bytes of the value, high
/// byte first.
#[verifier::external_body]
pub(crate) fn bb_write_u32(b: &mut ByteBuffer, v: u32)
    requires
        buffer_clean(*old(b)),
        buffer_wpos(*old(b)) == buffer_bytes(*old(b)).len(),
    ensures
        buffer_bytes(*final(b)) == buffer_bytes(*old(b)) + be32_bytes(v),
        buffer_wpos(*final(b)) == buffer_bytes(*final(b)).len(),
        buffer_rpos(*final(b)) == buffer_rpos(*old(b)),
        buffer_clean(*final(b)),
{
    b.write_u32(v)
}

/// Relies on `ByteBuffer::write_bytes`: with the write cursor at the end of
/// a clean buffer, appends the slice.
#[verifier::external_body]
pub(crate) fn bb_write_bytes(b: &mut ByteBuffer, data: &[u8])
    requires
        buffer_clean(*old(b)),
        buffer_wpos(*old(b)) == buffer_bytes(*old(b)).len(),
    ensures
        buffer_bytes(*final(b)) == buffer_bytes(*old(b)) + data@,
        buffer_wpos(*final(b)) == buffer_bytes(*final(b)).len(),
        buffer_rpos(*final(b)) == buffer_rpos(*old(b)),
        buffer_clean(*final(b)),
{
    b.write_bytes(data)
}

/// Relies on `ByteBuffer::read_u8`: on a clean buffer with at least one
/// byte left, returns the byte under the read cursor and advances it.
#[verifier::external_body]
pub(crate) fn bb_read_u8(b: &mut ByteBuffer) -> (v: u8)
    requires
        buffer_clean(*old(b)),
        buffer_rpos(*old(b)) < buffer_bytes(*old(b)).len(),
    ensures
        v == buffer_bytes(*old(b))[buffer_rpos(*old(b))],
        buffer_rpos(*final(b)) == buffer_rpos(*old(b)) + 1,
        buffer_bytes(*final(b)) == buffer_bytes(*old(b)),
        buffer_wpos(*final(b)) == buffer_wpos(*old(b)),
        buffer_clean(*final(b)),
{
    b.read_u8().unwrap()
}

/// Relies on `ByteBuffer::read_u16`: on a clean (big-endian) buffer with at
/// least two bytes left, returns the big-endian value of the two bytes
/// under the read cursor and advances it past them.
#[verifier::external_body]
pub(crate) fn bb_read_u16(b: &mut ByteBuffer) -> (v: u16)
    requires
        buffer_clean(*old(b)),
        buffer_rpos(*old(b)) + 2 <= buffer_bytes(*old(b)).len(),
    ensures
        v == be16(
            buffer_bytes(*old(b))[buffer_rpos(*old(b))],
            buffer_bytes(*old(b))[buffer_rpos(*old(b)) + 1],
        ),
        buffer_rpos(*final(b)) == buffer_rpos(*old(b)) + 2,
        buffer_bytes(*final(b)) == buffer_bytes(*old(b)),
        buffer_wpos(*final(b)) == buffer_wpos(*old(b)),
        buffer_clean(*final(b)),
{
    b.read_u16().unwrap()
}

/// Relies on `ByteBuffer::as_bytes`: returns the buffer's bytes; the copy
/// into a `Vec` is `<[u8]>::to_vec`.
#[verifier::external_body]
pub(crate) fn bb_to_vec(b: &ByteBuffer) -> (v: Vec<u8>)
    ensures
        v@ == buffer_bytes(*b),
{
    b.as_bytes().to_vec()
}

} // verus!
