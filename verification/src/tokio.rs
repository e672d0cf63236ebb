//! Framing for an asynchronous transport: messages out of, and into, a
//! buffer of the `bytes` crate.
use crate::packet::netlink::{nl_length, NetlinkPacket};
use crate::packet::copy_range;
use crate::util::align_up;
use crate::wire::get_u32;
use vstd::prelude::*;

pub use crate::packet::netlink::NetlinkRequestBuilder;

verus! {

#[verifier::external_type_specification]
#[verifier::external_body]
pub struct ExBytesMut(bytes::BytesMut);

/// The bytes that a buffer holds, first to last.
pub uninterp spec fn buffered(buf: bytes::BytesMut) -> Seq<u8>;

/// `bytes::BytesMut::len`: the number of bytes held.
#[verifier::external_body]
fn buffer_len(buf: &bytes::BytesMut) -> (n: usize)
    ensures
        n == buffered(*buf).len(),
{
    buf.len()
}

/// `bytes::BytesMut`'s `Deref::deref`: the bytes held, as a slice.
#[verifier::external_body]
fn buffer_bytes(buf: &bytes::BytesMut) -> (bytes: &[u8])
    ensures
        bytes@ == buffered(*buf),
{
    buf
}

/// `bytes::BytesMut::advance`: drops the first `cnt` bytes and keeps the
/// rest. It panics where `cnt` is more than the buffer holds.
#[verifier::external_body]
fn buffer_advance(buf: &mut bytes::BytesMut, cnt: usize)
    requires
        cnt <= buffered(*old(buf)).len(),
    ensures
        buffered(*final(buf)) == buffered(*old(buf)).subrange(
            cnt as int,
            buffered(*old(buf)).len() as int,
        ),
{
    buf.advance(cnt)
}

/// `bytes::BytesMut::extend_from_slice`: appends the given bytes, making
/// room for them first.
#[verifier::external_body]
fn buffer_extend(buf: &mut bytes::BytesMut, extend: &[u8])
    ensures
        buffered(*final(buf)) == buffered(*old(buf)) + extend@,
{
    buf.extend_from_slice(extend)
}

/// Why a buffer could not be framed.
#[derive(Debug, Clone, Copy, PartialEq, Eq, Structural)]
pub enum CodecError {
    /// The buffer holds something, but less than a header.
    Malformed,
}

/// What decoding does to a buffer, and what it hands out.
pub struct Decoded {
    /// The bytes left in the buffer.
    pub left: Seq<u8>,
    /// The message framed, nothing where none is whole yet, or the error.
    pub item: Result<Option<Seq<u8>>, CodecError>,
}

/// One step of decoding.
///
/// An empty buffer yields nothing. A buffer with less than a header is
/// malformed. Where the header's message, padding included, is not all
/// there, nothing is yielded and the buffer stays. Else the message and its
/// padding leave the buffer; the message is yielded, unless its length field
/// is under a header's size: then nothing is.
pub open spec fn decode_model(buf: Seq<u8>) -> Decoded {
    if buf.len() == 0 {
        Decoded { left: buf, item: Ok(None) }
    } else if buf.len() < 16 {
        Decoded { left: buf, item: Err(CodecError::Malformed) }
    } else if align_up(nl_length(buf) as int) > buf.len() {
        Decoded { left: buf, item: Ok(None) }
    } else {
        Decoded {
            left: buf.subrange(align_up(nl_length(buf) as int), buf.len() as int),
            item: if nl_length(buf) < 16 {
                Ok(None)
            } else {
                Ok(Some(buf.subrange(0, nl_length(buf) as int)))
            },
        }
    }
}

/// What a decoding step handed out, with a message's bytes in place of the
/// message.
pub open spec fn item_view(item: Result<Option<NetlinkPacket<'static>>, CodecError>) -> Result<
    Option<Seq<u8>>,
    CodecError,
> {
    match item {
        Ok(Some(pkt)) => Ok(Some(pkt@)),
        Ok(None) => Ok(None),
        Err(e) => Err(e),
    }
}

/// Frames messages out of a buffer and writes messages into one.
#[derive(Debug)]
pub struct NetlinkCodec {}

impl NetlinkCodec {
    /// Takes the next message out of `buf`, if a whole one is there.
    pub fn decode(&mut self, buf: &mut bytes::BytesMut) -> (item: Result<
        Option<NetlinkPacket<'static>>,
        CodecError,
    >)
        ensures
            buffered(*final(buf)) == decode_model(buffered(*old(buf))).left,
            item_view(item) == decode_model(buffered(*old(buf))).item,
    {
        let total = buffer_len(buf);
        if total == 0 {
            return Ok(None);
        }
        if total < 16 {
            return Err(CodecError::Malformed);
        }
        let (owned_pkt, len) = {
            let bytes = buffer_bytes(buf);
            let declared = get_u32(bytes, 0);
            let length = declared as usize;
            if length > total {
                // need more bytes
                return Ok(None);
            }
            let rem: usize = length % 4;
            let pad: usize = if rem == 0 {
                0
            } else {
                4 - rem
            };
            if total - length < pad {
                // need more bytes
                return Ok(None);
            }
            (NetlinkPacket::owned(copy_range(bytes, 0, length)), length + pad)
        };
        buffer_advance(buf, len);
        Ok(owned_pkt)
    }

    /// Writes the message to the end of `buf`.
    pub fn encode(&mut self, msg: NetlinkPacket<'static>, buf: &mut bytes::BytesMut)
        ensures
            buffered(*final(buf)) == buffered(*old(buf)) + msg@,
    {
        let data = msg.packet();
        buffer_extend(buf, data);
    }
}

} // verus!
