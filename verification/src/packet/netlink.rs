//! Netlink packet handling
use crate::packet::route::{
    after_first_attr, attrs, first_attr, has_attr, is_attr, lemma_appended_attrs_read_back,
    padded_attr, rta_len, with_attrs,
};
use crate::packet::{copy_range, push_zeros, zeros, PacketData};
use crate::util::{align_up, padding};
use crate::wire::{
    get_i32, get_u16, get_u32, i32_at, lemma_u16_bytes_round_trip, lemma_u16_round_trip,
    lemma_u32_bytes_round_trip, lemma_u32_round_trip, overwrite, push_u16, push_u32, put_u16,
    put_u32, u16_at, u16_bytes, u32_at, u32_bytes,
};
use vstd::endian::endianness;
use vstd::prelude::*;
use vstd::slice::slice_subrange;

pub use crate::packet::reader::{
    NetlinkBufIterator, NetlinkReader, NetlinkReaderState, ReadEvent, ReaderAction, ReaderError,
};

verus! {

/* message types */
pub const NLMSG_NOOP: u16 = 1;

pub const NLMSG_ERROR: u16 = 2;

pub const NLMSG_DONE: u16 = 3;

pub const NLMSG_OVERRUN: u16 = 4;

/// Size of the message header.
pub const NLMSG_HDRLEN: usize = 16;

/// The flag word of a message header.
#[derive(Clone, Copy, Debug, PartialEq, Eq, Structural)]
pub struct NetlinkMsgFlags {
    bits: u16,
}

impl NetlinkMsgFlags {
    /// It is request message.
    pub const NLM_F_REQUEST: u16 = 0x1;

    /// Multipart message, terminated by NLMSG_DONE
    pub const NLM_F_MULTI: u16 = 0x2;

    /// Reply with ack, with zero or error code
    pub const NLM_F_ACK: u16 = 0x4;

    /// Echo this request
    pub const NLM_F_ECHO: u16 = 0x8;

    /// Dump was inconsistent due to sequence change
    pub const NLM_F_DUMP_INTR: u16 = 0x10;

    /// Modifier to GET request: specify tree root
    pub const NLM_F_ROOT: u16 = 0x100;

    /// Modifier to GET request: return all matching
    pub const NLM_F_MATCH: u16 = 0x200;

    /// Modifier to GET request: atomic GET
    pub const NLM_F_ATOMIC: u16 = 0x400;

    /// Modifier to GET request: root and match together
    pub const NLM_F_DUMP: u16 = 0x300;

    /// Modifier to NEW request: override existing
    pub const NLM_F_REPLACE: u16 = 0x100;

    /// Modifier to NEW request: do not touch, if it exists
    pub const NLM_F_EXCL: u16 = 0x200;

    /// Modifier to NEW request: create, if it does not exist
    pub const NLM_F_CREATE: u16 = 0x400;

    /// Modifier to NEW request: add to end of list
    pub const NLM_F_APPEND: u16 = 0x800;

    /// Every bit that names a flag.
    pub const ALL: u16 = 0xf1f;

    /// The flag word as a number.
    pub closed spec fn view(&self) -> u16 {
        self.bits
    }

    #[verifier::type_invariant]
    spec fn known_bits(self) -> bool {
        self.bits & 0xf1f == self.bits
    }

    /// Words made of known bits stay so when they are joined, cut or masked.
    proof fn lemma_known_bits(a: u16, b: u16)
        by (bit_vector)
        ensures
            (a & 0xf1f) & 0xf1f == a & 0xf1f,
            a & 0xf1f == a && b & 0xf1f == b ==> (a | b) & 0xf1f == (a | b),
            a & 0xf1f == a ==> (a & b) & 0xf1f == (a & b),
            a & 0xf1f == a ==> (a & !b) & 0xf1f == (a & !b),
    {
    }

    /// The flags among the bits of `val`; bits that name no flag are dropped.
    pub fn new(val: u16) -> (flags: Self)
        ensures
            flags@ == val & 0xf1f,
    {
        proof {
            Self::lemma_known_bits(val, val);
        }
        NetlinkMsgFlags { bits: val & 0xf1f }
    }

    /// The flag word as a number.
    pub fn bits(&self) -> (bits: u16)
        ensures
            bits == self@,
            bits & 0xf1f == bits,
    {
        proof {
            use_type_invariant(self);
        }
        self.bits
    }

    /// True if every flag of `other` is set in `self`.
    pub fn contains(&self, other: NetlinkMsgFlags) -> (all: bool)
        ensures
            all == (self@ & other@ == other@),
    {
        self.bits & other.bits == other.bits
    }

    /// True if no flag is set.
    pub fn is_empty(&self) -> (none: bool)
        ensures
            none == (self@ == 0),
    {
        self.bits == 0
    }

    /// The flags of `self` together with those of `other`.
    pub fn union(self, other: NetlinkMsgFlags) -> (flags: Self)
        ensures
            flags@ == self@ | other@,
    {
        proof {
            use_type_invariant(self);
            use_type_invariant(other);
            Self::lemma_known_bits(self.bits, other.bits);
        }
        NetlinkMsgFlags { bits: self.bits | other.bits }
    }

    /// The flags that `self` and `other` share.
    pub fn intersection(self, other: NetlinkMsgFlags) -> (flags: Self)
        ensures
            flags@ == self@ & other@,
    {
        proof {
            use_type_invariant(self);
            Self::lemma_known_bits(self.bits, other.bits);
        }
        NetlinkMsgFlags { bits: self.bits & other.bits }
    }

    /// The flags of `self` that `other` does not have.
    pub fn difference(self, other: NetlinkMsgFlags) -> (flags: Self)
        ensures
            flags@ == self@ & !other@,
    {
        proof {
            use_type_invariant(self);
            Self::lemma_known_bits(self.bits, other.bits);
        }
        NetlinkMsgFlags { bits: self.bits & !other.bits }
    }
}

/// The length field of the header that starts `b`.
pub open spec fn nl_length(b: Seq<u8>) -> u32 {
    u32_at(b, 0)
}

/// The message kind of the header that starts `b`.
pub open spec fn nl_kind(b: Seq<u8>) -> u16 {
    u16_at(b, 4)
}

/// The flag word of the header that starts `b`, as it stands in the bytes.
pub open spec fn nl_flags(b: Seq<u8>) -> u16 {
    u16_at(b, 6)
}

/// The sequence number of the header that starts `b`.
pub open spec fn nl_seq(b: Seq<u8>) -> u32 {
    u32_at(b, 8)
}

/// The port id of the header that starts `b`.
pub open spec fn nl_pid(b: Seq<u8>) -> u32 {
    u32_at(b, 12)
}

/// Where the payload of the message in `b` ends: at the declared length,
/// but never before the header's end nor behind the last byte.
pub open spec fn nl_payload_end(b: Seq<u8>) -> int {
    let declared = nl_length(b) as int;
    if declared < 16 {
        16
    } else if declared > b.len() {
        b.len() as int
    } else {
        declared
    }
}

/// The payload of the message in `b`, as the length field bounds it.
pub open spec fn nl_payload(b: Seq<u8>) -> Seq<u8>
    recommends
        b.len() >= 16,
{
    b.subrange(16, nl_payload_end(b))
}

/// The sixteen header bytes that carry the given fields.
pub open spec fn nl_header(length: u32, kind: u16, flags: u16, seq: u32, pid: u32) -> Seq<u8> {
    u32_bytes(length, endianness()) + u16_bytes(kind, endianness()) + u16_bytes(
        flags,
        endianness(),
    ) + u32_bytes(seq, endianness()) + u32_bytes(pid, endianness())
}

/// The fields of a message built from a header and a tail are the fields the
/// header was built from.
pub proof fn lemma_header_fields(
    length: u32,
    kind: u16,
    flags: u16,
    seq: u32,
    pid: u32,
    tail: Seq<u8>,
)
    ensures
        nl_header(length, kind, flags, seq, pid).len() == 16,
        nl_length(nl_header(length, kind, flags, seq, pid) + tail) == length,
        nl_kind(nl_header(length, kind, flags, seq, pid) + tail) == kind,
        nl_flags(nl_header(length, kind, flags, seq, pid) + tail) == flags,
        nl_seq(nl_header(length, kind, flags, seq, pid) + tail) == seq,
        nl_pid(nl_header(length, kind, flags, seq, pid) + tail) == pid,
        (nl_header(length, kind, flags, seq, pid) + tail).subrange(16, 16 + tail.len() as int) == tail,
{
    let order = endianness();
    lemma_u32_round_trip(length, order);
    lemma_u16_round_trip(kind, order);
    lemma_u16_round_trip(flags, order);
    lemma_u32_round_trip(seq, order);
    lemma_u32_round_trip(pid, order);
    let b = nl_header(length, kind, flags, seq, pid) + tail;
    assert(b.subrange(0, 4) =~= u32_bytes(length, order));
    assert(b.subrange(4, 6) =~= u16_bytes(kind, order));
    assert(b.subrange(6, 8) =~= u16_bytes(flags, order));
    assert(b.subrange(8, 12) =~= u32_bytes(seq, order));
    assert(b.subrange(12, 16) =~= u32_bytes(pid, order));
    assert(b.subrange(16, 16 + tail.len() as int) =~= tail);
}

/// Parsing a message and writing its fields back, unchanged and followed by
/// what followed the header, gives the bytes that were parsed.
pub proof fn lemma_reserialize_identity(b: Seq<u8>)
    requires
        b.len() >= 16,
    ensures
        nl_header(nl_length(b), nl_kind(b), nl_flags(b), nl_seq(b), nl_pid(b)) + b.subrange(
            16,
            b.len() as int,
        ) == b,
{
    let order = endianness();
    lemma_u32_bytes_round_trip(b.subrange(0, 4), order);
    lemma_u16_bytes_round_trip(b.subrange(4, 6), order);
    lemma_u16_bytes_round_trip(b.subrange(6, 8), order);
    lemma_u32_bytes_round_trip(b.subrange(8, 12), order);
    lemma_u32_bytes_round_trip(b.subrange(12, 16), order);
    assert(nl_header(nl_length(b), nl_kind(b), nl_flags(b), nl_seq(b), nl_pid(b)) + b.subrange(
        16,
        b.len() as int,
    ) =~= b);
}

/// Overwriting one header field leaves the fields that do not overlap it, and
/// everything behind the header, as they were.
pub proof fn lemma_set_length_keeps_rest(b: Seq<u8>, v: u32)
    requires
        b.len() >= 16,
    ensures
        overwrite(b, 0, u32_bytes(v, endianness())).len() == b.len(),
        nl_length(overwrite(b, 0, u32_bytes(v, endianness()))) == v,
        nl_kind(overwrite(b, 0, u32_bytes(v, endianness()))) == nl_kind(b),
        nl_flags(overwrite(b, 0, u32_bytes(v, endianness()))) == nl_flags(b),
        nl_seq(overwrite(b, 0, u32_bytes(v, endianness()))) == nl_seq(b),
        nl_pid(overwrite(b, 0, u32_bytes(v, endianness()))) == nl_pid(b),
        overwrite(b, 0, u32_bytes(v, endianness())).subrange(4, b.len() as int) == b.subrange(
            4,
            b.len() as int,
        ),
{
    let order = endianness();
    lemma_u32_round_trip(v, order);
    let c = overwrite(b, 0, u32_bytes(v, order));
    assert(c.subrange(0, 4) =~= u32_bytes(v, order));
    assert(c.subrange(4, 6) =~= b.subrange(4, 6));
    assert(c.subrange(6, 8) =~= b.subrange(6, 8));
    assert(c.subrange(8, 12) =~= b.subrange(8, 12));
    assert(c.subrange(12, 16) =~= b.subrange(12, 16));
    assert(c.subrange(4, b.len() as int) =~= b.subrange(4, b.len() as int));
}

/// Reads the length field of a buffer that holds a header.
fn read_length(buf: &[u8]) -> (v: u32)
    requires
        buf@.len() >= 16,
    ensures
        v == nl_length(buf@),
{
    get_u32(buf, 0)
}

/// Reads the payload of a buffer that holds a header.
fn read_payload(buf: &[u8]) -> (p: &[u8])
    requires
        buf@.len() >= 16,
    ensures
        p@ == nl_payload(buf@),
{
    let declared = read_length(buf) as usize;
    let end = if declared < 16 {
        16
    } else if declared > buf.len() {
        buf.len()
    } else {
        declared
    };
    slice_subrange(buf, 16, end)
}

/// A Netlink message: the sixteen-byte header and what follows it.
///
/// The packet either looks at a caller's buffer or owns a copy; the getters
/// read the same bytes either way.
#[derive(Debug)]
pub struct NetlinkPacket<'a> {
    packet: PacketData<'a>,
}

impl<'a> NetlinkPacket<'a> {
    /// The bytes of the message, header first.
    pub closed spec fn view(&self) -> Seq<u8> {
        self.packet@
    }

    #[verifier::type_invariant]
    spec fn has_header(self) -> bool {
        self.packet@.len() >= 16
    }

    /// Size of the header: the least a packet can be.
    pub fn minimum_packet_size() -> (n: usize)
        ensures
            n == 16,
    {
        NLMSG_HDRLEN
    }

    /// A view of `buf` as a message, if `buf` can hold a header.
    pub fn new(buf: &'a [u8]) -> (pkt: Option<NetlinkPacket<'a>>)
        ensures
            pkt.is_some() <==> buf@.len() >= 16,
            pkt.is_some() ==> pkt.unwrap()@ == buf@,
    {
        if buf.len() >= NLMSG_HDRLEN {
            Some(NetlinkPacket { packet: PacketData::Borrowed(buf) })
        } else {
            None
        }
    }

    /// A message that owns `buf`, if `buf` can hold a header.
    pub fn owned(buf: Vec<u8>) -> (pkt: Option<NetlinkPacket<'static>>)
        ensures
            pkt.is_some() <==> buf@.len() >= 16,
            pkt.is_some() ==> pkt.unwrap()@ == buf@,
    {
        if buf.len() >= NLMSG_HDRLEN {
            Some(NetlinkPacket { packet: PacketData::Owned(buf) })
        } else {
            None
        }
    }

    /// A copy of this message that owns its bytes.
    pub fn to_owned(&self) -> (pkt: NetlinkPacket<'static>)
        ensures
            pkt@ == self@,
    {
        proof {
            use_type_invariant(self);
        }
        let s = self.packet.as_slice();
        let v = copy_range(s, 0, s.len());
        assert(v@ =~= self@);
        NetlinkPacket { packet: PacketData::Owned(v) }
    }

    /// Another view of the same bytes.
    pub fn get_packet(&self) -> (pkt: NetlinkPacket<'_>)
        ensures
            pkt@ == self@,
    {
        proof {
            use_type_invariant(self);
        }
        NetlinkPacket { packet: PacketData::Borrowed(self.packet.as_slice()) }
    }

    /// All bytes of the message.
    pub fn packet(&self) -> (bytes: &[u8])
        ensures
            bytes@ == self@,
            bytes@.len() >= 16,
    {
        proof {
            use_type_invariant(self);
        }
        self.packet.as_slice()
    }

    /// Number of bytes held, which need not be the length field's value.
    pub fn packet_size(&self) -> (n: usize)
        ensures
            n == self@.len(),
            n >= 16,
    {
        proof {
            use_type_invariant(self);
        }
        self.packet.len()
    }

    /// Total length of the message as its header declares it.
    pub fn get_length(&self) -> (v: u32)
        ensures
            v == nl_length(self@),
    {
        proof {
            use_type_invariant(self);
        }
        get_u32(self.packet.as_slice(), 0)
    }

    /// Message kind.
    pub fn get_kind(&self) -> (v: u16)
        ensures
            v == nl_kind(self@),
    {
        proof {
            use_type_invariant(self);
        }
        get_u16(self.packet.as_slice(), 4)
    }

    /// Message flags; bits that name no flag are dropped.
    pub fn get_flags(&self) -> (flags: NetlinkMsgFlags)
        ensures
            flags@ == nl_flags(self@) & 0x0f1f,
    {
        proof {
            use_type_invariant(self);
        }
        NetlinkMsgFlags::new(get_u16(self.packet.as_slice(), 6))
    }

    /// The flag word as it stands in the header, unknown bits and all.
    pub fn get_raw_flags(&self) -> (word: u16)
        ensures
            word == nl_flags(self@),
    {
        proof {
            use_type_invariant(self);
        }
        get_u16(self.packet.as_slice(), 6)
    }

    /// The message written anew from its parsed fields and the bytes behind
    /// its header: the same bytes as were parsed.
    pub fn reserialize(&self) -> (bytes: Vec<u8>)
        ensures
            bytes@ == self@,
    {
        proof {
            use_type_invariant(self);
            lemma_reserialize_identity(self@);
        }
        let all = self.packet.as_slice();
        let mut bytes: Vec<u8> = Vec::new();
        push_u32(&mut bytes, self.get_length());
        push_u16(&mut bytes, self.get_kind());
        push_u16(&mut bytes, self.get_raw_flags());
        push_u32(&mut bytes, self.get_seq());
        push_u32(&mut bytes, self.get_pid());
        bytes.extend_from_slice(slice_subrange(all, 16, all.len()));
        assert(bytes@ =~= nl_header(
            nl_length(self@),
            nl_kind(self@),
            nl_flags(self@),
            nl_seq(self@),
            nl_pid(self@),
        ) + self@.subrange(16, self@.len() as int));
        bytes
    }

    /// Sequence number.
    pub fn get_seq(&self) -> (v: u32)
        ensures
            v == nl_seq(self@),
    {
        proof {
            use_type_invariant(self);
        }
        get_u32(self.packet.as_slice(), 8)
    }

    /// Port id of the sender.
    pub fn get_pid(&self) -> (v: u32)
        ensures
            v == nl_pid(self@),
    {
        proof {
            use_type_invariant(self);
        }
        get_u32(self.packet.as_slice(), 12)
    }

    /// What follows the header, as far as the length field reaches.
    pub fn payload(&self) -> (p: &[u8])
        ensures
            p@ == nl_payload(self@),
    {
        proof {
            use_type_invariant(self);
        }
        read_payload(self.packet.as_slice())
    }
}

/// A Netlink message whose header fields can be set in place.
#[derive(Debug)]
pub struct MutableNetlinkPacket {
    packet: Vec<u8>,
}

impl MutableNetlinkPacket {
    /// The bytes of the message, header first.
    pub closed spec fn view(&self) -> Seq<u8> {
        self.packet@
    }

    /// A settable packet holds a whole header; every constructor sees to
    /// that and every setter keeps it.
    pub open spec fn wf(&self) -> bool {
        self@.len() >= 16
    }

    /// Size of the header: the least a packet can be.
    pub fn minimum_packet_size() -> (n: usize)
        ensures
            n == 16,
    {
        NLMSG_HDRLEN
    }

    /// A settable message over `buf`, if `buf` can hold a header.
    pub fn owned(buf: Vec<u8>) -> (pkt: Option<MutableNetlinkPacket>)
        ensures
            pkt.is_some() <==> buf@.len() >= 16,
            pkt.is_some() ==> pkt.unwrap()@ == buf@ && pkt.unwrap().wf(),
    {
        if buf.len() >= NLMSG_HDRLEN {
            Some(MutableNetlinkPacket { packet: buf })
        } else {
            None
        }
    }

    /// A bare header of the given kind and flags: the length field says
    /// sixteen, sequence number and port id are zero.
    pub fn build(kind: u16, flags: NetlinkMsgFlags) -> (pkt: MutableNetlinkPacket)
        ensures
            pkt@ == nl_header(16, kind, flags@, 0, 0),
            pkt.wf(),
    {
        let mut buf: Vec<u8> = Vec::new();
        push_u32(&mut buf, 16);
        push_u16(&mut buf, kind);
        push_u16(&mut buf, flags.bits());
        push_u32(&mut buf, 0);
        push_u32(&mut buf, 0);
        MutableNetlinkPacket { packet: buf }
    }

    /// All bytes of the message.
    pub fn packet(&self) -> (bytes: &[u8])
        requires
            self.wf(),
        ensures
            bytes@ == self@,
            bytes@.len() >= 16,
    {
        self.packet.as_slice()
    }

    /// The bytes, given up by the packet.
    pub fn into_bytes(self) -> (bytes: Vec<u8>)
        requires
            self.wf(),
        ensures
            bytes@ == self@,
            bytes@.len() >= 16,
    {
        self.packet
    }

    /// The same bytes as a message that is only read.
    pub fn consume_to_immutable(self) -> (pkt: NetlinkPacket<'static>)
        requires
            self.wf(),
        ensures
            pkt@ == self@,
    {
        NetlinkPacket { packet: PacketData::Owned(self.packet) }
    }

    /// Total length of the message as its header declares it.
    pub fn get_length(&self) -> (v: u32)
        requires
            self.wf(),
        ensures
            v == nl_length(self@),
    {
        get_u32(self.packet.as_slice(), 0)
    }

    /// Message kind.
    pub fn get_kind(&self) -> (v: u16)
        requires
            self.wf(),
        ensures
            v == nl_kind(self@),
    {
        get_u16(self.packet.as_slice(), 4)
    }

    /// Message flags; bits that name no flag are dropped.
    pub fn get_flags(&self) -> (flags: NetlinkMsgFlags)
        requires
            self.wf(),
        ensures
            flags@ == nl_flags(self@) & 0x0f1f,
    {
        NetlinkMsgFlags::new(get_u16(self.packet.as_slice(), 6))
    }

    /// The flag word as it stands in the header, unknown bits and all.
    pub fn get_raw_flags(&self) -> (word: u16)
        requires
            self.wf(),
        ensures
            word == nl_flags(self@),
    {
        get_u16(self.packet.as_slice(), 6)
    }

    /// Sequence number.
    pub fn get_seq(&self) -> (v: u32)
        requires
            self.wf(),
        ensures
            v == nl_seq(self@),
    {
        get_u32(self.packet.as_slice(), 8)
    }

    /// Port id of the sender.
    pub fn get_pid(&self) -> (v: u32)
        requires
            self.wf(),
        ensures
            v == nl_pid(self@),
    {
        get_u32(self.packet.as_slice(), 12)
    }

    /// What follows the header, as far as the length field reaches.
    pub fn payload(&self) -> (p: &[u8])
        requires
            self.wf(),
        ensures
            p@ == nl_payload(self@),
    {
        read_payload(self.packet.as_slice())
    }

    /// What follows the header, as far as the length field reaches, to be
    /// written to. Header, length and what lies behind the payload stay.
    pub fn payload_mut(&mut self) -> (p: &mut [u8])
        requires
            old(self).wf(),
        ensures
            p@ == nl_payload(old(self)@),
            final(self)@ == old(self)@.subrange(0, 16) + final(p)@ + old(self)@.subrange(
                nl_payload_end(old(self)@),
                old(self)@.len() as int,
            ),
            final(self).wf(),
    {
        let declared = get_u32(self.packet.as_slice(), 0) as usize;
        let total = self.packet.len();
        let end = if declared < 16 {
            16
        } else if declared > total {
            total
        } else {
            declared
        };
        let all = self.packet.as_mut_slice();
        let (head, rest) = all.split_at_mut(16);
        let (payload, tail) = rest.split_at_mut(end - 16);
        payload
    }

    /// Sets the length field; no other byte changes.
    pub fn set_length(&mut self, v: u32)
        requires
            old(self).wf(),
        ensures
            final(self)@ == overwrite(old(self)@, 0, u32_bytes(v, endianness())),
            final(self).wf(),
    {
        put_u32(&mut self.packet, 0, v);
    }

    /// Sets the message kind; no other byte changes.
    pub fn set_kind(&mut self, v: u16)
        requires
            old(self).wf(),
        ensures
            final(self)@ == overwrite(old(self)@, 4, u16_bytes(v, endianness())),
            final(self).wf(),
    {
        put_u16(&mut self.packet, 4, v);
    }

    /// Sets the flag word; no other byte changes.
    pub fn set_flags(&mut self, flags: NetlinkMsgFlags)
        requires
            old(self).wf(),
        ensures
            final(self)@ == overwrite(old(self)@, 6, u16_bytes(flags@, endianness())),
            final(self).wf(),
    {
        put_u16(&mut self.packet, 6, flags.bits());
    }

    /// Sets the flag word as given, unknown bits and all; no other byte
    /// changes.
    pub fn set_raw_flags(&mut self, word: u16)
        requires
            old(self).wf(),
        ensures
            final(self)@ == overwrite(old(self)@, 6, u16_bytes(word, endianness())),
            final(self).wf(),
    {
        put_u16(&mut self.packet, 6, word);
    }

    /// Sets the sequence number; no other byte changes.
    pub fn set_seq(&mut self, v: u32)
        requires
            old(self).wf(),
        ensures
            final(self)@ == overwrite(old(self)@, 8, u32_bytes(v, endianness())),
            final(self).wf(),
    {
        put_u32(&mut self.packet, 8, v);
    }

    /// Sets the port id; no other byte changes.
    pub fn set_pid(&mut self, v: u32)
        requires
            old(self).wf(),
        ensures
            final(self)@ == overwrite(old(self)@, 12, u32_bytes(v, endianness())),
            final(self).wf(),
    {
        put_u32(&mut self.packet, 12, v);
    }
}


/// True if `buf` starts with a whole message: a header is there, and the
/// length it declares covers the header and does not pass the buffer's end.
pub open spec fn has_frame(buf: Seq<u8>) -> bool {
    buf.len() >= 16 && 16 <= nl_length(buf) <= buf.len()
}

/// The message that `buf` starts with: exactly as many bytes as its length
/// field says.
pub open spec fn first_frame(buf: Seq<u8>) -> Seq<u8>
    recommends
        has_frame(buf),
{
    buf.subrange(0, nl_length(buf) as int)
}

/// How far the message that `buf` starts with reaches, padding included; the
/// padding of the last message may be missing.
pub open spec fn frame_stride(buf: Seq<u8>) -> int
    recommends
        has_frame(buf),
{
    let aligned = align_up(nl_length(buf) as int);
    if aligned > buf.len() {
        buf.len() as int
    } else {
        aligned
    }
}

/// What is left of `buf` behind its first message and that one's padding.
pub open spec fn after_first_frame(buf: Seq<u8>) -> Seq<u8>
    recommends
        has_frame(buf),
{
    buf.subrange(frame_stride(buf), buf.len() as int)
}

/// The messages of `buf` in order, each starting on the alignment boundary
/// behind the one before. The list ends where no whole message is left.
pub open spec fn frames(buf: Seq<u8>) -> Seq<Seq<u8>>
    decreases buf.len(),
{
    if has_frame(buf) {
        seq![first_frame(buf)] + frames(after_first_frame(buf))
    } else {
        Seq::empty()
    }
}

/// Iterator over the messages that lie one behind the other in a buffer.
#[derive(Debug)]
pub struct NetlinkIterable<'a> {
    buf: &'a [u8],
}

impl<'a> NetlinkIterable<'a> {
    /// The bytes not yet walked over.
    pub closed spec fn view(&self) -> Seq<u8> {
        self.buf@
    }

    /// An iterator over the messages of `buf`.
    pub fn new(buf: &'a [u8]) -> (iter: Self)
        ensures
            iter@ == buf@,
    {
        NetlinkIterable { buf: buf }
    }

    /// The next message, if the bytes left start with a whole one; the
    /// iterator then stands behind it and its padding. Otherwise nothing, and
    /// the iterator stays where it is.
    pub fn next(&mut self) -> (item: Option<NetlinkPacket<'a>>)
        ensures
            has_frame(old(self)@) ==> item.is_some() && item.unwrap()@ == first_frame(old(self)@)
                && final(self)@ == after_first_frame(old(self)@),
            !has_frame(old(self)@) ==> item.is_none() && final(self)@ == old(self)@,
    {
        let buf = self.buf;
        if buf.len() < NLMSG_HDRLEN {
            return None;
        }
        let declared = get_u32(buf, 0);
        if declared < 16 || declared as usize > buf.len() {
            return None;
        }
        let len = declared as usize;
        let rem: usize = len % 4;
        let pad: usize = if rem == 0 {
            0
        } else {
            4 - rem
        };
        let stride = if buf.len() - len < pad {
            buf.len()
        } else {
            len + pad
        };
        self.buf = slice_subrange(buf, stride, buf.len());
        Some(NetlinkPacket { packet: PacketData::Borrowed(slice_subrange(buf, 0, len)) })
    }

    /// All messages that are left, in order.
    pub fn collect(self) -> (list: Vec<NetlinkPacket<'a>>)
        ensures
            list@.len() == frames(self@).len(),
            forall|i: int| 0 <= i < list@.len() ==> (#[trigger] list@[i])@ == frames(self@)[i],
    {
        let mut iter = self;
        let mut list: Vec<NetlinkPacket<'a>> = Vec::new();
        let ghost all = frames(iter@);
        loop
            invariant
                all == frames(self@),
                list@.len() + frames(iter@).len() == all.len(),
                forall|i: int| 0 <= i < list@.len() ==> (#[trigger] list@[i])@ == all[i],
                forall|i: int|
                    0 <= i < frames(iter@).len() ==> #[trigger] frames(iter@)[i] == all[list@.len()
                        + i],
            ensures
                list@.len() == all.len(),
                forall|i: int| 0 <= i < list@.len() ==> (#[trigger] list@[i])@ == all[i],
            decreases iter@.len(),
        {
            let ghost before = iter@;
            match iter.next() {
                Some(pkt) => {
                    proof {
                        assert(frames(before) == seq![first_frame(before)] + frames(
                            after_first_frame(before),
                        ));
                        assert(frames(before)[0] == first_frame(before));
                        assert forall|i: int|
                            0 <= i < frames(iter@).len() implies #[trigger] frames(iter@)[i]
                            == all[list@.len() + 1 + i] by {
                            assert(frames(iter@)[i] == frames(before)[i + 1]);
                        }
                    }
                    list.push(pkt);
                },
                None => {
                    break ;
                },
            }
        }
        list
    }
}

/// The error code at the head of an error message's payload, as the kernel
/// wrote it: zero for an acknowledgement, else a negated error number.
pub open spec fn nl_error(payload: Seq<u8>) -> i32
    recommends
        payload.len() >= 4,
{
    i32_at(payload, 0)
}

/// `code` with its sign turned. The one number that has no counterpart stays
/// as it is.
pub open spec fn negated(code: i32) -> i32 {
    if code == i32::MIN {
        i32::MIN
    } else {
        (-code) as i32
    }
}

/// What a message says of the request it answers: the error number, if the
/// message is an error message that holds a code other than zero.
pub open spec fn error_of(b: Seq<u8>) -> Option<i32>
    recommends
        b.len() >= 16,
{
    if nl_kind(b) == NLMSG_ERROR && nl_payload(b).len() >= 4 && nl_error(nl_payload(b)) != 0 {
        Some(negated(nl_error(nl_payload(b))))
    } else {
        None
    }
}

/// The payload of an error message: the code, and the header of the request
/// that it answers.
#[derive(Debug)]
pub struct NetlinkErrorPacket<'a> {
    packet: PacketData<'a>,
}

impl<'a> NetlinkErrorPacket<'a> {
    /// The bytes of the record, code first.
    pub closed spec fn view(&self) -> Seq<u8> {
        self.packet@
    }

    #[verifier::type_invariant]
    spec fn has_code(self) -> bool {
        self.packet@.len() >= 4
    }

    /// Size of the code: the least such a record can be.
    pub fn minimum_packet_size() -> (n: usize)
        ensures
            n == 4,
    {
        4
    }

    /// A view of `buf`, if `buf` can hold the code.
    pub fn new(buf: &'a [u8]) -> (pkt: Option<NetlinkErrorPacket<'a>>)
        ensures
            pkt.is_some() <==> buf@.len() >= 4,
            pkt.is_some() ==> pkt.unwrap()@ == buf@,
    {
        if buf.len() >= 4 {
            Some(NetlinkErrorPacket { packet: PacketData::Borrowed(buf) })
        } else {
            None
        }
    }

    /// All bytes of the record.
    pub fn packet(&self) -> (bytes: &[u8])
        ensures
            bytes@ == self@,
            bytes@.len() >= 4,
    {
        proof {
            use_type_invariant(self);
        }
        self.packet.as_slice()
    }

    /// The error code as the kernel wrote it.
    pub fn get_error(&self) -> (code: i32)
        ensures
            code == nl_error(self@),
    {
        proof {
            use_type_invariant(self);
        }
        get_i32(self.packet.as_slice(), 0)
    }

    /// What follows the code: the header of the request, as far as it is
    /// there.
    pub fn payload(&self) -> (p: &[u8])
        ensures
            p@ == self@.subrange(4, self@.len() as int),
    {
        proof {
            use_type_invariant(self);
        }
        let s = self.packet.as_slice();
        slice_subrange(s, 4, s.len())
    }
}

impl<'a> NetlinkPacket<'a> {
    /// The error number that this message reports: none for a message of
    /// another kind, none for an acknowledgement, none where the code is cut
    /// off.
    pub fn to_result(&self) -> (error: Option<i32>)
        ensures
            error == error_of(self@),
    {
        if self.get_kind() != NLMSG_ERROR {
            return None;
        }
        match NetlinkErrorPacket::new(self.payload()) {
            Some(err) => {
                let code = err.get_error();
                if code == 0 {
                    None
                } else if code == i32::MIN {
                    Some(i32::MIN)
                } else {
                    Some(-code)
                }
            },
            None => None,
        }
    }
}

#[verifier::external_type_specification]
#[verifier::external_body]
pub struct ExIoError(std::io::Error);

/// The error of the operating system that has the given number.
pub uninterp spec fn os_error(errno: i32) -> std::io::Error;

/// `std::io::Error::from_raw_os_error`: the error of the operating system
/// that has the given number.
#[verifier::external_body]
fn io_error_from_errno(errno: i32) -> (error: std::io::Error)
    ensures
        error == os_error(errno),
{
    std::io::Error::from_raw_os_error(errno)
}

/// What a message says of the request it answers, as an error of the
/// operating system: the error whose number `error_of` gives.
pub open spec fn io_error_of(b: Seq<u8>) -> Option<std::io::Error> {
    match error_of(b) {
        Some(errno) => Some(os_error(errno)),
        None => None,
    }
}

/// Messages that may stand for a failure of the request they answer.
pub trait ToIoError {
    /// The failure as an error of the operating system, if there is one.
    fn to_io_error(&self) -> Option<std::io::Error>;
}

impl<'a> ToIoError for NetlinkPacket<'a> {
    /// The error of the operating system whose number `to_result` gives:
    /// none for a message of another kind, none for an acknowledgement.
    fn to_io_error(&self) -> (error: Option<std::io::Error>)
        ensures
            error == io_error_of(self@),
    {
        match self.to_result() {
            Some(errno) => Some(io_error_from_errno(errno)),
            None => None,
        }
    }
}

/// What a request under construction becomes when `item` is appended: the
/// item's bytes and its padding follow, and the length field grows by the
/// item's length without the padding.
pub open spec fn with_item(b: Seq<u8>, item: Seq<u8>) -> Seq<u8>
    recommends
        b.len() >= 16,
        nl_length(b) + item.len() <= u32::MAX,
{
    overwrite(b, 0, u32_bytes((nl_length(b) + item.len()) as u32, endianness())) + item + zeros(
        padding(item.len() as int) as nat,
    )
}

/// What a request under construction becomes when `items` are appended one
/// after the other.
pub open spec fn with_items(b: Seq<u8>, items: Seq<Seq<u8>>) -> Seq<u8>
    decreases items.len(),
{
    if items.len() == 0 {
        b
    } else {
        with_item(with_items(b, items.drop_last()), items.last())
    }
}

/// The bare request that a builder starts from: a header that declares its
/// own sixteen bytes, with the request flag set.
pub open spec fn bare_request(kind: u16, flags: u16) -> Seq<u8> {
    nl_header(16, kind, flags | 1, 0, 0)
}

/// What appending does to the bytes of a request, whatever the item: the
/// item stands where the request ended, followed by zero bytes up to the
/// alignment boundary; of the bytes before it only the length field changes;
/// and a request that was a multiple of four bytes long stays one. Where the
/// grown length fits the length field, the field holds it.
pub proof fn lemma_with_item_shape(b: Seq<u8>, item: Seq<u8>)
    requires
        b.len() >= 16,
    ensures
        with_item(b, item).len() == b.len() + align_up(item.len() as int),
        b.len() % 4 == 0 ==> with_item(b, item).len() % 4 == 0,
        with_item(b, item).subrange(4, b.len() as int) == b.subrange(4, b.len() as int),
        with_item(b, item).subrange(b.len() as int, (b.len() + item.len()) as int) == item,
        with_item(b, item).subrange((b.len() + item.len()) as int, with_item(b, item).len() as int)
            == zeros(padding(item.len() as int) as nat),
        nl_kind(with_item(b, item)) == nl_kind(b),
        nl_flags(with_item(b, item)) == nl_flags(b),
        nl_seq(with_item(b, item)) == nl_seq(b),
        nl_pid(with_item(b, item)) == nl_pid(b),
        nl_length(b) + item.len() <= u32::MAX ==> nl_length(with_item(b, item)) == nl_length(b)
            + item.len(),
{
    let order = endianness();
    let grown = (nl_length(b) + item.len()) as u32;
    lemma_u32_round_trip(grown, order);
    lemma_set_length_keeps_rest(b, grown);
    let patched = overwrite(b, 0, u32_bytes(grown, order));
    let built = with_item(b, item);
    assert(built == patched + item + zeros(padding(item.len() as int) as nat));
    assert(built.subrange(0, 4) =~= patched.subrange(0, 4));
    assert(built.subrange(4, 6) =~= patched.subrange(4, 6));
    assert(built.subrange(6, 8) =~= patched.subrange(6, 8));
    assert(built.subrange(8, 12) =~= patched.subrange(8, 12));
    assert(built.subrange(12, 16) =~= patched.subrange(12, 16));
    assert(built.subrange(4, b.len() as int) =~= b.subrange(4, b.len() as int));
    assert(built.subrange(b.len() as int, (b.len() + item.len()) as int) =~= item);
    assert(built.subrange((b.len() + item.len()) as int, built.len() as int) =~= zeros(
        padding(item.len() as int) as nat,
    ));
}

/// Sum of the lengths of `items`.
pub open spec fn total_len(items: Seq<Seq<u8>>) -> int
    decreases items.len(),
{
    if items.len() == 0 {
        0
    } else {
        total_len(items.drop_last()) + items.last().len()
    }
}

/// The bytes of `items` one after the other, nothing between them.
pub open spec fn joined(items: Seq<Seq<u8>>) -> Seq<u8>
    decreases items.len(),
{
    if items.len() == 0 {
        Seq::empty()
    } else {
        joined(items.drop_last()) + items.last()
    }
}

/// The bytes of `items` one after the other, each followed by its padding.
pub open spec fn joined_padded(items: Seq<Seq<u8>>) -> Seq<u8>
    decreases items.len(),
{
    if items.len() == 0 {
        Seq::empty()
    } else {
        joined_padded(items.drop_last()) + items.last() + zeros(
            padding(items.last().len() as int) as nat,
        )
    }
}

/// True if every item but the last ends on the alignment boundary.
pub open spec fn inner_items_aligned(items: Seq<Seq<u8>>) -> bool {
    forall|i: int| 0 <= i < items.len() - 1 ==> (#[trigger] items[i]).len() % 4 == 0
}

proof fn lemma_total_len_bounds(items: Seq<Seq<u8>>)
    ensures
        0 <= total_len(items),
        joined(items).len() == total_len(items),
        joined_padded(items).len() >= total_len(items),
        items.len() > 0 ==> total_len(items.drop_last()) <= total_len(items),
    decreases items.len(),
{
    if items.len() > 0 {
        lemma_total_len_bounds(items.drop_last());
    }
}

proof fn lemma_aligned_items_need_no_padding(items: Seq<Seq<u8>>)
    requires
        forall|i: int| 0 <= i < items.len() ==> (#[trigger] items[i]).len() % 4 == 0,
    ensures
        joined_padded(items) == joined(items),
    decreases items.len(),
{
    if items.len() > 0 {
        let init = items.drop_last();
        assert forall|i: int| 0 <= i < init.len() implies (#[trigger] init[i]).len() % 4 == 0 by {
            assert(init[i] == items[i]);
        }
        lemma_aligned_items_need_no_padding(init);
        assert(items.last() == items[items.len() - 1]);
        assert(zeros(padding(items.last().len() as int) as nat) =~= Seq::<u8>::empty());
        assert(joined_padded(items) =~= joined(items));
    }
}

proof fn lemma_joined_from_front(items: Seq<Seq<u8>>)
    requires
        items.len() > 0,
    ensures
        joined(items) == items[0] + joined(items.drop_first()),
    decreases items.len(),
{
    if items.len() == 1 {
        assert(items.drop_last() =~= Seq::<Seq<u8>>::empty());
        assert(items.drop_first() =~= Seq::<Seq<u8>>::empty());
        assert(joined(items) =~= items[0] + joined(items.drop_first()));
    } else {
        let init = items.drop_last();
        lemma_joined_from_front(init);
        assert(init.drop_first() =~= items.drop_first().drop_last());
        assert(items.drop_first().last() == items.last());
        assert(init[0] == items[0]);
        assert(joined(items) =~= items[0] + joined(items.drop_first()));
    }
}

/// A run of whole attributes, each but the last ending on the alignment
/// boundary, is read back by the attribute iterator as those attributes.
pub proof fn lemma_attrs_of_joined(items: Seq<Seq<u8>>)
    requires
        forall|i: int| 0 <= i < items.len() ==> is_attr(#[trigger] items[i]),
        inner_items_aligned(items),
    ensures
        attrs(joined(items)) == items,
    decreases items.len(),
{
    if items.len() == 0 {
        assert(attrs(joined(items)) =~= items);
    } else {
        let first = items[0];
        let rest = items.drop_first();
        let buf = joined(items);
        lemma_joined_from_front(items);
        lemma_total_len_bounds(rest);
        assert(is_attr(first));
        assert(buf.subrange(0, 2) =~= first.subrange(0, 2));
        assert(rta_len(buf) == first.len());
        assert(has_attr(buf));
        assert(first_attr(buf) =~= first);
        if items.len() == 1 {
            assert(rest =~= Seq::<Seq<u8>>::empty());
            assert(buf =~= first);
        } else {
            assert(first.len() % 4 == 0);
        }
        assert(after_first_attr(buf) =~= joined(rest));
        assert forall|i: int| 0 <= i < rest.len() implies is_attr(#[trigger] rest[i]) by {
            assert(rest[i] == items[i + 1]);
        }
        assert forall|i: int| 0 <= i < rest.len() - 1 implies (#[trigger] rest[i]).len() % 4
            == 0 by {
            assert(rest[i] == items[i + 1]);
        }
        lemma_attrs_of_joined(rest);
        assert(attrs(buf) =~= items);
    }
}

/// Setting the length field of a message made of a header and a body gives
/// the header with the new length, and the same body.
proof fn lemma_set_length_of_header(
    before: u32,
    after: u32,
    kind: u16,
    flags: u16,
    body: Seq<u8>,
)
    ensures
        overwrite(
            nl_header(before, kind, flags, 0, 0) + body,
            0,
            u32_bytes(after, endianness()),
        ) == nl_header(after, kind, flags, 0, 0) + body,
{
    let order = endianness();
    lemma_u32_round_trip(before, order);
    lemma_u32_round_trip(after, order);
    lemma_u16_round_trip(kind, order);
    lemma_u16_round_trip(flags, order);
    lemma_u32_round_trip(0, order);
    let old_bytes = nl_header(before, kind, flags, 0, 0) + body;
    let new_bytes = nl_header(after, kind, flags, 0, 0) + body;
    let patched = overwrite(old_bytes, 0, u32_bytes(after, order));
    assert(patched.len() == new_bytes.len());
    assert forall|k: int| 0 <= k < patched.len() implies patched[k] == new_bytes[k] by {
        if k < 4 {
            assert(patched[k] == u32_bytes(after, order)[k]);
            assert(new_bytes[k] == u32_bytes(after, order)[k]);
        } else {
            assert(patched[k] == old_bytes[k]);
            if k < 16 {
                assert(old_bytes[k] == nl_header(before, kind, flags, 0, 0)[k]);
                assert(new_bytes[k] == nl_header(after, kind, flags, 0, 0)[k]);
            } else {
                assert(old_bytes[k] == body[k - 16]);
                assert(new_bytes[k] == body[k - 16]);
            }
        }
    }
    assert(patched =~= new_bytes);
}

/// A request built from a bare header by appending `items` is a header that
/// declares sixteen bytes and the items' lengths, followed by the items, each
/// with its padding.
pub proof fn lemma_built_request_shape(kind: u16, flags: u16, items: Seq<Seq<u8>>)
    requires
        16 + total_len(items) <= u32::MAX,
    ensures
        with_items(nl_header(16, kind, flags, 0, 0), items) == nl_header(
            (16 + total_len(items)) as u32,
            kind,
            flags,
            0,
            0,
        ) + joined_padded(items),
    decreases items.len(),
{
    let bare = nl_header(16, kind, flags, 0, 0);
    lemma_total_len_bounds(items);
    if items.len() == 0 {
        assert(with_items(bare, items) =~= bare + joined_padded(items));
    } else {
        let init = items.drop_last();
        let last = items.last();
        lemma_total_len_bounds(init);
        lemma_built_request_shape(kind, flags, init);
        let before_len = (16 + total_len(init)) as u32;
        let after_len = (16 + total_len(items)) as u32;
        let body = joined_padded(init);
        let before = nl_header(before_len, kind, flags, 0, 0) + body;
        assert(with_items(bare, init) == before);
        lemma_header_fields(before_len, kind, flags, 0, 0, body);
        assert(nl_length(before) + last.len() == after_len);
        lemma_set_length_of_header(before_len, after_len, kind, flags, body);
        assert(with_items(bare, items) == with_item(before, last));
        assert(with_item(before, last) == nl_header(after_len, kind, flags, 0, 0) + body + last
            + zeros(padding(last.len() as int) as nat));
        assert(joined_padded(items) == body + last + zeros(padding(last.len() as int) as nat));
        assert(nl_header(after_len, kind, flags, 0, 0) + body + last + zeros(
            padding(last.len() as int) as nat,
        ) =~= nl_header(after_len, kind, flags, 0, 0) + (body + last + zeros(
            padding(last.len() as int) as nat,
        )));
    }
}

/// Attributes appended to a request come back from the attribute iterator
/// over the request's payload, the same and in the same order, provided that
/// each of them but the last ends on the alignment boundary: the length field
/// does not count padding, so the payload ends that many bytes early.
pub proof fn lemma_appended_attributes_read_back(kind: u16, flags: u16, items: Seq<Seq<u8>>)
    requires
        forall|i: int| 0 <= i < items.len() ==> is_attr(#[trigger] items[i]),
        inner_items_aligned(items),
        16 + total_len(items) <= u32::MAX,
    ensures
        attrs(nl_payload(with_items(nl_header(16, kind, flags, 0, 0), items))) == items,
{
    let total = total_len(items);
    let declared = (16 + total) as u32;
    let body = joined_padded(items);
    let built = nl_header(declared, kind, flags, 0, 0) + body;
    lemma_built_request_shape(kind, flags, items);
    lemma_total_len_bounds(items);
    lemma_header_fields(declared, kind, flags, 0, 0, body);
    assert(nl_payload(built) =~= body.subrange(0, total));
    if items.len() == 0 {
        assert(body.subrange(0, total) =~= joined(items));
    } else {
        let init = items.drop_last();
        assert forall|i: int| 0 <= i < init.len() implies (#[trigger] init[i]).len() % 4 == 0 by {
            assert(init[i] == items[i]);
        }
        lemma_aligned_items_need_no_padding(init);
        lemma_total_len_bounds(init);
        assert(body.subrange(0, total) =~= joined(items));
    }
    lemma_attrs_of_joined(items);
}

/// What lies behind the header of a request built by appending whole
/// attributes: the attributes, each with its padding.
proof fn lemma_built_request_area(b: Seq<u8>, items: Seq<Seq<u8>>)
    requires
        b.len() == 16,
        forall|i: int| 0 <= i < items.len() ==> is_attr(#[trigger] items[i]),
    ensures
        with_items(b, items).len() >= 16,
        with_items(b, items).subrange(16, with_items(b, items).len() as int) == with_attrs(
            Seq::empty(),
            items,
        ),
    decreases items.len(),
{
    let built = with_items(b, items);
    if items.len() == 0 {
        assert(built.subrange(16, built.len() as int) =~= with_attrs(Seq::empty(), items));
    } else {
        let init = items.drop_last();
        let last = items.last();
        let before = with_items(b, init);
        assert forall|i: int| 0 <= i < init.len() implies is_attr(#[trigger] init[i]) by {
            assert(init[i] == items[i]);
        }
        lemma_built_request_area(b, init);
        lemma_with_item_shape(before, last);
        assert(is_attr(last));
        assert(padded_attr(last) =~= last + zeros(padding(last.len() as int) as nat));
        assert(built == with_item(before, last));
        assert(built.subrange(16, built.len() as int) =~= before.subrange(
            16,
            before.len() as int,
        ) + padded_attr(last)) by {
            assert(built.subrange(4, before.len() as int) == before.subrange(
                4,
                before.len() as int,
            ));
            assert forall|k: int| 16 <= k < before.len() implies built[k] == before[k] by {
                assert(built.subrange(4, before.len() as int)[k - 4] == before.subrange(
                    4,
                    before.len() as int,
                )[k - 4]);
            }
        }
    }
}

/// Attributes appended to a request come back from the attribute iterator
/// over the bytes behind the request's header, the same and in the same
/// order, whatever their lengths: the padding that parts them is in the
/// buffer, though the length field does not count it.
pub proof fn lemma_appended_attributes_stand_in_buffer(kind: u16, flags: u16, items: Seq<Seq<u8>>)
    requires
        forall|i: int| 0 <= i < items.len() ==> is_attr(#[trigger] items[i]),
    ensures
        with_items(nl_header(16, kind, flags, 0, 0), items).len() >= 16,
        attrs(
            with_items(nl_header(16, kind, flags, 0, 0), items).subrange(
                16,
                with_items(nl_header(16, kind, flags, 0, 0), items).len() as int,
            ),
        ) == items,
{
    let bare = nl_header(16, kind, flags, 0, 0);
    lemma_header_fields(16, kind, flags, 0, 0, Seq::empty());
    lemma_built_request_area(bare, items);
    assert forall|i: int| 0 <= i < items.len() implies has_attr(#[trigger] items[i]) by {
        assert(is_attr(items[i]));
    }
    lemma_appended_attrs_read_back(items);
    let read = Seq::new(items.len(), |i: int| first_attr(items[i]));
    assert forall|i: int| 0 <= i < items.len() implies read[i] == items[i] by {
        assert(is_attr(items[i]));
        assert(first_attr(items[i]) =~= items[i]);
    }
    assert(read =~= items);
}

/// NetlinkRequestBuilder provides functions
/// for building Netlink requests
#[derive(Debug)]
pub struct NetlinkRequestBuilder {
    data: Vec<u8>,
}

impl NetlinkRequestBuilder {
    /// The bytes of the request as far as it is built.
    pub closed spec fn view(&self) -> Seq<u8> {
        self.data@
    }

    #[verifier::type_invariant]
    spec fn has_header(self) -> bool {
        self.data@.len() >= 16 && self.data@.len() % 4 == 0
    }

    /// Creates an empty request with flags `flags`
    /// `NLM_F_REQUEST` is set automatically
    pub fn new(kind: u16, flags: NetlinkMsgFlags) -> (builder: Self)
        ensures
            builder@ == bare_request(kind, flags@),
            builder@.len() == 16,
            nl_length(builder@) == 16,
    {
        let request = NetlinkMsgFlags::new(NetlinkMsgFlags::NLM_F_REQUEST);
        let flags = flags.union(request);
        proof {
            assert(1u16 & 0xf1f == 1) by (bit_vector);
            lemma_header_fields(16, kind, flags@, 0, 0, Seq::empty());
            assert(nl_header(16, kind, flags@, 0, 0) + Seq::<u8>::empty() =~= nl_header(
                16,
                kind,
                flags@,
                0,
                0,
            ));
        }
        let pkt = MutableNetlinkPacket::build(kind, flags);
        NetlinkRequestBuilder { data: pkt.into_bytes() }
    }

    /// The length that the header declares so far.
    pub fn declared_length(&self) -> (len: u32)
        ensures
            len == nl_length(self@),
    {
        proof {
            use_type_invariant(self);
        }
        get_u32(self.data.as_slice(), 0)
    }

    /// Appends `data` to Netlink header. Alignment is handled
    /// automatically.
    ///
    /// The item starts where the buffer ended, on the alignment boundary,
    /// and is followed by its padding, so that the buffer stays a multiple of
    /// four bytes long. Of the bytes before it only the length field
    /// changes: it grows by the item's length without the padding. The
    /// field holds 32 bits, and the grown length has to fit them.
    pub fn append(self, data: &[u8]) -> (builder: Self)
        requires
            nl_length(self@) + data@.len() <= u32::MAX,
        ensures
            builder@ == with_item(self@, data@),
            nl_length(builder@) == nl_length(self@) + data@.len(),
            self@.len() % 4 == 0,
            builder@.len() == self@.len() + align_up(data@.len() as int),
            builder@.len() % 4 == 0,
            builder@.subrange(4, self@.len() as int) == self@.subrange(4, self@.len() as int),
            builder@.subrange(self@.len() as int, (self@.len() + data@.len()) as int) == data@,
            builder@.subrange((self@.len() + data@.len()) as int, builder@.len() as int) == zeros(
                padding(data@.len() as int) as nat,
            ),
    {
        proof {
            use_type_invariant(&self);
        }
        let ghost before = self.data@;
        let mut buf = self.data;
        let len = data.len();
        let declared = get_u32(buf.as_slice(), 0);
        let grown: u32 = declared + len as u32;
        put_u32(&mut buf, 0, grown);
        buf.extend_from_slice(data);
        let rem: usize = len % 4;
        let pad: usize = if rem == 0 {
            0
        } else {
            4 - rem
        };
        // add padding for alignment
        push_zeros(&mut buf, pad);
        proof {
            assert(buf@ =~= with_item(before, data@));
            lemma_with_item_shape(before, data@);
        }
        NetlinkRequestBuilder { data: buf }
    }

    /// Appends `data` if the grown length fits the length field, and hands
    /// the builder back as it was if it does not.
    pub fn try_append(self, data: &[u8]) -> (result: Result<Self, Self>)
        ensures
            match result {
                Ok(builder) => nl_length(self@) + data@.len() <= u32::MAX && builder@ == with_item(
                    self@,
                    data@,
                ),
                Err(builder) => nl_length(self@) + data@.len() > u32::MAX && builder@ == self@,
            },
    {
        let declared = self.declared_length();
        let len = data.len();
        if len > u32::MAX as usize || u32::MAX - declared < len as u32 {
            Err(self)
        } else {
            Ok(self.append(data))
        }
    }

    /// Returns final packet
    pub fn build(self) -> (pkt: NetlinkPacket<'static>)
        ensures
            pkt@ == self@,
            pkt@.len() % 4 == 0,
    {
        proof {
            use_type_invariant(&self);
        }
        NetlinkPacket { packet: PacketData::Owned(self.data) }
    }
}


} // verus!
