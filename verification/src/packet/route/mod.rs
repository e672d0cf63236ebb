//! RTNETLINK aka Netlink Route Family is used for network device configuration.
//!
//! Here are the attribute, the record every route message ends in a list of,
//! and the iterator that walks such a list.
use crate::packet::{copy_range, zeros, PacketData};
use crate::util::{align_up, padding};
use crate::wire::{
    get_u16, lemma_u16_round_trip, push_u16, u16_at, u16_bytes,
};
use vstd::endian::endianness;
use vstd::prelude::*;
use vstd::slice::slice_subrange;
use vstd::utf8::{decode_utf8, valid_utf8};

pub mod addr;
pub mod headers;
pub mod link;
pub mod neighbour;
pub mod route;
pub mod rule;

pub use headers::{
    FibRulePacket, IfAddrCacheInfoPacket, IfAddrPacket, IfInfoPacket, NeighbourDiscoveryPacket,
    RouteCacheInfoPacket, RtAttrMtuPacket, RtMsgPacket,
};

verus! {

/// Size of an attribute's header.
pub const RTA_HDRLEN: usize = 4;

/// The length field of the attribute that starts `b`: header and payload,
/// without padding.
pub open spec fn rta_len(b: Seq<u8>) -> u16 {
    u16_at(b, 0)
}

/// The type field of the attribute that starts `b`.
pub open spec fn rta_type(b: Seq<u8>) -> u16 {
    u16_at(b, 2)
}

/// Where the payload of the attribute in `b` ends: at the declared length,
/// but never before the header's end nor behind the last byte.
pub open spec fn rta_payload_end(b: Seq<u8>) -> int {
    let declared = rta_len(b) as int;
    if declared < 4 {
        4
    } else if declared > b.len() {
        b.len() as int
    } else {
        declared
    }
}

/// The payload of the attribute in `b`, as the length field bounds it.
pub open spec fn rta_payload(b: Seq<u8>) -> Seq<u8>
    recommends
        b.len() >= 4,
{
    b.subrange(4, rta_payload_end(b))
}

/// The bytes of an attribute with the given type and payload.
pub open spec fn attr_bytes(kind: u16, payload: Seq<u8>) -> Seq<u8>
    recommends
        4 + payload.len() <= u16::MAX,
{
    u16_bytes((4 + payload.len()) as u16, endianness()) + u16_bytes(kind, endianness()) + payload
}

/// True if `b` is one whole attribute and nothing else: its length field
/// counts exactly the bytes of `b`.
pub open spec fn is_attr(b: Seq<u8>) -> bool {
    b.len() >= 4 && rta_len(b) == b.len()
}

/// True if `buf` starts with a whole attribute: a header is there, and the
/// length it declares covers the header and does not pass the buffer's end.
pub open spec fn has_attr(buf: Seq<u8>) -> bool {
    buf.len() >= 4 && 4 <= rta_len(buf) <= buf.len()
}

/// The attribute that `buf` starts with: exactly as many bytes as its length
/// field says.
pub open spec fn first_attr(buf: Seq<u8>) -> Seq<u8>
    recommends
        has_attr(buf),
{
    buf.subrange(0, rta_len(buf) as int)
}

/// How far the attribute that `buf` starts with reaches, padding included;
/// the padding of the last attribute may be missing.
pub open spec fn attr_stride(buf: Seq<u8>) -> int
    recommends
        has_attr(buf),
{
    let aligned = align_up(rta_len(buf) as int);
    if aligned > buf.len() {
        buf.len() as int
    } else {
        aligned
    }
}

/// What is left of `buf` behind its first attribute and that one's padding.
pub open spec fn after_first_attr(buf: Seq<u8>) -> Seq<u8>
    recommends
        has_attr(buf),
{
    buf.subrange(attr_stride(buf), buf.len() as int)
}

/// The attributes of `buf` in order: each as long as its length field says,
/// each starting on the alignment boundary behind the one before. The list
/// ends where fewer than four bytes are left, or where a length field is
/// under four or passes the end of the buffer.
pub open spec fn attrs(buf: Seq<u8>) -> Seq<Seq<u8>>
    decreases buf.len(),
{
    if has_attr(buf) {
        seq![first_attr(buf)] + attrs(after_first_attr(buf))
    } else {
        Seq::empty()
    }
}

/// The first of `list` whose type field is `kind`, if there is one.
pub open spec fn first_of_type(list: Seq<Seq<u8>>, kind: u16) -> Option<Seq<u8>>
    decreases list.len(),
{
    if list.len() == 0 {
        None
    } else if rta_type(list[0]) == kind {
        Some(list[0])
    } else {
        first_of_type(list.drop_first(), kind)
    }
}

/// An attribute built from a type and a payload reads back as that type and
/// that payload, and is one whole attribute.
pub proof fn lemma_attr_round_trip(kind: u16, payload: Seq<u8>)
    requires
        4 + payload.len() <= u16::MAX,
    ensures
        attr_bytes(kind, payload).len() == 4 + payload.len(),
        rta_len(attr_bytes(kind, payload)) == 4 + payload.len(),
        rta_type(attr_bytes(kind, payload)) == kind,
        rta_payload(attr_bytes(kind, payload)) == payload,
        is_attr(attr_bytes(kind, payload)),
        has_attr(attr_bytes(kind, payload)),
        first_attr(attr_bytes(kind, payload)) == attr_bytes(kind, payload),
{
    let order = endianness();
    let len = (4 + payload.len()) as u16;
    lemma_u16_round_trip(len, order);
    lemma_u16_round_trip(kind, order);
    let b = attr_bytes(kind, payload);
    assert(b.subrange(0, 2) =~= u16_bytes(len, order));
    assert(b.subrange(2, 4) =~= u16_bytes(kind, order));
    assert(b.subrange(4, b.len() as int) =~= payload);
    assert(first_attr(b) =~= b);
}

/// The next attribute starts the aligned length of this one further on: for
/// every length from four up to 4096 that is `(len + 3) & !3`.
pub proof fn lemma_stride_is_aligned_length(len: u16)
    requires
        4 <= len <= 4096,
    ensures
        align_up(len as int) == ((len + 3) as u16 & !3u16),
        align_up(len as int) % 4 == 0,
        len <= align_up(len as int) < len + 4,
{
    let bumped: u16 = (len + 3) as u16;
    assert(bumped & !3u16 == bumped - bumped % 4) by (bit_vector);
}

/// In a buffer that starts with a whole attribute and holds its padding too,
/// what follows begins exactly the aligned length further on.
pub proof fn lemma_next_attr_offset(buf: Seq<u8>)
    requires
        has_attr(buf),
        align_up(rta_len(buf) as int) <= buf.len(),
    ensures
        after_first_attr(buf) == buf.subrange(align_up(rta_len(buf) as int), buf.len() as int),
        attrs(buf) == seq![first_attr(buf)] + attrs(
            buf.subrange(align_up(rta_len(buf) as int), buf.len() as int),
        ),
{
}

/// A buffer too short for a header holds no attribute: none in an empty
/// buffer, none in one of three bytes.
pub proof fn lemma_short_buffer_has_no_attrs(buf: Seq<u8>)
    requires
        buf.len() < 4,
    ensures
        attrs(buf) == Seq::<Seq<u8>>::empty(),
{
}

/// As much of the attribute `rta` as its length field counts, followed by
/// the padding of that length.
pub open spec fn padded_attr(rta: Seq<u8>) -> Seq<u8>
    recommends
        rta_len(rta) <= rta.len(),
{
    rta.subrange(0, rta_len(rta) as int) + zeros(padding(rta_len(rta) as int) as nat)
}

/// True if `area` is made of whole attributes and nothing else, each
/// followed by all of its padding: what a builder leaves behind a header.
pub open spec fn is_attr_run(area: Seq<u8>) -> bool
    decreases area.len(),
{
    area.len() == 0 || (has_attr(area) && align_up(rta_len(area) as int) <= area.len()
        && is_attr_run(area.subrange(align_up(rta_len(area) as int), area.len() as int)))
}

/// What `area` becomes when the attributes `items` are appended one after
/// the other, each as far as its length field counts it and with its padding.
pub open spec fn with_attrs(area: Seq<u8>, items: Seq<Seq<u8>>) -> Seq<u8>
    decreases items.len(),
{
    if items.len() == 0 {
        area
    } else {
        with_attrs(area, items.drop_last()) + padded_attr(items.last())
    }
}

/// Appending a whole attribute and its padding to a run of attributes gives
/// a run again, four-byte aligned if the run was, that reads back as the
/// attributes before and then the one appended.
pub proof fn lemma_attr_run_append(area: Seq<u8>, rta: Seq<u8>)
    requires
        is_attr_run(area),
        has_attr(rta),
    ensures
        is_attr_run(area + padded_attr(rta)),
        attrs(area + padded_attr(rta)) == attrs(area) + seq![first_attr(rta)],
        padded_attr(rta).len() == align_up(rta_len(rta) as int),
        padded_attr(rta).len() % 4 == 0,
    decreases area.len(),
{
    let tail = padded_attr(rta);
    let whole = area + tail;
    let len = rta_len(rta) as int;
    assert(rta.subrange(0, len).len() == len);
    assert(tail.len() == align_up(len));
    assert(tail.subrange(0, 2) =~= rta.subrange(0, 2));
    assert(rta_len(tail) == rta_len(rta));
    assert(has_attr(tail));
    assert(first_attr(tail) =~= first_attr(rta));
    if area.len() == 0 {
        assert(whole =~= tail);
        assert(attr_stride(tail) == tail.len());
        assert(after_first_attr(tail) =~= Seq::<u8>::empty());
        assert(attrs(after_first_attr(tail)) =~= Seq::<Seq<u8>>::empty());
        assert(attrs(tail) =~= seq![first_attr(rta)]);
        let nothing = tail.subrange(align_up(rta_len(tail) as int), tail.len() as int);
        assert(nothing.len() == 0);
        assert(is_attr_run(nothing));
        assert(is_attr_run(tail));
        assert(tail.subrange(align_up(rta_len(tail) as int), tail.len() as int) =~= Seq::<
            u8,
        >::empty());
        assert(attrs(area) =~= Seq::<Seq<u8>>::empty());
        assert(attrs(whole) =~= attrs(area) + seq![first_attr(rta)]);
    } else {
        let stride = align_up(rta_len(area) as int);
        let rest = area.subrange(stride, area.len() as int);
        assert(whole.subrange(0, 2) =~= area.subrange(0, 2));
        assert(rta_len(whole) == rta_len(area));
        assert(first_attr(whole) =~= first_attr(area));
        assert(after_first_attr(area) =~= rest);
        assert(after_first_attr(whole) =~= rest + tail);
        assert(whole.subrange(stride, whole.len() as int) =~= rest + tail);
        lemma_attr_run_append(rest, rta);
        assert(has_attr(whole));
        assert(is_attr_run(whole.subrange(stride, whole.len() as int)));
        assert(is_attr_run(whole));
        assert(attrs(whole) =~= attrs(area) + seq![first_attr(rta)]);
    }
}

/// Whole attributes appended to an empty area come back from the attribute
/// iterator, the same and in the same order, however long each of them is:
/// the padding that parts them is in the area.
pub proof fn lemma_appended_attrs_read_back(items: Seq<Seq<u8>>)
    requires
        forall|i: int| 0 <= i < items.len() ==> has_attr(#[trigger] items[i]),
    ensures
        is_attr_run(with_attrs(Seq::empty(), items)),
        with_attrs(Seq::empty(), items).len() % 4 == 0,
        attrs(with_attrs(Seq::empty(), items)) == Seq::new(
            items.len(),
            |i: int| first_attr(items[i]),
        ),
    decreases items.len(),
{
    let area = with_attrs(Seq::empty(), items);
    let read = Seq::new(items.len(), |i: int| first_attr(items[i]));
    if items.len() == 0 {
        assert(attrs(area) =~= read);
    } else {
        let init = items.drop_last();
        let last = items.last();
        let before = with_attrs(Seq::empty(), init);
        assert forall|i: int| 0 <= i < init.len() implies has_attr(#[trigger] init[i]) by {
            assert(init[i] == items[i]);
        }
        lemma_appended_attrs_read_back(init);
        assert(has_attr(last));
        lemma_attr_run_append(before, last);
        assert(area == before + padded_attr(last));
        let got = attrs(before) + seq![first_attr(last)];
        assert(got.len() == items.len());
        assert forall|i: int| 0 <= i < items.len() implies got[i] == read[i] by {
            if i < init.len() {
                assert(init[i] == items[i]);
            }
        }
        assert(got =~= read);
    }
}

/// The text of a payload that is a C string: all bytes before the closing
/// NUL, provided that the payload ends in a NUL and holds no other.
pub open spec fn c_string(payload: Seq<u8>) -> Option<Seq<u8>> {
    if payload.len() >= 1 && payload.last() == 0 && !payload.drop_last().contains(0u8) {
        Some(payload.drop_last())
    } else {
        None
    }
}

/// The string that a payload spells: its text, if the payload is a C string
/// and the text is UTF-8.
pub open spec fn string_of(payload: Seq<u8>) -> Option<Seq<char>> {
    match c_string(payload) {
        Some(text) => if valid_utf8(text) {
            Some(decode_utf8(text))
        } else {
            None
        },
        None => None,
    }
}

/// `String::from_utf8`: the string that the bytes spell, if they are UTF-8,
/// and nothing if they are not.
#[verifier::external_body]
fn string_from_utf8(bytes: Vec<u8>) -> (text: Option<String>)
    ensures
        text.is_some() <==> valid_utf8(bytes@),
        text.is_some() ==> text.unwrap()@ == decode_utf8(bytes@),
{
    match String::from_utf8(bytes) {
        Ok(text) => Some(text),
        Err(_) => None,
    }
}

/// Reads a payload that holds a NUL-terminated string.
pub fn read_string(payload: &[u8]) -> (text: Option<String>)
    ensures
        match string_of(payload@) {
            Some(chars) => text.is_some() && text.unwrap()@ == chars,
            None => text.is_none(),
        },
{
    let len = payload.len();
    if len == 0 || payload[len - 1] != 0 {
        return None;
    }
    let mut i: usize = 0;
    while i < len - 1
        invariant
            len == payload@.len(),
            len >= 1,
            i <= len - 1,
            forall|j: int| 0 <= j < i ==> payload@[j] != 0,
        decreases len - i,
    {
        if payload[i] == 0 {
            assert(payload@.drop_last()[i as int] == 0u8);
            return None;
        }
        i = i + 1;
    }
    assert(!payload@.drop_last().contains(0u8)) by {
        if payload@.drop_last().contains(0u8) {
            let j = choose|j: int| 0 <= j < payload@.drop_last().len() && payload@.drop_last()[j] == 0u8;
            assert(payload@[j] == 0);
        }
    }
    let bytes = copy_range(payload, 0, len - 1);
    assert(bytes@ =~= payload@.drop_last());
    string_from_utf8(bytes)
}

#[verifier::external_type_specification]
#[verifier::external_body]
pub struct ExMacAddr(pnet::util::MacAddr);

/// The six octets of a hardware address, first to last.
pub uninterp spec fn mac_octets(addr: pnet::util::MacAddr) -> Seq<u8>;

/// `pnet::util::MacAddr::new`: the address made of the six octets, in the
/// order given.
#[verifier::external_body]
fn mac_addr_new(a: u8, b: u8, c: u8, d: u8, e: u8, f: u8) -> (addr: pnet::util::MacAddr)
    ensures
        mac_octets(addr) == seq![a, b, c, d, e, f],
{
    pnet::util::MacAddr::new(a, b, c, d, e, f)
}

/// Reads a payload that holds a hardware address: its first six bytes.
pub fn read_mac(payload: &[u8]) -> (addr: Option<pnet::util::MacAddr>)
    ensures
        addr.is_some() <==> payload@.len() >= 6,
        addr.is_some() ==> mac_octets(addr.unwrap()) == payload@.subrange(0, 6),
{
    if payload.len() < 6 {
        return None;
    }
    let addr = mac_addr_new(
        payload[0],
        payload[1],
        payload[2],
        payload[3],
        payload[4],
        payload[5],
    );
    assert(mac_octets(addr) =~= payload@.subrange(0, 6));
    Some(addr)
}

/// One routing attribute: a four-byte header and a payload.
#[derive(Debug)]
pub struct RtAttrPacket<'a> {
    packet: PacketData<'a>,
}

impl<'a> RtAttrPacket<'a> {
    /// The bytes of the attribute, header first.
    pub closed spec fn view(&self) -> Seq<u8> {
        self.packet@
    }

    #[verifier::type_invariant]
    spec fn has_header(self) -> bool {
        self.packet@.len() >= 4
    }

    /// Size of the header: the least an attribute can be.
    pub fn minimum_packet_size() -> (n: usize)
        ensures
            n == 4,
    {
        RTA_HDRLEN
    }

    /// A view of `buf` as an attribute, if `buf` can hold a header.
    pub fn new(buf: &'a [u8]) -> (pkt: Option<RtAttrPacket<'a>>)
        ensures
            pkt.is_some() <==> buf@.len() >= 4,
            pkt.is_some() ==> pkt.unwrap()@ == buf@,
    {
        if buf.len() >= RTA_HDRLEN {
            Some(RtAttrPacket { packet: PacketData::Borrowed(buf) })
        } else {
            None
        }
    }

    /// An attribute that owns `buf`, if `buf` can hold a header.
    pub fn owned(buf: Vec<u8>) -> (pkt: Option<RtAttrPacket<'static>>)
        ensures
            pkt.is_some() <==> buf@.len() >= 4,
            pkt.is_some() ==> pkt.unwrap()@ == buf@,
    {
        if buf.len() >= RTA_HDRLEN {
            Some(RtAttrPacket { packet: PacketData::Owned(buf) })
        } else {
            None
        }
    }

    /// The attribute with the given type and payload, in a buffer of its own.
    pub fn build(kind: u16, payload: &[u8]) -> (pkt: RtAttrPacket<'static>)
        requires
            4 + payload@.len() <= u16::MAX,
        ensures
            pkt@ == attr_bytes(kind, payload@),
            rta_len(pkt@) == 4 + payload@.len(),
            rta_type(pkt@) == kind,
            rta_payload(pkt@) == payload@,
    {
        let mut buf: Vec<u8> = Vec::new();
        push_u16(&mut buf, (payload.len() + 4) as u16);
        push_u16(&mut buf, kind);
        buf.extend_from_slice(payload);
        proof {
            lemma_u16_round_trip((4 + payload@.len()) as u16, endianness());
            assert(buf@ =~= attr_bytes(kind, payload@));
            lemma_attr_round_trip(kind, payload@);
        }
        RtAttrPacket { packet: PacketData::Owned(buf) }
    }

    /// A copy of this attribute that owns its bytes.
    pub fn to_owned(&self) -> (pkt: RtAttrPacket<'static>)
        ensures
            pkt@ == self@,
    {
        proof {
            use_type_invariant(self);
        }
        let s = self.packet.as_slice();
        let v = copy_range(s, 0, s.len());
        assert(v@ =~= self@);
        RtAttrPacket { packet: PacketData::Owned(v) }
    }

    /// All bytes of the attribute.
    pub fn packet(&self) -> (bytes: &[u8])
        ensures
            bytes@ == self@,
            bytes@.len() >= 4,
    {
        proof {
            use_type_invariant(self);
        }
        self.packet.as_slice()
    }

    /// Number of bytes held, which need not be the length field's value.
    pub fn packet_size(&self) -> (n: usize)
        ensures
            n == self@.len(),
            n >= 4,
    {
        proof {
            use_type_invariant(self);
        }
        self.packet.len()
    }

    /// Length of the attribute as its header declares it.
    pub fn get_rta_len(&self) -> (v: u16)
        ensures
            v == rta_len(self@),
    {
        proof {
            use_type_invariant(self);
        }
        get_u16(self.packet.as_slice(), 0)
    }

    /// Type of the attribute.
    pub fn get_rta_type(&self) -> (v: u16)
        ensures
            v == rta_type(self@),
    {
        proof {
            use_type_invariant(self);
        }
        get_u16(self.packet.as_slice(), 2)
    }

    /// What follows the header, as far as the length field reaches.
    pub fn payload(&self) -> (p: &[u8])
        ensures
            p@ == rta_payload(self@),
    {
        proof {
            use_type_invariant(self);
        }
        let s = self.packet.as_slice();
        let declared = get_u16(s, 0) as usize;
        let end = if declared < 4 {
            4
        } else if declared > s.len() {
            s.len()
        } else {
            declared
        };
        slice_subrange(s, 4, end)
    }
}

/// RTNETLINK attribute iterator
#[derive(Debug)]
pub struct RtAttrIterator<'a> {
    buf: &'a [u8],
}

impl<'a> RtAttrIterator<'a> {
    /// The bytes not yet walked over.
    pub closed spec fn view(&self) -> Seq<u8> {
        self.buf@
    }

    /// An iterator over the attributes of `buf`.
    pub fn new(buf: &'a [u8]) -> (iter: Self)
        ensures
            iter@ == buf@,
    {
        RtAttrIterator { buf: buf }
    }

    /// The next attribute, if the bytes left start with a whole one; the
    /// iterator then stands behind it and its padding. Otherwise nothing, and
    /// the iterator stays where it is.
    pub fn next(&mut self) -> (item: Option<RtAttrPacket<'a>>)
        ensures
            has_attr(old(self)@) ==> item.is_some() && item.unwrap()@ == first_attr(old(self)@)
                && final(self)@ == after_first_attr(old(self)@),
            !has_attr(old(self)@) ==> item.is_none() && final(self)@ == old(self)@,
    {
        let buf = self.buf;
        if buf.len() < RTA_HDRLEN {
            return None;
        }
        let len = get_u16(buf, 0) as usize;
        if len < RTA_HDRLEN || len > buf.len() {
            return None;
        }
        let rem: usize = len % 4;
        let pad: usize = if rem == 0 {
            0
        } else {
            4 - rem
        };
        let stride = if buf.len() - len < pad {
            buf.len()
        } else {
            len + pad
        };
        self.buf = slice_subrange(buf, stride, buf.len());
        Some(RtAttrPacket { packet: PacketData::Borrowed(slice_subrange(buf, 0, len)) })
    }

    /// All attributes that are left, in order.
    pub fn collect(self) -> (list: Vec<RtAttrPacket<'a>>)
        ensures
            list@.len() == attrs(self@).len(),
            forall|i: int| 0 <= i < list@.len() ==> (#[trigger] list@[i])@ == attrs(self@)[i],
    {
        let mut iter = self;
        let mut list: Vec<RtAttrPacket<'a>> = Vec::new();
        let ghost all = attrs(iter@);
        loop
            invariant
                all == attrs(self@),
                list@.len() + attrs(iter@).len() == all.len(),
                forall|i: int| 0 <= i < list@.len() ==> (#[trigger] list@[i])@ == all[i],
                forall|i: int|
                    0 <= i < attrs(iter@).len() ==> #[trigger] attrs(iter@)[i] == all[list@.len()
                        + i],
            ensures
                list@.len() == all.len(),
                forall|i: int| 0 <= i < list@.len() ==> (#[trigger] list@[i])@ == all[i],
            decreases iter@.len(),
        {
            let ghost before = iter@;
            match iter.next() {
                Some(attr) => {
                    proof {
                        assert(attrs(before) == seq![first_attr(before)] + attrs(
                            after_first_attr(before),
                        ));
                        assert(attrs(before)[0] == first_attr(before));
                        assert forall|i: int| 0 <= i < attrs(iter@).len() implies #[trigger] attrs(
                            iter@,
                        )[i] == all[list@.len() + 1 + i] by {
                            assert(attrs(iter@)[i] == attrs(before)[i + 1]);
                        }
                    }
                    list.push(attr);
                },
                None => {
                    break ;
                },
            }
        }
        list
    }

    /// The first attribute left whose type is `kind`.
    pub fn find_type(self, kind: u16) -> (found: Option<RtAttrPacket<'a>>)
        ensures
            match first_of_type(attrs(self@), kind) {
                Some(bytes) => found.is_some() && found.unwrap()@ == bytes,
                None => found.is_none(),
            },
    {
        let mut iter = self;
        loop
            invariant
                first_of_type(attrs(iter@), kind) == first_of_type(attrs(self@), kind),
            decreases iter@.len(),
        {
            let ghost before = iter@;
            match iter.next() {
                Some(attr) => {
                    proof {
                        assert(attrs(before) == seq![first_attr(before)] + attrs(
                            after_first_attr(before),
                        ));
                        assert(attrs(before).drop_first() =~= attrs(iter@));
                    }
                    if attr.get_rta_type() == kind {
                        return Some(attr);
                    }
                },
                None => {
                    return None;
                },
            }
        }
    }
}

} // verus!
