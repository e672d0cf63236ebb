//! Route operations
use crate::packet::netlink::{
    nl_kind, nl_payload, NetlinkBufIterator, NetlinkMsgFlags, NetlinkPacket,
};
use crate::packet::reader::{
    lemma_read_step, model_wf, read_model, session_transcript, ActionModel, ReaderModel,
};
use crate::packet::route::addr::IpAddr;
use crate::packet::route::headers::RtMsgPacket;
use crate::packet::route::link::{ifinfo, ifinfo_header, request, request_bytes};
use crate::packet::route::{
    attr_bytes, attrs, first_of_type, lemma_attr_round_trip, rta_len, rta_payload, rta_type,
    IfInfoPacket, RtAttrIterator, RtAttrPacket,
};
use crate::packet::{push_zeros, zeros};
use crate::util::padding;
use crate::wire::{
    get_u32_be, get_u32_le, lemma_u32_round_trip, push_u16, push_u32, u16_bytes, u32_bytes,
    u32_value,
};
use vstd::endian::{endianness, Endian};
use vstd::prelude::*;
use vstd::slice::slice_subrange;
use vstd::string::StringSliceAdditionalSpecFns;

verus! {

pub const RTM_NEWROUTE: u16 = 24;

pub const RTM_DELROUTE: u16 = 25;

pub const RTM_GETROUTE: u16 = 26;

// Reserved table identifiers
pub const RT_TABLE_UNSPEC: u32 = 0;

// User defined values
pub const RT_TABLE_COMPAT: u32 = 252;

pub const RT_TABLE_DEFAULT: u32 = 253;

pub const RT_TABLE_MAIN: u32 = 254;

pub const RT_TABLE_LOCAL: u32 = 255;

pub const RTA_UNSPEC: u16 = 0;

pub const RTA_DST: u16 = 1;

pub const RTA_SRC: u16 = 2;

pub const RTA_IIF: u16 = 3;

pub const RTA_OIF: u16 = 4;

pub const RTA_GATEWAY: u16 = 5;

pub const RTA_PRIORITY: u16 = 6;

pub const RTA_PREFSRC: u16 = 7;

pub const RTA_METRICS: u16 = 8;

pub const RTA_MULTIPATH: u16 = 9;

/// no longer used
pub const RTA_PROTOINFO: u16 = 10;

pub const RTA_FLOW: u16 = 11;

pub const RTA_CACHEINFO: u16 = 12;

/// no longer used
pub const RTA_SESSION: u16 = 13;

/// no longer used
pub const RTA_MP_ALGO: u16 = 14;

pub const RTA_TABLE: u16 = 15;

pub const RTA_MARK: u16 = 16;

/// Flags of a route message.
#[derive(Clone, Copy, Debug, PartialEq, Eq, Structural)]
pub struct RtmFlags {
    bits: u32,
}

impl RtmFlags {
    /// Notify user of route change
    pub const NOTIFY: u32 = 0x100;

    /// This route is cloned
    pub const CLONED: u32 = 0x200;

    /// Multipath equalizer
    pub const EQUALIZE: u32 = 0x400;

    /// Prefix addresses
    pub const PREFIX: u32 = 0x800;

    /// Every bit that names a flag.
    pub const ALL: u32 = 0xf00;

    /// The flag word as a number.
    pub closed spec fn view(&self) -> u32 {
        self.bits
    }

    #[verifier::type_invariant]
    spec fn known_bits(self) -> bool {
        self.bits & 0xf00 == self.bits
    }

    /// Words made of known bits stay so when they are joined, cut or masked.
    proof fn lemma_known_bits(a: u32, b: u32)
        by (bit_vector)
        ensures
            (a & 0xf00) & 0xf00 == a & 0xf00,
            a & 0xf00 == a && b & 0xf00 == b ==> (a | b) & 0xf00 == (a | b),
            a & 0xf00 == a ==> (a & b) & 0xf00 == (a & b),
            a & 0xf00 == a ==> (a & !b) & 0xf00 == (a & !b),
    {
    }

    /// The flags among the bits of `val`; bits that name no flag are dropped.
    pub fn new(val: u32) -> (flags: Self)
        ensures
            flags@ == val & 0xf00,
    {
        proof {
            Self::lemma_known_bits(val, val);
        }
        RtmFlags { bits: val & 0xf00 }
    }

    /// The flag word as a number.
    pub fn bits(&self) -> (bits: u32)
        ensures
            bits == self@,
            bits & 0xf00 == bits,
    {
        proof {
            use_type_invariant(self);
        }
        self.bits
    }

    /// True if every flag of `other` is set in `self`.
    pub fn contains(&self, other: RtmFlags) -> (all: bool)
        ensures
            all == (self@ & other@ == other@),
    {
        self.bits & other.bits == other.bits
    }

    /// True if no flag is set.
    pub fn is_empty(&self) -> (none: bool)
        ensures
            none == (self@ == 0),
    {
        self.bits == 0
    }

    /// The flags of `self` together with those of `other`.
    pub fn union(self, other: RtmFlags) -> (flags: Self)
        ensures
            flags@ == self@ | other@,
    {
        proof {
            use_type_invariant(self);
            use_type_invariant(other);
            Self::lemma_known_bits(self.bits, other.bits);
        }
        RtmFlags { bits: self.bits | other.bits }
    }

    /// The flags that `self` and `other` share.
    pub fn intersection(self, other: RtmFlags) -> (flags: Self)
        ensures
            flags@ == self@ & other@,
    {
        proof {
            use_type_invariant(self);
            Self::lemma_known_bits(self.bits, other.bits);
        }
        RtmFlags { bits: self.bits & other.bits }
    }

    /// The flags of `self` that `other` does not have.
    pub fn difference(self, other: RtmFlags) -> (flags: Self)
        ensures
            flags@ == self@ & !other@,
    {
        proof {
            use_type_invariant(self);
            Self::lemma_known_bits(self.bits, other.bits);
        }
        RtmFlags { bits: self.bits & !other.bits }
    }
}

/// Each netlink family has a set of 32 multicast groups. The ROUTE family defines the
/// following values, which can be passed when a socket is bound, eventually
/// ending up in the `nl_groups` field of its address. From `linux/rtnetlink.h`.
#[derive(Clone, Copy, Debug, PartialEq, Eq, Structural)]
pub struct MulticastGroup {
    bits: u32,
}

impl MulticastGroup {
    pub const RTMGRP_NONE: u32 = 0x0;

    pub const RTMGRP_LINK: u32 = 0x1;

    pub const RTMGRP_NOTIFY: u32 = 0x2;

    pub const RTMGRP_NEIGH: u32 = 0x4;

    pub const RTMGRP_TC: u32 = 0x8;

    pub const RTMGRP_IPV4_IFADDR: u32 = 0x10;

    pub const RTMGRP_IPV4_MROUTE: u32 = 0x20;

    pub const RTMGRP_IPV4_ROUTE: u32 = 0x40;

    pub const RTMGRP_IPV4_RULE: u32 = 0x80;

    pub const RTMGRP_IPV6_IFADDR: u32 = 0x100;

    pub const RTMGRP_IPV6_MROUTE: u32 = 0x200;

    pub const RTMGRP_IPV6_ROUTE: u32 = 0x400;

    pub const RTMGRP_IPV6_IFINFO: u32 = 0x800;

    pub const RTMGRP_DECNET_IFADDR: u32 = 0x1000;

    pub const RTMGRP_DECNET_ROUTE: u32 = 0x4000;

    pub const RTMGRP_IPV6_PREFIX: u32 = 0x20000;

    /// Every bit that names a flag.
    pub const ALL: u32 = 0x25fff;

    /// The flag word as a number.
    pub closed spec fn view(&self) -> u32 {
        self.bits
    }

    #[verifier::type_invariant]
    spec fn known_bits(self) -> bool {
        self.bits & 0x25fff == self.bits
    }

    /// Words made of known bits stay so when they are joined, cut or masked.
    proof fn lemma_known_bits(a: u32, b: u32)
        by (bit_vector)
        ensures
            (a & 0x25fff) & 0x25fff == a & 0x25fff,
            a & 0x25fff == a && b & 0x25fff == b ==> (a | b) & 0x25fff == (a | b),
            a & 0x25fff == a ==> (a & b) & 0x25fff == (a & b),
            a & 0x25fff == a ==> (a & !b) & 0x25fff == (a & !b),
    {
    }

    /// The flags among the bits of `val`; bits that name no flag are dropped.
    pub fn new(val: u32) -> (flags: Self)
        ensures
            flags@ == val & 0x25fff,
    {
        proof {
            Self::lemma_known_bits(val, val);
        }
        MulticastGroup { bits: val & 0x25fff }
    }

    /// The flag word as a number.
    pub fn bits(&self) -> (bits: u32)
        ensures
            bits == self@,
            bits & 0x25fff == bits,
    {
        proof {
            use_type_invariant(self);
        }
        self.bits
    }

    /// True if every flag of `other` is set in `self`.
    pub fn contains(&self, other: MulticastGroup) -> (all: bool)
        ensures
            all == (self@ & other@ == other@),
    {
        self.bits & other.bits == other.bits
    }

    /// True if no flag is set.
    pub fn is_empty(&self) -> (none: bool)
        ensures
            none == (self@ == 0),
    {
        self.bits == 0
    }

    /// The flags of `self` together with those of `other`.
    pub fn union(self, other: MulticastGroup) -> (flags: Self)
        ensures
            flags@ == self@ | other@,
    {
        proof {
            use_type_invariant(self);
            use_type_invariant(other);
            Self::lemma_known_bits(self.bits, other.bits);
        }
        MulticastGroup { bits: self.bits | other.bits }
    }

    /// The flags that `self` and `other` share.
    pub fn intersection(self, other: MulticastGroup) -> (flags: Self)
        ensures
            flags@ == self@ & other@,
    {
        proof {
            use_type_invariant(self);
            Self::lemma_known_bits(self.bits, other.bits);
        }
        MulticastGroup { bits: self.bits & other.bits }
    }

    /// The flags of `self` that `other` does not have.
    pub fn difference(self, other: MulticastGroup) -> (flags: Self)
        ensures
            flags@ == self@ & !other@,
    {
        proof {
            use_type_invariant(self);
            Self::lemma_known_bits(self.bits, other.bits);
        }
        MulticastGroup { bits: self.bits & !other.bits }
    }
}

/// What one attribute of a route says.
#[derive(Debug, Copy, Clone, PartialEq, Eq, Structural)]
pub enum RouteAttr {
    /// The routing table id, read least significant byte first.
    Table(u32),
    /// The index of the outgoing interface, read least significant byte
    /// first.
    OutIf(u32),
    /// The priority, read least significant byte first.
    Priority(u32),
    /// The IPv4 gateway, the first octet the most significant.
    Gateway(u32),
    /// Cache information; the payload holds it.
    CacheInfo,
    /// The source prefix; the payload holds it.
    Src,
    /// The preferred IPv4 source, the first octet the most significant.
    PrefSrc(u32),
    /// The IPv4 destination, the first octet the most significant.
    Dst(u32),
    /// An attribute of another type, or a number cut short; the type is
    /// given.
    Other(u16),
}

/// What the attribute `attr` of a route says.
pub open spec fn route_attr_of(attr: Seq<u8>) -> RouteAttr {
    let kind = rta_type(attr);
    let payload = rta_payload(attr);
    let little = u32_value(payload.subrange(0, 4), Endian::Little);
    let big = u32_value(payload.subrange(0, 4), Endian::Big);
    if kind == RTA_CACHEINFO {
        RouteAttr::CacheInfo
    } else if kind == RTA_SRC {
        RouteAttr::Src
    } else if payload.len() < 4 {
        RouteAttr::Other(kind)
    } else if kind == RTA_TABLE {
        RouteAttr::Table(little)
    } else if kind == RTA_OIF {
        RouteAttr::OutIf(little)
    } else if kind == RTA_PRIORITY {
        RouteAttr::Priority(little)
    } else if kind == RTA_GATEWAY {
        RouteAttr::Gateway(big)
    } else if kind == RTA_PREFSRC {
        RouteAttr::PrefSrc(big)
    } else if kind == RTA_DST {
        RouteAttr::Dst(big)
    } else {
        RouteAttr::Other(kind)
    }
}

/// True if the message `b` describes a route: its kind says so, and its
/// payload holds the header of such a message.
pub open spec fn is_route_message(b: Seq<u8>) -> bool {
    nl_kind(b) == RTM_NEWROUTE && nl_payload(b).len() >= 12
}

/// The attributes of the message `b`: what follows the header in its payload.
pub open spec fn route_attrs(b: Seq<u8>) -> Seq<Seq<u8>> {
    attrs(nl_payload(b).subrange(12, nl_payload(b).len() as int))
}

/// One route, as the kernel reports it.
#[derive(Debug)]
pub struct Route {
    packet: NetlinkPacket<'static>,
}

impl Route {
    /// The bytes of the message.
    pub closed spec fn view(&self) -> Seq<u8> {
        self.packet@
    }

    #[verifier::type_invariant]
    spec fn holds_header(self) -> bool {
        is_route_message(self.packet@)
    }

    /// The first attribute of the given type, if there is one.
    pub open spec fn attribute(&self, kind: u16) -> Option<Seq<u8>> {
        first_of_type(route_attrs(self@), kind)
    }

    /// What `pkt` describes, if `pkt` is a message of the kind.
    pub fn from_packet(pkt: NetlinkPacket<'static>) -> (item: Option<Route>)
        ensures
            item.is_some() <==> is_route_message(pkt@),
            item.is_some() ==> item.unwrap()@ == pkt@,
    {
        if pkt.get_kind() != RTM_NEWROUTE {
            return None;
        }
        if pkt.payload().len() < 12 {
            return None;
        }
        Some(Route { packet: pkt })
    }

    /// The message itself.
    pub fn packet(&self) -> (pkt: &NetlinkPacket<'static>)
        ensures
            pkt@ == self@,
            is_route_message(self@),
    {
        proof {
            use_type_invariant(self);
        }
        &self.packet
    }

    /// The header of the message.
    pub fn rtmsg(&self) -> (hdr: RtMsgPacket<'_>)
        ensures
            hdr@ == nl_payload(self@),
    {
        proof {
            use_type_invariant(self);
        }
        RtMsgPacket::new(self.packet.payload()).unwrap()
    }

    /// An iterator over the attributes.
    pub fn rta_iter(&self) -> (iter: RtAttrIterator<'_>)
        ensures
            attrs(iter@) == route_attrs(self@),
    {
        proof {
            use_type_invariant(self);
        }
        let payload = self.packet.payload();
        RtAttrIterator::new(slice_subrange(payload, 12, payload.len()))
    }

    /// The first attribute of the given type.
    pub fn rta(&self, rta_type: u16) -> (found: Option<RtAttrPacket<'_>>)
        ensures
            match self.attribute(rta_type) {
                Some(bytes) => found.is_some() && found.unwrap()@ == bytes,
                None => found.is_none(),
            },
    {
        self.rta_iter().find_type(rta_type)
    }

    /// What one attribute of a route says.
    pub fn describe(rta: &RtAttrPacket) -> (info: RouteAttr)
        ensures
            info == route_attr_of(rta@),
    {
        let kind = rta.get_rta_type();
        let payload = rta.payload();
        if kind == RTA_CACHEINFO {
            RouteAttr::CacheInfo
        } else if kind == RTA_SRC {
            RouteAttr::Src
        } else if payload.len() < 4 {
            RouteAttr::Other(kind)
        } else if kind == RTA_TABLE {
            RouteAttr::Table(get_u32_le(payload, 0))
        } else if kind == RTA_OIF {
            RouteAttr::OutIf(get_u32_le(payload, 0))
        } else if kind == RTA_PRIORITY {
            RouteAttr::Priority(get_u32_le(payload, 0))
        } else if kind == RTA_GATEWAY {
            RouteAttr::Gateway(get_u32_be(payload, 0))
        } else if kind == RTA_PREFSRC {
            RouteAttr::PrefSrc(get_u32_be(payload, 0))
        } else if kind == RTA_DST {
            RouteAttr::Dst(get_u32_be(payload, 0))
        } else {
            RouteAttr::Other(kind)
        }
    }
}

/// The routes that a run of messages starts with: the messages up to the
/// first that describes none.
pub open spec fn leading_routes(messages: Seq<Seq<u8>>) -> Seq<Seq<u8>>
    decreases messages.len(),
{
    if messages.len() > 0 && is_route_message(messages[0]) {
        seq![messages[0]] + leading_routes(messages.drop_first())
    } else {
        Seq::empty()
    }
}

/// The routes among the messages of a session, up to the first message that
/// describes none.
#[derive(Debug)]
pub struct RoutesIterator {
    iter: NetlinkBufIterator,
}

impl RoutesIterator {
    /// The session's reader.
    pub closed spec fn reader(&self) -> ReaderModel {
        self.iter.reader()
    }

    /// The chunks that the source still holds.
    pub closed spec fn pending(&self) -> Seq<Seq<u8>> {
        self.iter.pending()
    }

    /// The session was set up by `new` and driven by its own methods.
    pub closed spec fn wf(&self) -> bool {
        self.iter.wf()
    }

    /// The routes of the session `iter`.
    pub fn new(iter: NetlinkBufIterator) -> (items: Self)
        requires
            iter.wf(),
        ensures
            items.wf(),
            items.reader() == iter.reader(),
            items.pending() == iter.pending(),
    {
        RoutesIterator { iter: iter }
    }

    /// What the session's next message describes; nothing if the session is
    /// over or the message is of another kind.
    pub fn next(&mut self) -> (item: Option<Route>)
        requires
            old(self).wf(),
        ensures
            final(self).wf(),
            ({
                let (reader, pending, action) = read_model(old(self).reader(), old(self).pending());
                &&& final(self).reader() == reader
                &&& final(self).pending() == pending
                &&& match action {
                    ActionModel::Message(frame) => {
                        &&& item.is_some() <==> is_route_message(frame)
                        &&& item.is_some() ==> item.unwrap()@ == frame
                    },
                    _ => item.is_none(),
                }
            }),
    {
        match self.iter.next() {
            Some(pkt) => Route::from_packet(pkt),
            None => None,
        }
    }

    /// A well-formed session has a well-formed reader.
    pub proof fn lemma_wf_model(&self)
        requires
            self.wf(),
        ensures
            model_wf(self.reader()),
    {
        self.iter.lemma_wf_model();
    }

    /// All routes that the session yields before a message of another
    /// kind or its end, in order.
    pub fn collect(self) -> (list: Vec<Route>)
        requires
            self.wf(),
        ensures
            list@.len() == leading_routes(
                session_transcript(self.reader(), self.pending()).messages,
            ).len(),
            forall|i: int|
                0 <= i < list@.len() ==> (#[trigger] list@[i])@ == leading_routes(
                    session_transcript(self.reader(), self.pending()).messages,
                )[i],
    {
        let mut iter = self;
        let mut list: Vec<Route> = Vec::new();
        let ghost all = leading_routes(session_transcript(self.reader(), self.pending()).messages);
        loop
            invariant_except_break
                iter.wf(),
                list@.len() + leading_routes(
                    session_transcript(iter.reader(), iter.pending()).messages,
                ).len() == all.len(),
                forall|i: int|
                    0 <= i < leading_routes(
                        session_transcript(iter.reader(), iter.pending()).messages,
                    ).len() ==> #[trigger] leading_routes(
                        session_transcript(iter.reader(), iter.pending()).messages,
                    )[i] == all[list@.len() + i],
            invariant
                all == leading_routes(session_transcript(self.reader(), self.pending()).messages),
                forall|i: int| 0 <= i < list@.len() ==> (#[trigger] list@[i])@ == all[i],
            ensures
                list@.len() == all.len(),
                forall|i: int| 0 <= i < list@.len() ==> (#[trigger] list@[i])@ == all[i],
            decreases
                    iter.pending().len(),
                    iter.reader().buf.len() + 3 - iter.reader().cursor,
        {
            let ghost before = session_transcript(iter.reader(), iter.pending()).messages;
            proof {
                iter.lemma_wf_model();
                lemma_read_step(iter.reader(), iter.pending());
            }
            match iter.next() {
                Some(item) => {
                    proof {
                        let later = session_transcript(iter.reader(), iter.pending()).messages;
                        assert(before[0] == item@);
                        assert(before.drop_first() =~= later);
                        assert(is_route_message(before[0]));
                        assert(leading_routes(before) =~= seq![before[0]] + leading_routes(later));
                        assert(leading_routes(before)[0] == all[list@.len() as int]);
                        assert forall|i: int| 0 <= i < leading_routes(later).len() implies #[trigger]
                            leading_routes(later)[i] == all[list@.len() + 1 + i] by {
                            assert(leading_routes(later)[i] == leading_routes(before)[i + 1]);
                        }
                        iter.lemma_wf_model();
                    }
                    list.push(item);
                },
                None => {
                    proof {
                        if before.len() > 0 {
                            assert(!is_route_message(before[0]));
                        }
                        assert(leading_routes(before).len() == 0);
                    }
                    break ;
                },
            }
        }
        list
    }

    /// The last of the routes that the session yields before a message of
    /// another kind or its end.
    pub fn last(self) -> (item: Option<Route>)
        requires
            self.wf(),
        ensures
            match item {
                Some(found) => leading_routes(
                    session_transcript(self.reader(), self.pending()).messages,
                ).len() > 0 && found@ == leading_routes(
                    session_transcript(self.reader(), self.pending()).messages,
                ).last(),
                None => leading_routes(
                    session_transcript(self.reader(), self.pending()).messages,
                ).len() == 0,
            },
    {
        let mut list = self.collect();
        list.pop()
    }
}

/// The request that asks for all routes.
pub fn iter_routes_request() -> (req: NetlinkPacket<'static>)
    ensures
        req@ == request_bytes(RTM_GETROUTE, 0x300, ifinfo_header(0, 0, 0, 0, 0)),
{
    proof {
        assert(0x300u16 & 0xf1f == 0x300) by (bit_vector);
    }
    let ifi = ifinfo(0  /* AF_UNSPEC */ , 0, 0, 0, 0);
    request(RTM_GETROUTE, NetlinkMsgFlags::NLM_F_DUMP, ifi.packet())
}

/// A trait for converting data into Payload for a `RtAttrPacket`.
pub trait ToPayload {
    /// The bytes that stand for this value in a payload.
    spec fn encoding(&self) -> Seq<u8>;

    /// Number of filler bytes that part this value from a sibling that
    /// follows it in a list: a record is padded to the alignment boundary, a
    /// plain value is not. Nothing follows the last of a list, nor a wrapper's
    /// only child.
    spec fn sibling_gap(&self) -> nat;

    /// The number of bytes required to encode this data.
    fn payload_size(&self) -> (n: usize)
        requires
            self.encoding().len() <= usize::MAX,
        ensures
            n == self.encoding().len(),
    ;

    /// The filler that a sibling behind this value starts after.
    fn payload_gap(&self) -> (n: usize)
        ensures
            n == self.sibling_gap(),
            n < 4,
    ;

    /// Add this data to the end of the given payload.
    fn payload_add(&self, payload: &mut Vec<u8>)
        ensures
            final(payload)@ == old(payload)@ + self.encoding(),
    ;
}

impl ToPayload for u8 {
    open spec fn encoding(&self) -> Seq<u8> {
        seq![*self]
    }

    open spec fn sibling_gap(&self) -> nat {
        0
    }

    fn payload_size(&self) -> (n: usize) {
        1
    }

    fn payload_gap(&self) -> (n: usize) {
        0
    }

    fn payload_add(&self, payload: &mut Vec<u8>) {
        payload.push(*self);
        assert(payload@ =~= old(payload)@ + self.encoding());
    }
}

impl ToPayload for u16 {
    open spec fn encoding(&self) -> Seq<u8> {
        u16_bytes(*self, endianness())
    }

    open spec fn sibling_gap(&self) -> nat {
        0
    }

    fn payload_size(&self) -> (n: usize) {
        2
    }

    fn payload_gap(&self) -> (n: usize) {
        0
    }

    fn payload_add(&self, payload: &mut Vec<u8>) {
        push_u16(payload, *self);
    }
}

impl ToPayload for u32 {
    open spec fn encoding(&self) -> Seq<u8> {
        u32_bytes(*self, endianness())
    }

    open spec fn sibling_gap(&self) -> nat {
        0
    }

    fn payload_size(&self) -> (n: usize) {
        4
    }

    fn payload_gap(&self) -> (n: usize) {
        0
    }

    fn payload_add(&self, payload: &mut Vec<u8>) {
        push_u32(payload, *self);
    }
}

/// An address is its octets, first to last.
impl ToPayload for IpAddr {
    open spec fn encoding(&self) -> Seq<u8> {
        self.octets()
    }

    open spec fn sibling_gap(&self) -> nat {
        0
    }

    fn payload_size(&self) -> (n: usize) {
        proof {
            lemma_u32_round_trip(0, Endian::Big);
        }
        match self {
            IpAddr::V4(_) => 4,
            IpAddr::V6(_) => 16,
        }
    }

    fn payload_gap(&self) -> (n: usize) {
        0
    }

    fn payload_add(&self, payload: &mut Vec<u8>) {
        let octets = self.bytes();
        payload.extend_from_slice(octets.as_slice());
        assert(payload@ =~= old(payload)@ + self.encoding());
    }
}

/// A string is its UTF-8 bytes and a closing NUL.
impl<'a> ToPayload for &'a str {
    open spec fn encoding(&self) -> Seq<u8> {
        self.spec_bytes() + seq![0u8]
    }

    open spec fn sibling_gap(&self) -> nat {
        0
    }

    fn payload_size(&self) -> (n: usize) {
        self.as_bytes().len() + 1
    }

    fn payload_gap(&self) -> (n: usize) {
        0
    }

    fn payload_add(&self, payload: &mut Vec<u8>) {
        payload.extend_from_slice(self.as_bytes());
        payload.push(0u8);
        assert(payload@ =~= old(payload)@ + self.encoding());
    }
}

/// Nothing, or what the value inside encodes to.
impl<P: ToPayload> ToPayload for Option<P> {
    open spec fn encoding(&self) -> Seq<u8> {
        match self {
            Some(p) => p.encoding(),
            None => Seq::empty(),
        }
    }

    open spec fn sibling_gap(&self) -> nat {
        match self {
            Some(p) => p.sibling_gap(),
            None => 0,
        }
    }

    fn payload_size(&self) -> (n: usize) {
        match self {
            Some(p) => p.payload_size(),
            None => 0,
        }
    }

    fn payload_gap(&self) -> (n: usize) {
        match self {
            Some(p) => p.payload_gap(),
            None => 0,
        }
    }

    fn payload_add(&self, payload: &mut Vec<u8>) {
        match self {
            Some(p) => p.payload_add(payload),
            None => {
                assert(payload@ =~= old(payload)@ + self.encoding());
            },
        }
    }
}

/// A nested attribute is its own bytes, without padding; in a list it is
/// padded before the sibling that follows.
impl<'a> ToPayload for RtAttrPacket<'a> {
    open spec fn encoding(&self) -> Seq<u8> {
        self@
    }

    open spec fn sibling_gap(&self) -> nat {
        padding(self@.len() as int) as nat
    }

    fn payload_size(&self) -> (n: usize) {
        self.packet_size()
    }

    fn payload_gap(&self) -> (n: usize) {
        let rem: usize = self.packet_size() % 4;
        if rem == 0 {
            0
        } else {
            4 - rem
        }
    }

    fn payload_add(&self, payload: &mut Vec<u8>) {
        payload.extend_from_slice(self.packet());
        assert(payload@ =~= old(payload)@ + self.encoding());
    }
}

/// A link header with its attributes is its own bytes, without padding; in a
/// list it is padded before the sibling that follows.
impl<'a> ToPayload for IfInfoPacket<'a> {
    open spec fn encoding(&self) -> Seq<u8> {
        self@
    }

    open spec fn sibling_gap(&self) -> nat {
        padding(self@.len() as int) as nat
    }

    fn payload_size(&self) -> (n: usize) {
        self.packet_size()
    }

    fn payload_gap(&self) -> (n: usize) {
        let rem: usize = self.packet_size() % 4;
        if rem == 0 {
            0
        } else {
            4 - rem
        }
    }

    fn payload_add(&self, payload: &mut Vec<u8>) {
        payload.extend_from_slice(self.packet());
        assert(payload@ =~= old(payload)@ + self.encoding());
    }
}

/// The first `n` of `items`, each followed by its filler.
pub open spec fn padded_run<P: ToPayload>(items: Seq<P>, n: int) -> Seq<u8>
    decreases n,
{
    if n <= 0 {
        Seq::empty()
    } else {
        padded_run(items, n - 1) + items[n - 1].encoding() + zeros(items[n - 1].sibling_gap())
    }
}

/// The encoding of a list: its items in order, each but the last followed by
/// its filler, so that a record's sibling starts on the alignment boundary.
pub open spec fn list_encoding<P: ToPayload>(items: Seq<P>) -> Seq<u8> {
    if items.len() == 0 {
        Seq::empty()
    } else {
        padded_run(items, items.len() - 1) + items.last().encoding()
    }
}

/// A run of items is no longer than a longer run of the same items.
proof fn lemma_padded_run_grows<P: ToPayload>(items: Seq<P>, i: int, j: int)
    requires
        0 <= i <= j <= items.len(),
    ensures
        padded_run(items, i).len() <= padded_run(items, j).len(),
    decreases j - i,
{
    if i < j {
        lemma_padded_run_grows(items, i, j - 1);
    }
}

/// A list of values of one kind, one after the other.
impl<P: ToPayload> ToPayload for Vec<P> {
    open spec fn encoding(&self) -> Seq<u8> {
        list_encoding(self@)
    }

    open spec fn sibling_gap(&self) -> nat {
        if self@.len() == 0 {
            0
        } else {
            self@.last().sibling_gap()
        }
    }

    fn payload_size(&self) -> (n: usize) {
        let count = self.len();
        if count == 0 {
            return 0;
        }
        let mut total: usize = 0;
        let mut i: usize = 0;
        while i < count - 1
            invariant
                count == self@.len(),
                count > 0,
                i <= count - 1,
                total == padded_run(self@, i as int).len(),
                list_encoding(self@).len() <= usize::MAX,
            decreases count - i,
        {
            proof {
                lemma_padded_run_grows(self@, i + 1, count - 1);
            }
            let size = self[i].payload_size();
            let gap = self[i].payload_gap();
            total = total + size + gap;
            i = i + 1;
        }
        total + self[count - 1].payload_size()
    }

    fn payload_gap(&self) -> (n: usize) {
        let count = self.len();
        if count == 0 {
            0
        } else {
            self[count - 1].payload_gap()
        }
    }

    fn payload_add(&self, payload: &mut Vec<u8>) {
        let count = self.len();
        if count == 0 {
            assert(payload@ =~= old(payload)@ + self.encoding());
            return ;
        }
        let mut i: usize = 0;
        while i < count - 1
            invariant
                count == self@.len(),
                count > 0,
                i <= count - 1,
                payload@ == old(payload)@ + padded_run(self@, i as int),
            decreases count - i,
        {
            let ghost before = payload@;
            self[i].payload_add(payload);
            let gap = self[i].payload_gap();
            push_zeros(payload, gap);
            i = i + 1;
            assert(payload@ =~= old(payload)@ + padded_run(self@, i as int));
        }
        self[count - 1].payload_add(payload);
        assert(payload@ =~= old(payload)@ + self.encoding());
    }
}

/// Two values of different kinds, the first before the second: the way to
/// make a list of unlike things.
impl<A: ToPayload, B: ToPayload> ToPayload for (A, B) {
    open spec fn encoding(&self) -> Seq<u8> {
        self.0.encoding() + zeros(self.0.sibling_gap()) + self.1.encoding()
    }

    open spec fn sibling_gap(&self) -> nat {
        self.1.sibling_gap()
    }

    fn payload_size(&self) -> (n: usize) {
        let first = self.0.payload_size();
        let gap = self.0.payload_gap();
        let second = self.1.payload_size();
        first + gap + second
    }

    fn payload_gap(&self) -> (n: usize) {
        self.1.payload_gap()
    }

    fn payload_add(&self, payload: &mut Vec<u8>) {
        self.0.payload_add(payload);
        let gap = self.0.payload_gap();
        push_zeros(payload, gap);
        self.1.payload_add(payload);
        assert(payload@ =~= old(payload)@ + self.encoding());
    }
}

/// A trait that provides a function to create a new `RtAttrPacket` with a payload.
pub trait WithPayload {
    /// Create a new `RtAttrPacket` with the given kind and payload.
    fn create_with_payload<P: ToPayload>(kind: u16, payload: P) -> (pkt: RtAttrPacket<'static>)
        requires
            4 + payload.encoding().len() <= u16::MAX,
        ensures
            pkt@ == attr_bytes(kind, payload.encoding()),
            rta_len(pkt@) == 4 + payload.encoding().len(),
            rta_type(pkt@) == kind,
            rta_payload(pkt@) == payload.encoding(),
    ;
}

impl<'a> WithPayload for RtAttrPacket<'a> {
    fn create_with_payload<P: ToPayload>(kind: u16, payload: P) -> (pkt: RtAttrPacket<'static>) {
        let mut body: Vec<u8> = Vec::new();
        payload.payload_add(&mut body);
        assert(body@ =~= payload.encoding());
        proof {
            lemma_attr_round_trip(kind, payload.encoding());
        }
        RtAttrPacket::build(kind, body.as_slice())
    }
}

} // verus!
