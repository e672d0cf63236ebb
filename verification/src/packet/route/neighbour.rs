//! Neighbour table operations
use crate::packet::netlink::{
    nl_kind, nl_payload, NetlinkBufIterator, NetlinkMsgFlags, NetlinkPacket,
};
use crate::packet::reader::{
    lemma_read_step, model_wf, read_model, session_transcript, ActionModel, ReaderModel,
};
use crate::packet::route::addr::{ip_is, ip_readable, Addr, IpAddr};
use crate::packet::route::headers::{
    ndm_family, ndm_flags, ndm_ifindex, ndm_state, ndm_type_, NeighbourDiscoveryPacket,
};
use crate::packet::route::link::{request, request_bytes};
use crate::packet::route::{
    attrs, first_of_type, mac_octets, read_mac, rta_len, rta_payload, rta_type, RtAttrIterator,
    RtAttrPacket,
};
use crate::packet::{push_zeros, zeros};
use crate::wire::{get_u16, overwrite, put_u16, put_u32, u16_at, u16_bytes, u32_bytes};
use vstd::endian::endianness;
use vstd::prelude::*;
use vstd::slice::slice_subrange;
use vstd::std_specs::convert::FromSpecImpl;

verus! {

// rt message types
pub const RTM_NEWNEIGH: u16 = 28;

pub const RTM_DELNEIGH: u16 = 29;

pub const RTM_GETNEIGH: u16 = 30;

// See linux/neighbour.h for the source for the constants and structs herein
pub const NDA_DST: u16 = 1;

pub const NDA_LLADDR: u16 = 2;

pub const NDA_VLAN: u16 = 5;

#[allow(non_camel_case_types)]
#[derive(Debug, Copy, Clone, PartialEq, Eq, Structural)]
pub enum NeighbourAttributes {
    UNSPEC,
    DST,
    LLADDR,
    CACHEINFO,
    PROBES,
    VLAN,
    PORT,
    VNI,
    IFINDEX,
    MASTER,
    LINK_NETNSID,
    /// A number that names none of the above.
    Other(u16),
}

impl NeighbourAttributes {
    /// The attribute type that the number `val` stands for.
    pub open spec fn of(val: u16) -> NeighbourAttributes {
        if val == 0 {
            NeighbourAttributes::UNSPEC
        } else if val == 1 {
            NeighbourAttributes::DST
        } else if val == 2 {
            NeighbourAttributes::LLADDR
        } else if val == 3 {
            NeighbourAttributes::CACHEINFO
        } else if val == 4 {
            NeighbourAttributes::PROBES
        } else if val == 5 {
            NeighbourAttributes::VLAN
        } else if val == 6 {
            NeighbourAttributes::PORT
        } else if val == 7 {
            NeighbourAttributes::VNI
        } else if val == 8 {
            NeighbourAttributes::IFINDEX
        } else if val == 9 {
            NeighbourAttributes::MASTER
        } else if val == 10 {
            NeighbourAttributes::LINK_NETNSID
        } else {
            NeighbourAttributes::Other(val)
        }
    }

    /// The number that stands for this attribute type on the wire.
    pub open spec fn number(self) -> u16 {
        match self {
            NeighbourAttributes::UNSPEC => 0,
            NeighbourAttributes::DST => 1,
            NeighbourAttributes::LLADDR => 2,
            NeighbourAttributes::CACHEINFO => 3,
            NeighbourAttributes::PROBES => 4,
            NeighbourAttributes::VLAN => 5,
            NeighbourAttributes::PORT => 6,
            NeighbourAttributes::VNI => 7,
            NeighbourAttributes::IFINDEX => 8,
            NeighbourAttributes::MASTER => 9,
            NeighbourAttributes::LINK_NETNSID => 10,
            NeighbourAttributes::Other(val) => val,
        }
    }

    /// The number that stands for this attribute type on the wire.
    pub fn value(&self) -> (val: u16)
        ensures
            val == self.number(),
    {
        match self {
            NeighbourAttributes::UNSPEC => 0,
            NeighbourAttributes::DST => 1,
            NeighbourAttributes::LLADDR => 2,
            NeighbourAttributes::CACHEINFO => 3,
            NeighbourAttributes::PROBES => 4,
            NeighbourAttributes::VLAN => 5,
            NeighbourAttributes::PORT => 6,
            NeighbourAttributes::VNI => 7,
            NeighbourAttributes::IFINDEX => 8,
            NeighbourAttributes::MASTER => 9,
            NeighbourAttributes::LINK_NETNSID => 10,
            NeighbourAttributes::Other(val) => *val,
        }
    }
}

impl From<u16> for NeighbourAttributes {
    fn from(val: u16) -> (kind: Self) {
        if val == 0 {
            NeighbourAttributes::UNSPEC
        } else if val == 1 {
            NeighbourAttributes::DST
        } else if val == 2 {
            NeighbourAttributes::LLADDR
        } else if val == 3 {
            NeighbourAttributes::CACHEINFO
        } else if val == 4 {
            NeighbourAttributes::PROBES
        } else if val == 5 {
            NeighbourAttributes::VLAN
        } else if val == 6 {
            NeighbourAttributes::PORT
        } else if val == 7 {
            NeighbourAttributes::VNI
        } else if val == 8 {
            NeighbourAttributes::IFINDEX
        } else if val == 9 {
            NeighbourAttributes::MASTER
        } else if val == 10 {
            NeighbourAttributes::LINK_NETNSID
        } else {
            NeighbourAttributes::Other(val)
        }
    }
}

impl FromSpecImpl<u16> for NeighbourAttributes {
    open spec fn obeys_from_spec() -> bool {
        true
    }

    open spec fn from_spec(val: u16) -> Self {
        NeighbourAttributes::of(val)
    }
}

#[derive(Debug, Copy, Clone)]
pub enum NeighbourType {
    UNSPEC,
    DST,
    LLADDR,
    CACHEINFO,
}

#[derive(Copy, Clone, Debug)]
pub enum LinkType {
    Vlan,
    Veth,
    Vcan,
    Dummy,
    Ifb,
    MacVlan,
    Can,
    Bridge,
}

// neighbour states
/// Neighbour states
#[derive(Clone, Copy, Debug, PartialEq, Eq, Structural)]
pub struct NeighbourState {
    bits: u16,
}

impl NeighbourState {
    /// Still attempting to resolve.
    pub const INCOMPLETE: u16 = 0x1;

    /// A confirmed working cache entry.
    pub const REACHABLE: u16 = 0x2;

    /// an expired cache entry.
    pub const STALE: u16 = 0x4;

    /// Neighbor no longer reachable. Traffic sent, waiting for confirmation.
    pub const DELAY: u16 = 0x8;

    /// A cache entry that is currently being re-solicited.
    pub const PROBE: u16 = 0x10;

    /// An invalid cache entry.
    pub const FAILED: u16 = 0x20;

    /// A device that does not do neighbour discovery
    pub const NOARP: u16 = 0x40;

    /// Permanently set entries
    pub const PERMANENT: u16 = 0x80;

    /// Every bit that names a flag.
    pub const ALL: u16 = 0xff;

    /// The flag word as a number.
    pub closed spec fn view(&self) -> u16 {
        self.bits
    }

    #[verifier::type_invariant]
    spec fn known_bits(self) -> bool {
        self.bits & 0xff == self.bits
    }

    /// Words made of known bits stay so when they are joined, cut or masked.
    proof fn lemma_known_bits(a: u16, b: u16)
        by (bit_vector)
        ensures
            (a & 0xff) & 0xff == a & 0xff,
            a & 0xff == a && b & 0xff == b ==> (a | b) & 0xff == (a | b),
            a & 0xff == a ==> (a & b) & 0xff == (a & b),
            a & 0xff == a ==> (a & !b) & 0xff == (a & !b),
    {
    }

    /// The flags among the bits of `val`; bits that name no flag are dropped.
    pub fn new(val: u16) -> (flags: Self)
        ensures
            flags@ == val & 0xff,
    {
        proof {
            Self::lemma_known_bits(val, val);
        }
        NeighbourState { bits: val & 0xff }
    }

    /// The flag word as a number.
    pub fn bits(&self) -> (bits: u16)
        ensures
            bits == self@,
            bits & 0xff == bits,
    {
        proof {
            use_type_invariant(self);
        }
        self.bits
    }

    /// True if every flag of `other` is set in `self`.
    pub fn contains(&self, other: NeighbourState) -> (all: bool)
        ensures
            all == (self@ & other@ == other@),
    {
        self.bits & other.bits == other.bits
    }

    /// True if no flag is set.
    pub fn is_empty(&self) -> (none: bool)
        ensures
            none == (self@ == 0),
    {
        self.bits == 0
    }

    /// The flags of `self` together with those of `other`.
    pub fn union(self, other: NeighbourState) -> (flags: Self)
        ensures
            flags@ == self@ | other@,
    {
        proof {
            use_type_invariant(self);
            use_type_invariant(other);
            Self::lemma_known_bits(self.bits, other.bits);
        }
        NeighbourState { bits: self.bits | other.bits }
    }

    /// The flags that `self` and `other` share.
    pub fn intersection(self, other: NeighbourState) -> (flags: Self)
        ensures
            flags@ == self@ & other@,
    {
        proof {
            use_type_invariant(self);
            Self::lemma_known_bits(self.bits, other.bits);
        }
        NeighbourState { bits: self.bits & other.bits }
    }

    /// The flags of `self` that `other` does not have.
    pub fn difference(self, other: NeighbourState) -> (flags: Self)
        ensures
            flags@ == self@ & !other@,
    {
        proof {
            use_type_invariant(self);
            Self::lemma_known_bits(self.bits, other.bits);
        }
        NeighbourState { bits: self.bits & !other.bits }
    }
}

// neighbour flags
/// Neighbour flags
#[derive(Clone, Copy, Debug, PartialEq, Eq, Structural)]
pub struct NeighbourFlags {
    bits: u8,
}

impl NeighbourFlags {
    pub const USE: u8 = 0x1;

    pub const SELF: u8 = 0x2;

    pub const MASTER: u8 = 0x4;

    pub const PROXY: u8 = 0x8;

    pub const EXT_LEARNED: u8 = 0x10;

    pub const ROUTER: u8 = 0x80;

    /// Every bit that names a flag.
    pub const ALL: u8 = 0x9f;

    /// The flag word as a number.
    pub closed spec fn view(&self) -> u8 {
        self.bits
    }

    #[verifier::type_invariant]
    spec fn known_bits(self) -> bool {
        self.bits & 0x9f == self.bits
    }

    /// Words made of known bits stay so when they are joined, cut or masked.
    proof fn lemma_known_bits(a: u8, b: u8)
        by (bit_vector)
        ensures
            (a & 0x9f) & 0x9f == a & 0x9f,
            a & 0x9f == a && b & 0x9f == b ==> (a | b) & 0x9f == (a | b),
            a & 0x9f == a ==> (a & b) & 0x9f == (a & b),
            a & 0x9f == a ==> (a & !b) & 0x9f == (a & !b),
    {
    }

    /// The flags among the bits of `val`; bits that name no flag are dropped.
    pub fn new(val: u8) -> (flags: Self)
        ensures
            flags@ == val & 0x9f,
    {
        proof {
            Self::lemma_known_bits(val, val);
        }
        NeighbourFlags { bits: val & 0x9f }
    }

    /// The flag word as a number.
    pub fn bits(&self) -> (bits: u8)
        ensures
            bits == self@,
            bits & 0x9f == bits,
    {
        proof {
            use_type_invariant(self);
        }
        self.bits
    }

    /// True if every flag of `other` is set in `self`.
    pub fn contains(&self, other: NeighbourFlags) -> (all: bool)
        ensures
            all == (self@ & other@ == other@),
    {
        self.bits & other.bits == other.bits
    }

    /// True if no flag is set.
    pub fn is_empty(&self) -> (none: bool)
        ensures
            none == (self@ == 0),
    {
        self.bits == 0
    }

    /// The flags of `self` together with those of `other`.
    pub fn union(self, other: NeighbourFlags) -> (flags: Self)
        ensures
            flags@ == self@ | other@,
    {
        proof {
            use_type_invariant(self);
            use_type_invariant(other);
            Self::lemma_known_bits(self.bits, other.bits);
        }
        NeighbourFlags { bits: self.bits | other.bits }
    }

    /// The flags that `self` and `other` share.
    pub fn intersection(self, other: NeighbourFlags) -> (flags: Self)
        ensures
            flags@ == self@ & other@,
    {
        proof {
            use_type_invariant(self);
            Self::lemma_known_bits(self.bits, other.bits);
        }
        NeighbourFlags { bits: self.bits & other.bits }
    }

    /// The flags of `self` that `other` does not have.
    pub fn difference(self, other: NeighbourFlags) -> (flags: Self)
        ensures
            flags@ == self@ & !other@,
    {
        proof {
            use_type_invariant(self);
            Self::lemma_known_bits(self.bits, other.bits);
        }
        NeighbourFlags { bits: self.bits & !other.bits }
    }
}

#[derive(Debug)]
pub enum OperState {
    Unknown,
    NotPresent,
    Down,
    LowerLayerDown,
    Testing,
    Dormant,
    Up,
}

/// What one attribute of a neighbour says.
#[derive(Debug)]
pub enum NeighbourInfo {
    /// The hardware address.
    LlAddr(pnet::util::MacAddr),
    /// The VLAN id.
    Vlan(u16),
    /// The address.
    Dst(IpAddr),
    /// A destination attribute whose length is that of no address of the
    /// neighbour's family; the length is given.
    UnknownAddressLength(u16),
    /// An attribute of another type, or one cut short; the type is given.
    Unknown(u16),
}

/// True if `attr` is as long as a destination attribute with an address of
/// the given family is: eight or twenty bytes by its length field, and the
/// payload an address of the family.
pub open spec fn is_address_attr(family: u8, attr: Seq<u8>) -> bool {
    (rta_len(attr) == 8 || rta_len(attr) == 20) && ip_readable(family, rta_payload(attr))
}

/// True if `info` is what the attribute `attr` of a neighbour of the given
/// family says.
pub open spec fn describes(info: NeighbourInfo, family: u8, attr: Seq<u8>) -> bool {
    let kind = rta_type(attr);
    let payload = rta_payload(attr);
    if kind == NDA_LLADDR && payload.len() >= 6 {
        info matches NeighbourInfo::LlAddr(addr) && mac_octets(addr) == payload.subrange(0, 6)
    } else if kind == NDA_VLAN && payload.len() >= 2 {
        info matches NeighbourInfo::Vlan(id) && id == u16_at(payload, 0)
    } else if kind == NDA_DST && is_address_attr(family, attr) {
        info matches NeighbourInfo::Dst(ip) && ip_is(ip, family, payload)
    } else if kind == NDA_DST {
        info matches NeighbourInfo::UnknownAddressLength(len) && len == rta_len(attr)
    } else {
        info matches NeighbourInfo::Unknown(other) && other == kind
    }
}

/// True if the message `b` describes a neighbour: its kind says so, and its
/// payload holds the header of such a message.
pub open spec fn is_neighbour_message(b: Seq<u8>) -> bool {
    nl_kind(b) == RTM_NEWNEIGH && nl_payload(b).len() >= 12
}

/// The attributes of the message `b`: what follows the header in its payload.
pub open spec fn neighbour_attrs(b: Seq<u8>) -> Seq<Seq<u8>> {
    attrs(nl_payload(b).subrange(12, nl_payload(b).len() as int))
}

/// One entry of the neighbour table, as the kernel reports it.
#[derive(Debug)]
pub struct Neighbour {
    packet: NetlinkPacket<'static>,
}

impl Neighbour {
    /// The bytes of the message.
    pub closed spec fn view(&self) -> Seq<u8> {
        self.packet@
    }

    #[verifier::type_invariant]
    spec fn holds_header(self) -> bool {
        is_neighbour_message(self.packet@)
    }

    /// The first attribute of the given type, if there is one.
    pub open spec fn attribute(&self, kind: u16) -> Option<Seq<u8>> {
        first_of_type(neighbour_attrs(self@), kind)
    }

    /// What `pkt` describes, if `pkt` is a message of the kind.
    pub fn from_packet(pkt: NetlinkPacket<'static>) -> (item: Option<Neighbour>)
        ensures
            item.is_some() <==> is_neighbour_message(pkt@),
            item.is_some() ==> item.unwrap()@ == pkt@,
    {
        if pkt.get_kind() != RTM_NEWNEIGH {
            return None;
        }
        if pkt.payload().len() < 12 {
            return None;
        }
        Some(Neighbour { packet: pkt })
    }

    /// The message itself.
    pub fn packet(&self) -> (pkt: &NetlinkPacket<'static>)
        ensures
            pkt@ == self@,
            is_neighbour_message(self@),
    {
        proof {
            use_type_invariant(self);
        }
        &self.packet
    }

    /// The header of the message.
    pub fn neighbour(&self) -> (hdr: NeighbourDiscoveryPacket<'_>)
        ensures
            hdr@ == nl_payload(self@),
    {
        proof {
            use_type_invariant(self);
        }
        NeighbourDiscoveryPacket::new(self.packet.payload()).unwrap()
    }

    /// An iterator over the attributes.
    pub fn rta_iter(&self) -> (iter: RtAttrIterator<'_>)
        ensures
            attrs(iter@) == neighbour_attrs(self@),
    {
        proof {
            use_type_invariant(self);
        }
        let payload = self.packet.payload();
        RtAttrIterator::new(slice_subrange(payload, 12, payload.len()))
    }

    /// The first attribute of the given type.
    pub fn rta(&self, rta_type: u16) -> (found: Option<RtAttrPacket<'_>>)
        ensures
            match self.attribute(rta_type) {
                Some(bytes) => found.is_some() && found.unwrap()@ == bytes,
                None => found.is_none(),
            },
    {
        self.rta_iter().find_type(rta_type)
    }

    pub fn get_family(&self) -> (family: u8)
        ensures
            family == ndm_family(nl_payload(self@)),
    {
        self.neighbour().get_family()
    }

    pub fn get_ifindex(&self) -> (index: u32)
        ensures
            index == ndm_ifindex(nl_payload(self@)),
    {
        self.neighbour().get_ifindex()
    }

    pub fn get_state(&self) -> (state: NeighbourState)
        ensures
            state@ == ndm_state(nl_payload(self@)) & 0xff,
    {
        NeighbourState::new(self.neighbour().get_state())
    }

    pub fn get_flags(&self) -> (flags: NeighbourFlags)
        ensures
            flags@ == ndm_flags(nl_payload(self@)) & 0x9f,
    {
        NeighbourFlags::new(self.neighbour().get_flags())
    }

    pub fn get_type(&self) -> (kind: u8)
        ensures
            kind == ndm_type_(nl_payload(self@)),
    {
        self.neighbour().get_type_()
    }

    /// The neighbour's address: what the destination attribute holds, if its
    /// length is that of an address and it holds one of the message's
    /// family.
    pub fn get_destination(&self) -> (ip: Option<IpAddr>)
        ensures
            match self.attribute(NDA_DST) {
                Some(attr) => {
                    &&& ip.is_some() <==> is_address_attr(ndm_family(nl_payload(self@)), attr)
                    &&& ip.is_some() ==> ip_is(
                        ip.unwrap(),
                        ndm_family(nl_payload(self@)),
                        rta_payload(attr),
                    )
                },
                None => ip.is_none(),
            },
    {
        let family = self.get_family();
        match self.rta(NDA_DST) {
            Some(rta) => Self::destination_of(family, &rta),
            None => None,
        }
    }

    /// The address that a destination attribute holds.
    pub fn destination_of(family: u8, rta: &RtAttrPacket) -> (ip: Option<IpAddr>)
        ensures
            ip.is_some() <==> is_address_attr(family, rta@),
            ip.is_some() ==> ip_is(ip.unwrap(), family, rta_payload(rta@)),
    {
        let len = rta.get_rta_len();
        // 4 for the rta header, then 4 or 16.
        if len == 8 || len == 20 {
            Addr::ip_from_payload(family, rta.payload())
        } else {
            None
        }
    }

    /// The neighbour's hardware address.
    pub fn get_ll_addr(&self) -> (addr: Option<pnet::util::MacAddr>)
        ensures
            match self.attribute(NDA_LLADDR) {
                Some(attr) => {
                    &&& addr.is_some() <==> rta_payload(attr).len() >= 6
                    &&& addr.is_some() ==> mac_octets(addr.unwrap()) == rta_payload(attr).subrange(
                        0,
                        6,
                    )
                },
                None => addr.is_none(),
            },
    {
        match self.rta(NDA_LLADDR) {
            Some(rta) => read_mac(rta.payload()),
            None => None,
        }
    }

    /// The neighbour's VLAN id.
    pub fn get_vlan_id(&self) -> (id: Option<u16>)
        ensures
            match self.attribute(NDA_VLAN) {
                Some(attr) => id == if rta_payload(attr).len() >= 2 {
                    Some(u16_at(rta_payload(attr), 0))
                } else {
                    None
                },
                None => id.is_none(),
            },
    {
        match self.rta(NDA_VLAN) {
            Some(rta) => {
                let payload = rta.payload();
                if payload.len() >= 2 {
                    Some(get_u16(payload, 0))
                } else {
                    None
                }
            },
            None => None,
        }
    }

    /// What one attribute of a neighbour of the given family says.
    pub fn describe(family: u8, rta: &RtAttrPacket) -> (info: NeighbourInfo)
        ensures
            describes(info, family, rta@),
    {
        let kind = rta.get_rta_type();
        if kind == NDA_LLADDR {
            match read_mac(rta.payload()) {
                Some(addr) => NeighbourInfo::LlAddr(addr),
                None => NeighbourInfo::Unknown(kind),
            }
        } else if kind == NDA_VLAN {
            let payload = rta.payload();
            if payload.len() >= 2 {
                NeighbourInfo::Vlan(get_u16(payload, 0))
            } else {
                NeighbourInfo::Unknown(kind)
            }
        } else if kind == NDA_DST {
            match Self::destination_of(family, rta) {
                Some(ip) => NeighbourInfo::Dst(ip),
                None => NeighbourInfo::UnknownAddressLength(rta.get_rta_len()),
            }
        } else {
            NeighbourInfo::Unknown(kind)
        }
    }
}

/// The neighbours that a run of messages starts with: the messages up to the
/// first that describes none.
pub open spec fn leading_neighbours(messages: Seq<Seq<u8>>) -> Seq<Seq<u8>>
    decreases messages.len(),
{
    if messages.len() > 0 && is_neighbour_message(messages[0]) {
        seq![messages[0]] + leading_neighbours(messages.drop_first())
    } else {
        Seq::empty()
    }
}

/// The neighbours among the messages of a session, up to the first message that
/// describes none.
#[derive(Debug)]
pub struct NeighboursIterator {
    iter: NetlinkBufIterator,
}

impl NeighboursIterator {
    /// The session's reader.
    pub closed spec fn reader(&self) -> ReaderModel {
        self.iter.reader()
    }

    /// The chunks that the source still holds.
    pub closed spec fn pending(&self) -> Seq<Seq<u8>> {
        self.iter.pending()
    }

    /// The session was set up by `new` and driven by its own methods.
    pub closed spec fn wf(&self) -> bool {
        self.iter.wf()
    }

    /// The neighbours of the session `iter`.
    pub fn new(iter: NetlinkBufIterator) -> (items: Self)
        requires
            iter.wf(),
        ensures
            items.wf(),
            items.reader() == iter.reader(),
            items.pending() == iter.pending(),
    {
        NeighboursIterator { iter: iter }
    }

    /// What the session's next message describes; nothing if the session is
    /// over or the message is of another kind.
    pub fn next(&mut self) -> (item: Option<Neighbour>)
        requires
            old(self).wf(),
        ensures
            final(self).wf(),
            ({
                let (reader, pending, action) = read_model(old(self).reader(), old(self).pending());
                &&& final(self).reader() == reader
                &&& final(self).pending() == pending
                &&& match action {
                    ActionModel::Message(frame) => {
                        &&& item.is_some() <==> is_neighbour_message(frame)
                        &&& item.is_some() ==> item.unwrap()@ == frame
                    },
                    _ => item.is_none(),
                }
            }),
    {
        match self.iter.next() {
            Some(pkt) => Neighbour::from_packet(pkt),
            None => None,
        }
    }

    /// A well-formed session has a well-formed reader.
    pub proof fn lemma_wf_model(&self)
        requires
            self.wf(),
        ensures
            model_wf(self.reader()),
    {
        self.iter.lemma_wf_model();
    }

    /// All neighbours that the session yields before a message of another
    /// kind or its end, in order.
    pub fn collect(self) -> (list: Vec<Neighbour>)
        requires
            self.wf(),
        ensures
            list@.len() == leading_neighbours(
                session_transcript(self.reader(), self.pending()).messages,
            ).len(),
            forall|i: int|
                0 <= i < list@.len() ==> (#[trigger] list@[i])@ == leading_neighbours(
                    session_transcript(self.reader(), self.pending()).messages,
                )[i],
    {
        let mut iter = self;
        let mut list: Vec<Neighbour> = Vec::new();
        let ghost all = leading_neighbours(session_transcript(self.reader(), self.pending()).messages);
        loop
            invariant_except_break
                iter.wf(),
                list@.len() + leading_neighbours(
                    session_transcript(iter.reader(), iter.pending()).messages,
                ).len() == all.len(),
                forall|i: int|
                    0 <= i < leading_neighbours(
                        session_transcript(iter.reader(), iter.pending()).messages,
                    ).len() ==> #[trigger] leading_neighbours(
                        session_transcript(iter.reader(), iter.pending()).messages,
                    )[i] == all[list@.len() + i],
            invariant
                all == leading_neighbours(session_transcript(self.reader(), self.pending()).messages),
                forall|i: int| 0 <= i < list@.len() ==> (#[trigger] list@[i])@ == all[i],
            ensures
                list@.len() == all.len(),
                forall|i: int| 0 <= i < list@.len() ==> (#[trigger] list@[i])@ == all[i],
            decreases
                    iter.pending().len(),
                    iter.reader().buf.len() + 3 - iter.reader().cursor,
        {
            let ghost before = session_transcript(iter.reader(), iter.pending()).messages;
            proof {
                iter.lemma_wf_model();
                lemma_read_step(iter.reader(), iter.pending());
            }
            match iter.next() {
                Some(item) => {
                    proof {
                        let later = session_transcript(iter.reader(), iter.pending()).messages;
                        assert(before[0] == item@);
                        assert(before.drop_first() =~= later);
                        assert(is_neighbour_message(before[0]));
                        assert(leading_neighbours(before) =~= seq![before[0]] + leading_neighbours(later));
                        assert(leading_neighbours(before)[0] == all[list@.len() as int]);
                        assert forall|i: int| 0 <= i < leading_neighbours(later).len() implies #[trigger]
                            leading_neighbours(later)[i] == all[list@.len() + 1 + i] by {
                            assert(leading_neighbours(later)[i] == leading_neighbours(before)[i + 1]);
                        }
                        iter.lemma_wf_model();
                    }
                    list.push(item);
                },
                None => {
                    proof {
                        if before.len() > 0 {
                            assert(!is_neighbour_message(before[0]));
                        }
                        assert(leading_neighbours(before).len() == 0);
                    }
                    break ;
                },
            }
        }
        list
    }

    /// The last of the neighbours that the session yields before a message of
    /// another kind or its end.
    pub fn last(self) -> (item: Option<Neighbour>)
        requires
            self.wf(),
        ensures
            match item {
                Some(found) => leading_neighbours(
                    session_transcript(self.reader(), self.pending()).messages,
                ).len() > 0 && found@ == leading_neighbours(
                    session_transcript(self.reader(), self.pending()).messages,
                ).last(),
                None => leading_neighbours(
                    session_transcript(self.reader(), self.pending()).messages,
                ).len() == 0,
            },
    {
        let mut list = self.collect();
        list.pop()
    }
}

/// Builds the header of a neighbour message.
#[derive(Debug)]
pub struct NeighbourDiscoveryPacketBuilder {
    data: Vec<u8>,
}

impl NeighbourDiscoveryPacketBuilder {
    /// The bytes built so far.
    pub closed spec fn view(&self) -> Seq<u8> {
        self.data@
    }

    #[verifier::type_invariant]
    spec fn has_header(self) -> bool {
        self.data@.len() >= 12
    }

    /// A header of twelve zero bytes.
    pub fn new() -> (builder: Self)
        ensures
            builder@ == zeros(12),
    {
        let mut data: Vec<u8> = Vec::new();
        push_zeros(&mut data, 12);
        assert(data@ =~= zeros(12));
        NeighbourDiscoveryPacketBuilder { data: data }
    }

    /// Sets the address family; no other byte changes.
    pub fn set_family(self, family: u8) -> (builder: Self)
        ensures
            builder@ == overwrite(self@, 0, seq![family]),
    {
        proof {
            use_type_invariant(&self);
        }
        let mut data = self.data;
        data.set(0, family);
        assert(data@ =~= overwrite(self@, 0, seq![family]));
        NeighbourDiscoveryPacketBuilder { data: data }
    }

    /// Sets the interface index; no other byte changes.
    pub fn set_ifindex(self, index: u32) -> (builder: Self)
        ensures
            builder@ == overwrite(self@, 4, u32_bytes(index, endianness())),
    {
        proof {
            use_type_invariant(&self);
        }
        let mut data = self.data;
        put_u32(&mut data, 4, index);
        NeighbourDiscoveryPacketBuilder { data: data }
    }

    /// Sets the state; no other byte changes.
    pub fn set_state(self, state: NeighbourState) -> (builder: Self)
        ensures
            builder@ == overwrite(self@, 8, u16_bytes(state@, endianness())),
    {
        proof {
            use_type_invariant(&self);
        }
        let mut data = self.data;
        put_u16(&mut data, 8, state.bits());
        NeighbourDiscoveryPacketBuilder { data: data }
    }

    /// Sets the flags; no other byte changes.
    pub fn set_flags(self, flags: NeighbourFlags) -> (builder: Self)
        ensures
            builder@ == overwrite(self@, 10, seq![flags@]),
    {
        proof {
            use_type_invariant(&self);
        }
        let mut data = self.data;
        data.set(10, flags.bits());
        assert(data@ =~= overwrite(self@, 10, seq![flags@]));
        NeighbourDiscoveryPacketBuilder { data: data }
    }

    /// Sets the type; no other byte changes.
    pub fn set_type(self, type_: u8) -> (builder: Self)
        ensures
            builder@ == overwrite(self@, 11, seq![type_]),
    {
        proof {
            use_type_invariant(&self);
        }
        let mut data = self.data;
        data.set(11, type_);
        assert(data@ =~= overwrite(self@, 11, seq![type_]));
        NeighbourDiscoveryPacketBuilder { data: data }
    }

    /// The header as a record.
    pub fn build(self) -> (pkt: NeighbourDiscoveryPacket<'static>)
        ensures
            pkt@ == self@,
    {
        proof {
            use_type_invariant(&self);
        }
        NeighbourDiscoveryPacket::owned(self.data).unwrap()
    }
}

/// What the flag words used in requests come to.
proof fn lemma_request_flags()
    by (bit_vector)
    ensures
        0x300u16 & 0xf1f == 0x300,
{
}

/// The request that asks for all neighbours, or for those on the link with
/// the given index.
pub fn iter_neighbours_request(link: Option<u32>) -> (req: NetlinkPacket<'static>)
    ensures
        req@ == request_bytes(
            RTM_GETNEIGH,
            0x300,
            match link {
                Some(index) => overwrite(zeros(12), 4, u32_bytes(index, endianness())),
                None => zeros(12),
            },
        ),
{
    proof {
        lemma_request_flags();
    }
    let record = match link {
        Some(index) => NeighbourDiscoveryPacketBuilder::new().set_ifindex(index),
        None => NeighbourDiscoveryPacketBuilder::new(),
    }.build();
    request(RTM_GETNEIGH, NetlinkMsgFlags::NLM_F_DUMP, record.packet())
}

} // verus!
