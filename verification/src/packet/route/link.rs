//! Link layer operations
//!
//! A `Link` is one message of a link dump: a header that names the device
//! and attributes that describe it. The functions at the end build the
//! requests that ask the kernel for links or change them; sending them is
//! left to whoever owns the socket.
use crate::packet::netlink::{
    bare_request, nl_kind, nl_payload, with_item, NetlinkBufIterator, NetlinkMsgFlags,
    NetlinkPacket, NetlinkRequestBuilder,
};
use crate::packet::reader::{
    lemma_read_step, model_wf, read_model, session_transcript, ActionModel, ReaderModel,
};
use crate::packet::route::headers::{ifi_flags, ifi_index, ifi_type_, IfInfoPacket};
use crate::packet::route::route::WithPayload;
use crate::packet::route::{
    attr_bytes, attrs, first_attr, first_of_type, has_attr, is_attr_run, lemma_attr_round_trip,
    lemma_attr_run_append, mac_octets, padded_attr, read_mac, read_string, rta_len, rta_payload,
    string_of, RtAttrIterator, RtAttrPacket,
};
use crate::packet::{push_zeros, zeros};
use crate::util::padding;
use crate::wire::{
    get_u32, lemma_u16_round_trip, lemma_u32_round_trip, overwrite, push_u16, push_u32, put_u16,
    put_u32, u16_bytes, u32_at, u32_bytes,
};
use vstd::endian::endianness;
use vstd::prelude::*;
use vstd::slice::slice_subrange;
use vstd::string::StringSliceAdditionalSpecFns;

verus! {

/* rt message types */
pub const RTM_NEWLINK: u16 = 16;

pub const RTM_DELLINK: u16 = 17;

pub const RTM_GETLINK: u16 = 18;

pub const RTM_SETLINK: u16 = 19;

/* attributes (linux/if_link.h) */
pub const IFLA_UNSPEC: u16 = 0;

pub const IFLA_ADDRESS: u16 = 1;

pub const IFLA_BROADCAST: u16 = 2;

pub const IFLA_IFNAME: u16 = 3;

pub const IFLA_MTU: u16 = 4;

pub const IFLA_LINK: u16 = 5;

pub const IFLA_QDISC: u16 = 6;

pub const IFLA_STATS: u16 = 7;

pub const IFLA_COST: u16 = 8;

pub const IFLA_PRIORITY: u16 = 9;

pub const IFLA_MASTER: u16 = 10;

pub const IFLA_WIRELESS: u16 = 11;

pub const IFLA_PROTINFO: u16 = 12;

pub const IFLA_TXQLEN: u16 = 13;

pub const IFLA_MAP: u16 = 14;

pub const IFLA_WEIGHT: u16 = 15;

pub const IFLA_OPERSTATE: u16 = 16;

pub const IFLA_LINKMODE: u16 = 17;

pub const IFLA_LINKINFO: u16 = 18;

pub const IFLA_NET_NS_PID: u16 = 19;

pub const IFLA_IFALIAS: u16 = 20;

pub const IFLA_NUM_VF: u16 = 21;

pub const IFLA_VFINFO_LIST: u16 = 22;

pub const IFLA_STATS64: u16 = 23;

pub const IFLA_VF_PORTS: u16 = 24;

pub const IFLA_PORT_SELF: u16 = 25;

pub const IFLA_AF_SPEC: u16 = 26;

pub const IFLA_GROUP: u16 = 27;

pub const IFLA_NET_NS_FD: u16 = 28;

pub const IFLA_EXT_MASK: u16 = 29;

pub const IFLA_PROMISCUITY: u16 = 30;

pub const IFLA_NUM_TX_QUEUES: u16 = 31;

pub const IFLA_NUM_RX_QUEUES: u16 = 32;

pub const IFLA_CARRIER: u16 = 33;

pub const IFLA_PHYS_PORT_ID: u16 = 34;

pub const IFLA_CARRIER_CHANGES: u16 = 35;

pub const IFLA_PHYS_SWITCH_ID: u16 = 36;

pub const IFLA_LINK_NETNSID: u16 = 37;

pub const IFLA_PHYS_PORT_NAME: u16 = 38;

pub const IFLA_PROTO_DOWN: u16 = 39;

pub const IFLA_GSO_MAX_SEGS: u16 = 40;

pub const IFLA_GSO_MAX_SIZE: u16 = 41;

pub const IFLA_PAD: u16 = 42;

pub const IFLA_INFO_UNSPEC: u16 = 0;

pub const IFLA_INFO_KIND: u16 = 1;

pub const IFLA_INFO_DATA: u16 = 2;

pub const IFLA_INFO_XSTATS: u16 = 3;

/// Interface type
/// NB: Only Generic, Ether and Loopback are named; any other number is kept
/// as it came.
#[derive(Debug, Copy, Clone, PartialEq, Eq, Structural)]
pub enum IfType {
    Generic,
    Ether,
    Loopback,
    Other(u16),
}

impl IfType {
    /// The type that the number `val` stands for.
    pub open spec fn of(val: u16) -> IfType {
        if val == 0 {
            IfType::Generic
        } else if val == 1 {
            IfType::Ether
        } else if val == 772 {
            IfType::Loopback
        } else {
            IfType::Other(val)
        }
    }

    /// The number that stands for this type on the wire.
    pub open spec fn number(self) -> u16 {
        match self {
            IfType::Generic => 0,
            IfType::Ether => 1,
            IfType::Loopback => 772,
            IfType::Other(val) => val,
        }
    }

    /// The type that the number `val` stands for.
    pub fn new(val: u16) -> (kind: Self)
        ensures
            kind == IfType::of(val),
            kind.number() == val,
    {
        if val == 0 {
            IfType::Generic
        } else if val == 1 {
            IfType::Ether
        } else if val == 772 {
            IfType::Loopback
        } else {
            IfType::Other(val)
        }
    }

    /// The number that stands for this type on the wire.
    pub fn value(&self) -> (val: u16)
        ensures
            val == self.number(),
    {
        match self {
            IfType::Generic => 0,
            IfType::Ether => 1,
            IfType::Loopback => 772,
            IfType::Other(val) => *val,
        }
    }
}

#[derive(Copy, Clone, Debug)]
pub enum LinkType {
    Vlan,
    Veth,
    Vcan,
    Dummy,
    Ifb,
    MacVlan,
    Can,
    Bridge,
}

/// Interface (link) flags
#[derive(Clone, Copy, Debug, PartialEq, Eq, Structural)]
pub struct IfFlags {
    bits: u32,
}

impl IfFlags {
    /// interface is up
    pub const UP: u32 = 0x1;

    /// broadcast address valid
    pub const BROADCAST: u32 = 0x2;

    /// turn on debugging
    pub const DEBUG: u32 = 0x4;

    /// is a loopback net
    pub const LOOPBACK: u32 = 0x8;

    /// interface is a p-p link
    pub const POINTOPOINT: u32 = 0x10;

    /// avoid use of trailers
    pub const NOTRAILERS: u32 = 0x20;

    /// interface RFC2863 OPER_UP
    pub const RUNNING: u32 = 0x40;

    /// no ARP protocol
    pub const NOARP: u32 = 0x80;

    /// receive all packets
    pub const PROMISC: u32 = 0x100;

    /// receive all multicast packets
    pub const ALLMULTI: u32 = 0x200;

    /// master of a load balancer
    pub const MASTER: u32 = 0x400;

    /// slave of a load balancer
    pub const SLAVE: u32 = 0x800;

    /// Supports multicast
    pub const MULTICAST: u32 = 0x1000;

    /// can set media type
    pub const PORTSEL: u32 = 0x2000;

    /// auto media select active
    pub const AUTOMEDIA: u32 = 0x4000;

    /// dialup device with changing addresses
    pub const DYNAMIC: u32 = 0x8000;

    /// driver signals L1 up
    pub const LOWER_UP: u32 = 0x10000;

    /// driver signals dormant
    pub const DORMANT: u32 = 0x20000;

    /// echo sent packets
    pub const ECHO: u32 = 0x40000;

    /// Every bit that names a flag.
    pub const ALL: u32 = 0x7ffff;

    /// The flag word as a number.
    pub closed spec fn view(&self) -> u32 {
        self.bits
    }

    #[verifier::type_invariant]
    spec fn known_bits(self) -> bool {
        self.bits & 0x7ffff == self.bits
    }

    /// Words made of known bits stay so when they are joined, cut or masked.
    proof fn lemma_known_bits(a: u32, b: u32)
        by (bit_vector)
        ensures
            (a & 0x7ffff) & 0x7ffff == a & 0x7ffff,
            a & 0x7ffff == a && b & 0x7ffff == b ==> (a | b) & 0x7ffff == (a | b),
            a & 0x7ffff == a ==> (a & b) & 0x7ffff == (a & b),
            a & 0x7ffff == a ==> (a & !b) & 0x7ffff == (a & !b),
    {
    }

    /// The flags among the bits of `val`; bits that name no flag are dropped.
    pub fn new(val: u32) -> (flags: Self)
        ensures
            flags@ == val & 0x7ffff,
    {
        proof {
            Self::lemma_known_bits(val, val);
        }
        IfFlags { bits: val & 0x7ffff }
    }

    /// The flag word as a number.
    pub fn bits(&self) -> (bits: u32)
        ensures
            bits == self@,
            bits & 0x7ffff == bits,
    {
        proof {
            use_type_invariant(self);
        }
        self.bits
    }

    /// True if every flag of `other` is set in `self`.
    pub fn contains(&self, other: IfFlags) -> (all: bool)
        ensures
            all == (self@ & other@ == other@),
    {
        self.bits & other.bits == other.bits
    }

    /// True if no flag is set.
    pub fn is_empty(&self) -> (none: bool)
        ensures
            none == (self@ == 0),
    {
        self.bits == 0
    }

    /// The flags of `self` together with those of `other`.
    pub fn union(self, other: IfFlags) -> (flags: Self)
        ensures
            flags@ == self@ | other@,
    {
        proof {
            use_type_invariant(self);
            use_type_invariant(other);
            Self::lemma_known_bits(self.bits, other.bits);
        }
        IfFlags { bits: self.bits | other.bits }
    }

    /// The flags that `self` and `other` share.
    pub fn intersection(self, other: IfFlags) -> (flags: Self)
        ensures
            flags@ == self@ & other@,
    {
        proof {
            use_type_invariant(self);
            Self::lemma_known_bits(self.bits, other.bits);
        }
        IfFlags { bits: self.bits & other.bits }
    }

    /// The flags of `self` that `other` does not have.
    pub fn difference(self, other: IfFlags) -> (flags: Self)
        ensures
            flags@ == self@ & !other@,
    {
        proof {
            use_type_invariant(self);
            Self::lemma_known_bits(self.bits, other.bits);
        }
        IfFlags { bits: self.bits & !other.bits }
    }
}

/// Operating state
#[derive(Debug, Copy, Clone, PartialEq, Eq, Structural)]
pub enum OperState {
    Unknown,
    NotPresent,
    Down,
    LowerLayerDown,
    Testing,
    Dormant,
    Up,
}

impl OperState {
    /// The state that the number `val` stands for; a number that names no
    /// state stands for `Unknown`.
    pub open spec fn of(val: u8) -> OperState {
        if val == 1 {
            OperState::NotPresent
        } else if val == 2 {
            OperState::Down
        } else if val == 3 {
            OperState::LowerLayerDown
        } else if val == 4 {
            OperState::Testing
        } else if val == 5 {
            OperState::Dormant
        } else if val == 6 {
            OperState::Up
        } else {
            OperState::Unknown
        }
    }

    /// The state that the number `val` stands for.
    pub fn new(val: u8) -> (state: Self)
        ensures
            state == OperState::of(val),
    {
        if val == 1 {
            OperState::NotPresent
        } else if val == 2 {
            OperState::Down
        } else if val == 3 {
            OperState::LowerLayerDown
        } else if val == 4 {
            OperState::Testing
        } else if val == 5 {
            OperState::Dormant
        } else if val == 6 {
            OperState::Up
        } else {
            OperState::Unknown
        }
    }
}

/// True if the message `b` describes a link: its kind says so, and its
/// payload holds the link header.
pub open spec fn is_link_message(b: Seq<u8>) -> bool {
    nl_kind(b) == RTM_NEWLINK && nl_payload(b).len() >= 16
}

/// The attributes of the link message `b`: what follows the link header.
pub open spec fn link_attrs(b: Seq<u8>) -> Seq<Seq<u8>> {
    attrs(nl_payload(b).subrange(16, nl_payload(b).len() as int))
}

/// Link is a virtual of physical interface
#[derive(Debug)]
pub struct Link {
    packet: NetlinkPacket<'static>,
}

impl Link {
    /// The bytes of the message.
    pub closed spec fn view(&self) -> Seq<u8> {
        self.packet@
    }

    #[verifier::type_invariant]
    spec fn holds_link(self) -> bool {
        is_link_message(self.packet@)
    }

    /// The first attribute of the given type, if the link has one.
    pub open spec fn attribute(&self, kind: u16) -> Option<Seq<u8>> {
        first_of_type(link_attrs(self@), kind)
    }

    /// The link that `pkt` describes, if `pkt` is a link message.
    pub fn from_packet(pkt: NetlinkPacket<'static>) -> (link: Option<Link>)
        ensures
            link.is_some() <==> is_link_message(pkt@),
            link.is_some() ==> link.unwrap()@ == pkt@,
    {
        if pkt.get_kind() != RTM_NEWLINK {
            return None;
        }
        if pkt.payload().len() < 16 {
            return None;
        }
        Some(Link { packet: pkt })
    }

    /// The message that describes the link.
    pub fn packet(&self) -> (pkt: &NetlinkPacket<'static>)
        ensures
            pkt@ == self@,
            is_link_message(self@),
    {
        proof {
            use_type_invariant(self);
        }
        &self.packet
    }

    /// Get link's unique index
    pub fn get_index(&self) -> (index: u32)
        ensures
            index == ifi_index(nl_payload(self@)),
    {
        self.ifinfo().get_index()
    }

    /// Get link's type
    pub fn get_type(&self) -> (kind: IfType)
        ensures
            kind == IfType::of(ifi_type_(nl_payload(self@))),
    {
        IfType::new(self.ifinfo().get_type_())
    }

    /// Get link's flags
    pub fn get_flags(&self) -> (flags: IfFlags)
        ensures
            flags@ == ifi_flags(nl_payload(self@)) & 0x7ffff,
    {
        IfFlags::new(self.ifinfo().get_flags())
    }

    /// Get hardware address
    pub fn get_hw_addr(&self) -> (addr: Option<pnet::util::MacAddr>)
        ensures
            match self.attribute(IFLA_ADDRESS) {
                Some(attr) => {
                    &&& addr.is_some() <==> rta_payload(attr).len() >= 6
                    &&& addr.is_some() ==> mac_octets(addr.unwrap()) == rta_payload(attr).subrange(
                        0,
                        6,
                    )
                },
                None => addr.is_none(),
            },
    {
        match self.rta(IFLA_ADDRESS) {
            Some(rta) => read_mac(rta.payload()),
            None => None,
        }
    }

    /// Get MTU
    pub fn get_mtu(&self) -> (mtu: Option<u32>)
        ensures
            match self.attribute(IFLA_MTU) {
                Some(attr) => mtu == if attr.len() >= 8 {
                    Some(u32_at(attr, 4))
                } else {
                    None
                },
                None => mtu.is_none(),
            },
    {
        match self.rta(IFLA_MTU) {
            Some(rta) => {
                let bytes = rta.packet();
                if bytes.len() >= 8 {
                    Some(get_u32(bytes, 4))
                } else {
                    None
                }
            },
            None => None,
        }
    }

    /// Queueing discipline
    pub fn get_qdisc(&self) -> (name: Option<String>)
        ensures
            match self.attribute(IFLA_QDISC) {
                Some(attr) => match string_of(rta_payload(attr)) {
                    Some(chars) => name.is_some() && name.unwrap()@ == chars,
                    None => name.is_none(),
                },
                None => name.is_none(),
            },
    {
        match self.rta(IFLA_QDISC) {
            Some(rta) => read_string(rta.payload()),
            None => None,
        }
    }

    /// Get operating state
    pub fn get_state(&self) -> (state: OperState)
        ensures
            state == match self.attribute(IFLA_OPERSTATE) {
                Some(attr) => if rta_payload(attr).len() >= 1 {
                    OperState::of(rta_payload(attr)[0])
                } else {
                    OperState::Unknown
                },
                None => OperState::Unknown,
            },
    {
        match self.rta(IFLA_OPERSTATE) {
            Some(rta) => {
                let payload = rta.payload();
                if payload.len() >= 1 {
                    OperState::new(payload[0])
                } else {
                    OperState::Unknown
                }
            },
            None => OperState::Unknown,
        }
    }

    /// Get broadcast address
    pub fn get_broadcast(&self) -> (addr: Option<pnet::util::MacAddr>)
        ensures
            match self.attribute(IFLA_BROADCAST) {
                Some(attr) => {
                    &&& addr.is_some() <==> rta_payload(attr).len() >= 6
                    &&& addr.is_some() ==> mac_octets(addr.unwrap()) == rta_payload(attr).subrange(
                        0,
                        6,
                    )
                },
                None => addr.is_none(),
            },
    {
        match self.rta(IFLA_BROADCAST) {
            Some(rta) => read_mac(rta.payload()),
            None => None,
        }
    }

    /// Get name
    pub fn get_name(&self) -> (name: Option<String>)
        ensures
            match self.attribute(IFLA_IFNAME) {
                Some(attr) => match string_of(rta_payload(attr)) {
                    Some(chars) => name.is_some() && name.unwrap()@ == chars,
                    None => name.is_none(),
                },
                None => name.is_none(),
            },
    {
        match self.rta(IFLA_IFNAME) {
            Some(rta) => read_string(rta.payload()),
            None => None,
        }
    }

    /// The link header of the message.
    pub fn ifinfo(&self) -> (ifi: IfInfoPacket<'_>)
        ensures
            ifi@ == nl_payload(self@),
    {
        proof {
            use_type_invariant(self);
        }
        IfInfoPacket::new(self.packet.payload()).unwrap()
    }

    /// An iterator over the link's attributes.
    pub fn rta_iter(&self) -> (iter: RtAttrIterator<'_>)
        ensures
            attrs(iter@) == link_attrs(self@),
    {
        proof {
            use_type_invariant(self);
        }
        let payload = self.packet.payload();
        RtAttrIterator::new(slice_subrange(payload, 16, payload.len()))
    }

    /// The first attribute of the given type.
    pub fn rta(&self, rta_type: u16) -> (found: Option<RtAttrPacket<'_>>)
        ensures
            match self.attribute(rta_type) {
                Some(bytes) => found.is_some() && found.unwrap()@ == bytes,
                None => found.is_none(),
            },
    {
        self.rta_iter().find_type(rta_type)
    }
}

/// The links that a run of messages starts with: the messages up to the
/// first that describes none.
pub open spec fn leading_links(messages: Seq<Seq<u8>>) -> Seq<Seq<u8>>
    decreases messages.len(),
{
    if messages.len() > 0 && is_link_message(messages[0]) {
        seq![messages[0]] + leading_links(messages.drop_first())
    } else {
        Seq::empty()
    }
}

/// The links among the messages of a session, up to the first message that
/// describes none.
#[derive(Debug)]
pub struct LinksIterator {
    iter: NetlinkBufIterator,
}

impl LinksIterator {
    /// The session's reader.
    pub closed spec fn reader(&self) -> ReaderModel {
        self.iter.reader()
    }

    /// The chunks that the source still holds.
    pub closed spec fn pending(&self) -> Seq<Seq<u8>> {
        self.iter.pending()
    }

    /// The session was set up by `new` and driven by its own methods.
    pub closed spec fn wf(&self) -> bool {
        self.iter.wf()
    }

    /// The links of the session `iter`.
    pub fn new(iter: NetlinkBufIterator) -> (links: Self)
        requires
            iter.wf(),
        ensures
            links.wf(),
            links.reader() == iter.reader(),
            links.pending() == iter.pending(),
    {
        LinksIterator { iter: iter }
    }

    /// The link that the session's next message describes; nothing if the
    /// session is over or the message describes no link.
    pub fn next(&mut self) -> (item: Option<Link>)
        requires
            old(self).wf(),
        ensures
            final(self).wf(),
            ({
                let (reader, pending, action) = read_model(old(self).reader(), old(self).pending());
                &&& final(self).reader() == reader
                &&& final(self).pending() == pending
                &&& match action {
                    ActionModel::Message(frame) => {
                        &&& item.is_some() <==> is_link_message(frame)
                        &&& item.is_some() ==> item.unwrap()@ == frame
                    },
                    _ => item.is_none(),
                }
            }),
    {
        match self.iter.next() {
            Some(pkt) => Link::from_packet(pkt),
            None => None,
        }
    }

    /// A well-formed session has a well-formed reader.
    pub proof fn lemma_wf_model(&self)
        requires
            self.wf(),
        ensures
            model_wf(self.reader()),
    {
        self.iter.lemma_wf_model();
    }

    /// All links that the session yields before a message of another
    /// kind or its end, in order.
    pub fn collect(self) -> (list: Vec<Link>)
        requires
            self.wf(),
        ensures
            list@.len() == leading_links(
                session_transcript(self.reader(), self.pending()).messages,
            ).len(),
            forall|i: int|
                0 <= i < list@.len() ==> (#[trigger] list@[i])@ == leading_links(
                    session_transcript(self.reader(), self.pending()).messages,
                )[i],
    {
        let mut iter = self;
        let mut list: Vec<Link> = Vec::new();
        let ghost all = leading_links(session_transcript(self.reader(), self.pending()).messages);
        loop
            invariant_except_break
                iter.wf(),
                list@.len() + leading_links(
                    session_transcript(iter.reader(), iter.pending()).messages,
                ).len() == all.len(),
                forall|i: int|
                    0 <= i < leading_links(
                        session_transcript(iter.reader(), iter.pending()).messages,
                    ).len() ==> #[trigger] leading_links(
                        session_transcript(iter.reader(), iter.pending()).messages,
                    )[i] == all[list@.len() + i],
            invariant
                all == leading_links(session_transcript(self.reader(), self.pending()).messages),
                forall|i: int| 0 <= i < list@.len() ==> (#[trigger] list@[i])@ == all[i],
            ensures
                list@.len() == all.len(),
                forall|i: int| 0 <= i < list@.len() ==> (#[trigger] list@[i])@ == all[i],
            decreases
                    iter.pending().len(),
                    iter.reader().buf.len() + 3 - iter.reader().cursor,
        {
            let ghost before = session_transcript(iter.reader(), iter.pending()).messages;
            proof {
                iter.lemma_wf_model();
                lemma_read_step(iter.reader(), iter.pending());
            }
            match iter.next() {
                Some(item) => {
                    proof {
                        let later = session_transcript(iter.reader(), iter.pending()).messages;
                        assert(before[0] == item@);
                        assert(before.drop_first() =~= later);
                        assert(is_link_message(before[0]));
                        assert(leading_links(before) =~= seq![before[0]] + leading_links(later));
                        assert(leading_links(before)[0] == all[list@.len() as int]);
                        assert forall|i: int| 0 <= i < leading_links(later).len() implies #[trigger]
                            leading_links(later)[i] == all[list@.len() + 1 + i] by {
                            assert(leading_links(later)[i] == leading_links(before)[i + 1]);
                        }
                        iter.lemma_wf_model();
                    }
                    list.push(item);
                },
                None => {
                    proof {
                        if before.len() > 0 {
                            assert(!is_link_message(before[0]));
                        }
                        assert(leading_links(before).len() == 0);
                    }
                    break ;
                },
            }
        }
        list
    }

    /// The last of the links that the session yields before a message of
    /// another kind or its end.
    pub fn last(self) -> (item: Option<Link>)
        requires
            self.wf(),
        ensures
            match item {
                Some(found) => leading_links(
                    session_transcript(self.reader(), self.pending()).messages,
                ).len() > 0 && found@ == leading_links(
                    session_transcript(self.reader(), self.pending()).messages,
                ).last(),
                None => leading_links(
                    session_transcript(self.reader(), self.pending()).messages,
                ).len() == 0,
            },
    {
        let mut list = self.collect();
        list.pop()
    }
}

/// The sixteen bytes of a link header with the given fields.
pub open spec fn ifinfo_header(family: u8, kind: u16, index: u32, flags: u32, change: u32) -> Seq<u8> {
    seq![family, 0u8] + u16_bytes(kind, endianness()) + u32_bytes(index, endianness()) + u32_bytes(
        flags,
        endianness(),
    ) + u32_bytes(change, endianness())
}

/// Builds a link header and the attributes behind it.
#[derive(Debug)]
pub struct IfInfoPacketBuilder {
    data: Vec<u8>,
}

impl IfInfoPacketBuilder {
    /// The bytes built so far.
    pub closed spec fn view(&self) -> Seq<u8> {
        self.data@
    }

    #[verifier::type_invariant]
    spec fn has_header(self) -> bool {
        self.data@.len() >= 16 && self.data@.len() % 4 == 0
    }

    /// What lies behind the header: the attributes appended so far.
    pub open spec fn attr_area(&self) -> Seq<u8> {
        self@.subrange(16, self@.len() as int)
    }

    /// A header of sixteen zero bytes and no attribute.
    pub fn new() -> (builder: Self)
        ensures
            builder@ == zeros(16),
            is_attr_run(builder.attr_area()),
    {
        let mut data: Vec<u8> = Vec::new();
        push_zeros(&mut data, 16);
        assert(data@ =~= zeros(16));
        assert(data@.subrange(16, 16) =~= Seq::<u8>::empty());
        IfInfoPacketBuilder { data: data }
    }

    /// Sets the address family; no other byte changes.
    pub fn set_family(self, family: u8) -> (builder: Self)
        ensures
            builder@ == overwrite(self@, 0, seq![family]),
            builder@.len() == self@.len(),
            builder.attr_area() == self.attr_area(),
    {
        proof {
            use_type_invariant(&self);
        }
        let mut data = self.data;
        data.set(0, family);
        assert(data@ =~= overwrite(self@, 0, seq![family]));
        assert(data@.subrange(16, data@.len() as int) =~= self.attr_area());
        IfInfoPacketBuilder { data: data }
    }

    /// Sets the interface index; no other byte changes.
    pub fn set_index(self, index: u32) -> (builder: Self)
        ensures
            builder@ == overwrite(self@, 4, u32_bytes(index, endianness())),
            builder@.len() == self@.len(),
            builder.attr_area() == self.attr_area(),
    {
        proof {
            use_type_invariant(&self);
        }
        let mut data = self.data;
        put_u32(&mut data, 4, index);
        proof {
            lemma_u32_round_trip(index, endianness());
            assert(data@.subrange(16, data@.len() as int) =~= self.attr_area());
        }
        IfInfoPacketBuilder { data: data }
    }

    /// Sets the device type; no other byte changes.
    pub fn set_type(self, type_: IfType) -> (builder: Self)
        ensures
            builder@ == overwrite(self@, 2, u16_bytes(type_.number(), endianness())),
            builder@.len() == self@.len(),
            builder.attr_area() == self.attr_area(),
    {
        proof {
            use_type_invariant(&self);
        }
        let mut data = self.data;
        put_u16(&mut data, 2, type_.value());
        proof {
            lemma_u16_round_trip(type_.number(), endianness());
            assert(data@.subrange(16, data@.len() as int) =~= self.attr_area());
        }
        IfInfoPacketBuilder { data: data }
    }

    /// Sets the device flags; no other byte changes.
    pub fn set_flags(self, flags: IfFlags) -> (builder: Self)
        ensures
            builder@ == overwrite(self@, 8, u32_bytes(flags@, endianness())),
            builder@.len() == self@.len(),
            builder.attr_area() == self.attr_area(),
    {
        proof {
            use_type_invariant(&self);
        }
        let mut data = self.data;
        put_u32(&mut data, 8, flags.bits());
        proof {
            lemma_u32_round_trip(flags@, endianness());
            assert(data@.subrange(16, data@.len() as int) =~= self.attr_area());
        }
        IfInfoPacketBuilder { data: data }
    }

    /// Sets the mask of the flags to change; no other byte changes.
    pub fn set_change(self, change: u32) -> (builder: Self)
        ensures
            builder@ == overwrite(self@, 12, u32_bytes(change, endianness())),
            builder@.len() == self@.len(),
            builder.attr_area() == self.attr_area(),
    {
        proof {
            use_type_invariant(&self);
        }
        let mut data = self.data;
        put_u32(&mut data, 12, change);
        proof {
            lemma_u32_round_trip(change, endianness());
            assert(data@.subrange(16, data@.len() as int) =~= self.attr_area());
        }
        IfInfoPacketBuilder { data: data }
    }

    /// Appends the attribute, as far as its length field counts it, and
    /// pads it to the alignment boundary. The header and the attributes
    /// appended before stay as they are, and the buffer stays a multiple of
    /// four bytes long. A whole attribute appended behind whole attributes
    /// is read back behind them.
    pub fn append(self, rta: RtAttrPacket) -> (builder: Self)
        requires
            rta_len(rta@) <= rta@.len(),
        ensures
            builder@ == self@ + padded_attr(rta@),
            builder.attr_area() == self.attr_area() + padded_attr(rta@),
            self@.len() % 4 == 0,
            builder@.len() % 4 == 0,
            is_attr_run(self.attr_area()) && has_attr(rta@) ==> is_attr_run(builder.attr_area())
                && attrs(builder.attr_area()) == attrs(self.attr_area()) + seq![first_attr(rta@)],
    {
        proof {
            use_type_invariant(&self);
        }
        let mut data = self.data;
        let len = rta.get_rta_len() as usize;
        data.extend_from_slice(slice_subrange(rta.packet(), 0, len));
        let rem: usize = len % 4;
        let pad: usize = if rem == 0 {
            0
        } else {
            4 - rem
        };
        // add padding for alignment
        push_zeros(&mut data, pad);
        proof {
            assert(data@ =~= self@ + padded_attr(rta@));
            assert(data@.subrange(16, data@.len() as int) =~= self.attr_area() + padded_attr(
                rta@,
            ));
            if is_attr_run(self.attr_area()) && has_attr(rta@) {
                lemma_attr_run_append(self.attr_area(), rta@);
            }
        }
        IfInfoPacketBuilder { data: data }
    }

    /// The header and attributes as one record.
    pub fn build(self) -> (pkt: IfInfoPacket<'static>)
        ensures
            pkt@ == self@,
            pkt@.len() % 4 == 0,
    {
        proof {
            use_type_invariant(&self);
        }
        IfInfoPacket::owned(self.data).unwrap()
    }
}

/// A link header with the given fields and no attribute.
pub fn ifinfo(family: u8, kind: u16, index: u32, flags: u32, change: u32) -> (pkt: IfInfoPacket<
    'static,
>)
    ensures
        pkt@ == ifinfo_header(family, kind, index, flags, change),
        pkt@.len() == 16,
{
    let mut data: Vec<u8> = Vec::new();
    data.push(family);
    data.push(0u8);
    push_u16(&mut data, kind);
    push_u32(&mut data, index);
    push_u32(&mut data, flags);
    push_u32(&mut data, change);
    assert(data@ =~= ifinfo_header(family, kind, index, flags, change));
    IfInfoPacket::owned(data).unwrap()
}

/// What the flag words used in requests come to.
proof fn lemma_request_flags()
    by (bit_vector)
    ensures
        0x300u16 & 0xf1f == 0x300,
        0x4u16 & 0xf1f == 0x4,
        0x604u16 & 0xf1f == 0x604,
        0x300u16 | 1 == 0x301,
        0x4u16 | 1 == 0x5,
        0x604u16 | 1 == 0x605,
        0x400u16 | 0x200 | 0x4 == 0x604,
{
}

/// A request over one record: a bare header of the given kind and flags,
/// and the record appended.
pub open spec fn request_bytes(kind: u16, flags: u16, record: Seq<u8>) -> Seq<u8> {
    with_item(bare_request(kind, flags), record)
}

/// The request of the given kind and flags over `record`.
pub fn request(kind: u16, flags: u16, record: &[u8]) -> (req: NetlinkPacket<'static>)
    requires
        16 + record@.len() <= u32::MAX,
    ensures
        req@ == request_bytes(kind, flags & 0xf1f, record@),
{
    NetlinkRequestBuilder::new(kind, NetlinkMsgFlags::new(flags)).append(record).build()
}

/// The request that asks for all links.
pub fn iter_links_request() -> (req: NetlinkPacket<'static>)
    ensures
        req@ == request_bytes(RTM_GETLINK, 0x300, zeros(16)),
{
    proof {
        lemma_request_flags();
    }
    let ifi = IfInfoPacketBuilder::new().build();
    request(RTM_GETLINK, NetlinkMsgFlags::NLM_F_DUMP, ifi.packet())
}

/// The request that asks for the link with the given index.
pub fn get_link_by_index_request(index: u32) -> (req: NetlinkPacket<'static>)
    ensures
        req@ == request_bytes(
            RTM_GETLINK,
            0x4,
            overwrite(zeros(16), 4, u32_bytes(index, endianness())),
        ),
{
    proof {
        lemma_request_flags();
    }
    let ifi = IfInfoPacketBuilder::new().set_index(index).build();
    request(RTM_GETLINK, NetlinkMsgFlags::NLM_F_ACK, ifi.packet())
}

/// The request that asks for the link with the given name.
pub fn get_link_by_name_request(name: &str) -> (req: NetlinkPacket<'static>)
    requires
        name.spec_bytes().len() + 5 <= u16::MAX,
    ensures
        req@ == request_bytes(
            RTM_GETLINK,
            0x4,
            zeros(16) + padded_attr(attr_bytes(IFLA_IFNAME, name.spec_bytes() + seq![0u8])),
        ),
{
    proof {
        lemma_request_flags();
        lemma_attr_round_trip(IFLA_IFNAME, name.spec_bytes() + seq![0u8]);
    }
    let ifi = IfInfoPacketBuilder::new().append(
        RtAttrPacket::create_with_payload(IFLA_IFNAME, name),
    ).build();
    request(RTM_GETLINK, NetlinkMsgFlags::NLM_F_ACK, ifi.packet())
}

/// The request that creates a dummy link with the given name.
pub fn new_dummy_link_request(name: &str) -> (req: NetlinkPacket<'static>)
    requires
        name.spec_bytes().len() + 5 <= u16::MAX,
    ensures
        req@ == request_bytes(
            RTM_NEWLINK,
            0x604,
            zeros(16) + padded_attr(attr_bytes(IFLA_IFNAME, name.spec_bytes() + seq![0u8]))
                + padded_attr(
                attr_bytes(IFLA_LINKINFO, attr_bytes(IFLA_INFO_KIND, "dummy".spec_bytes() + seq![0u8])),
            ),
        ),
{
    let kind = "dummy";
    proof {
        lemma_request_flags();
        reveal_strlit("dummy");
        assert("dummy".spec_bytes().len() == 5) by {
            assert(vstd::string::is_ascii("dummy"));
            vstd::string::is_ascii_spec_bytes("dummy");
        }
        let inner = attr_bytes(IFLA_INFO_KIND, "dummy".spec_bytes() + seq![0u8]);
        lemma_attr_round_trip(IFLA_IFNAME, name.spec_bytes() + seq![0u8]);
        lemma_attr_round_trip(
            IFLA_INFO_KIND,
            "dummy".spec_bytes() + seq![0u8],
        );
        lemma_attr_round_trip(IFLA_LINKINFO, inner);
    }
    let ifi = IfInfoPacketBuilder::new().append(
        RtAttrPacket::create_with_payload(IFLA_IFNAME, name),
    ).append(
        RtAttrPacket::create_with_payload(
            IFLA_LINKINFO,
            RtAttrPacket::create_with_payload(IFLA_INFO_KIND, kind),
        ),
    ).build();
    request(
        RTM_NEWLINK,
        NetlinkMsgFlags::NLM_F_CREATE | NetlinkMsgFlags::NLM_F_EXCL | NetlinkMsgFlags::NLM_F_ACK,
        ifi.packet(),
    )
}

/// The request that deletes the link with the given index.
pub fn delete_link_request(index: u32) -> (req: NetlinkPacket<'static>)
    ensures
        req@ == request_bytes(RTM_DELLINK, 0x4, ifinfo_header(0, 0, index, 0, 0)),
{
    proof {
        lemma_request_flags();
    }
    let ifi = ifinfo(0, 0, index, 0, 0);
    request(RTM_DELLINK, NetlinkMsgFlags::NLM_F_ACK, ifi.packet())
}

/// The request that sets the link with the given index down.
pub fn link_set_down_request(index: u32) -> (req: NetlinkPacket<'static>)
    ensures
        req@ == request_bytes(RTM_NEWLINK, 0x4, ifinfo_header(0, 0, index, 0, 1)),
{
    proof {
        lemma_request_flags();
    }
    let ifi = ifinfo(0, 0, index, 0, IfFlags::UP);
    request(RTM_NEWLINK, NetlinkMsgFlags::NLM_F_ACK, ifi.packet())
}

/// The request that sets the link with the given index up.
pub fn link_set_up_request(index: u32) -> (req: NetlinkPacket<'static>)
    ensures
        req@ == request_bytes(RTM_NEWLINK, 0x4, ifinfo_header(0, 0, index, 1, 1)),
{
    proof {
        lemma_request_flags();
    }
    let ifi = ifinfo(0, 0, index, IfFlags::UP, IfFlags::UP);
    request(RTM_NEWLINK, NetlinkMsgFlags::NLM_F_ACK, ifi.packet())
}

} // verus!
