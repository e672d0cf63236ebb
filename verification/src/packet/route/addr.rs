//! Address operations
use crate::packet::netlink::{
    nl_kind, nl_payload, NetlinkBufIterator, NetlinkMsgFlags, NetlinkPacket,
};
use crate::packet::reader::{
    lemma_read_step, model_wf, read_model, session_transcript, ActionModel, ReaderModel,
};
use crate::packet::route::headers::{
    ifa_family, ifa_flags, ifa_index, ifa_prefix_len, ifa_scope, IfAddrPacket,
};
use crate::packet::route::link::{ifinfo, ifinfo_header, request, request_bytes};
use crate::packet::route::{
    attr_bytes, attrs, first_attr, first_of_type, has_attr, is_attr_run, lemma_attr_round_trip,
    lemma_attr_run_append, padded_attr, read_string, rta_len, rta_payload, string_of,
    RtAttrIterator, RtAttrPacket,
};
use crate::packet::{push_zeros, zeros};
use crate::wire::{
    get_u32, get_u32_be, lemma_u32_round_trip, push_u32, push_u32_be, u32_bytes, u32_value,
};
use vstd::endian::{endianness, Endian};
use vstd::prelude::*;
use vstd::slice::slice_subrange;

verus! {

pub const RTM_NEWADDR: u16 = 20;

pub const RTM_DELADDR: u16 = 21;

pub const RTM_GETADDR: u16 = 22;

/// Address family of IPv4.
pub const AF_INET: u8 = 2;

/// Address family of IPv6.
pub const AF_INET6: u8 = 10;

/* rtm_scope

   Really it is not scope, but sort of distance to the destination.
   NOWHERE are reserved for not existing destinations, HOST is our
   local addresses, LINK are destinations, located on directly attached
   link and UNIVERSE is everywhere in the Universe.

   Intermediate values are also possible f.e. interior routes
   could be assigned a value between UNIVERSE and LINK.
*/
#[derive(Debug, Copy, Clone, PartialEq, Eq, Structural)]
pub enum Scope {
    Global,
    /* User defined values  */
    Site,
    Link,
    Host,
    Nowhere,
    /// A value between the named ones.
    Other(u8),
}

impl Scope {
    /// The scope that the number `val` stands for.
    pub open spec fn of(val: u8) -> Scope {
        if val == 0 {
            Scope::Global
        } else if val == 200 {
            Scope::Site
        } else if val == 253 {
            Scope::Link
        } else if val == 254 {
            Scope::Host
        } else if val == 255 {
            Scope::Nowhere
        } else {
            Scope::Other(val)
        }
    }

    /// The number that stands for this scope on the wire.
    pub open spec fn number(self) -> u8 {
        match self {
            Scope::Global => 0,
            Scope::Site => 200,
            Scope::Link => 253,
            Scope::Host => 254,
            Scope::Nowhere => 255,
            Scope::Other(val) => val,
        }
    }

    /// The scope that the number `val` stands for.
    pub fn new(val: u8) -> (scope: Self)
        ensures
            scope == Scope::of(val),
            scope.number() == val,
    {
        if val == 0 {
            Scope::Global
        } else if val == 200 {
            Scope::Site
        } else if val == 253 {
            Scope::Link
        } else if val == 254 {
            Scope::Host
        } else if val == 255 {
            Scope::Nowhere
        } else {
            Scope::Other(val)
        }
    }

    /// The number that stands for this scope on the wire.
    pub fn value(&self) -> (val: u8)
        ensures
            val == self.number(),
    {
        match self {
            Scope::Global => 0,
            Scope::Site => 200,
            Scope::Link => 253,
            Scope::Host => 254,
            Scope::Nowhere => 255,
            Scope::Other(val) => *val,
        }
    }
}

/* link flags */
/// Address flags
#[derive(Clone, Copy, Debug, PartialEq, Eq, Structural)]
pub struct IfAddrFlags {
    bits: u8,
}

impl IfAddrFlags {
    pub const SECONDARY: u8 = 0x1;

    pub const TEMPORARY: u8 = 0x1;

    pub const NODAD: u8 = 0x2;

    pub const OPTIMISTIC: u8 = 0x4;

    pub const DADFAILED: u8 = 0x8;

    pub const HOMEADDRESS: u8 = 0x10;

    pub const DEPRECATED: u8 = 0x20;

    pub const TENTATIVE: u8 = 0x40;

    pub const PERMANENT: u8 = 0x80;

    /// Every bit that names a flag.
    pub const ALL: u8 = 0xff;

    /// The flag word as a number.
    pub closed spec fn view(&self) -> u8 {
        self.bits
    }

    #[verifier::type_invariant]
    spec fn known_bits(self) -> bool {
        self.bits & 0xff == self.bits
    }

    /// Words made of known bits stay so when they are joined, cut or masked.
    proof fn lemma_known_bits(a: u8, b: u8)
        by (bit_vector)
        ensures
            (a & 0xff) & 0xff == a & 0xff,
            a & 0xff == a && b & 0xff == b ==> (a | b) & 0xff == (a | b),
            a & 0xff == a ==> (a & b) & 0xff == (a & b),
            a & 0xff == a ==> (a & !b) & 0xff == (a & !b),
    {
    }

    /// The flags among the bits of `val`; bits that name no flag are dropped.
    pub fn new(val: u8) -> (flags: Self)
        ensures
            flags@ == val & 0xff,
    {
        proof {
            Self::lemma_known_bits(val, val);
        }
        IfAddrFlags { bits: val & 0xff }
    }

    /// The flag word as a number.
    pub fn bits(&self) -> (bits: u8)
        ensures
            bits == self@,
            bits & 0xff == bits,
    {
        proof {
            use_type_invariant(self);
        }
        self.bits
    }

    /// True if every flag of `other` is set in `self`.
    pub fn contains(&self, other: IfAddrFlags) -> (all: bool)
        ensures
            all == (self@ & other@ == other@),
    {
        self.bits & other.bits == other.bits
    }

    /// True if no flag is set.
    pub fn is_empty(&self) -> (none: bool)
        ensures
            none == (self@ == 0),
    {
        self.bits == 0
    }

    /// The flags of `self` together with those of `other`.
    pub fn union(self, other: IfAddrFlags) -> (flags: Self)
        ensures
            flags@ == self@ | other@,
    {
        proof {
            use_type_invariant(self);
            use_type_invariant(other);
            Self::lemma_known_bits(self.bits, other.bits);
        }
        IfAddrFlags { bits: self.bits | other.bits }
    }

    /// The flags that `self` and `other` share.
    pub fn intersection(self, other: IfAddrFlags) -> (flags: Self)
        ensures
            flags@ == self@ & other@,
    {
        proof {
            use_type_invariant(self);
            Self::lemma_known_bits(self.bits, other.bits);
        }
        IfAddrFlags { bits: self.bits & other.bits }
    }

    /// The flags of `self` that `other` does not have.
    pub fn difference(self, other: IfAddrFlags) -> (flags: Self)
        ensures
            flags@ == self@ & !other@,
    {
        proof {
            use_type_invariant(self);
            Self::lemma_known_bits(self.bits, other.bits);
        }
        IfAddrFlags { bits: self.bits & !other.bits }
    }
}

/* Important comment:
 * IFA_ADDRESS is prefix address, rather than local interface address.
 * It makes no difference for normally configured broadcast interfaces,
 * but for point-to-point IFA_ADDRESS is DESTINATION address,
 * local address is supplied in IFA_LOCAL attribute.
 */
pub const IFA_UNSPEC: u16 = 0;

pub const IFA_ADDRESS: u16 = 1;

pub const IFA_LOCAL: u16 = 2;

pub const IFA_LABEL: u16 = 3;

pub const IFA_BROADCAST: u16 = 4;

pub const IFA_ANYCAST: u16 = 5;

pub const IFA_CACHEINFO: u16 = 6;

pub const IFA_MULTICAST: u16 = 7;

/// Abstract over IP versions
#[derive(Debug, Clone, Copy, PartialEq, Eq)]
pub enum IpAddr {
    /// The four octets as one number, the first octet the most significant.
    V4(u32),
    /// The sixteen octets in order.
    V6([u8; 16]),
}

impl IpAddr {
    /// The octets of the address, first to last.
    pub open spec fn octets(&self) -> Seq<u8> {
        match self {
            IpAddr::V4(ip) => u32_bytes(*ip, Endian::Big),
            IpAddr::V6(ip) => ip@,
        }
    }

    /// The address family.
    pub fn family(&self) -> (family: u8)
        ensures
            family == if self is V4 {
                AF_INET
            } else {
                AF_INET6
            },
    {
        match self {
            IpAddr::V4(_) => AF_INET,
            IpAddr::V6(_) => AF_INET6,
        }
    }

    /// The octets of the address, first to last.
    pub fn bytes(&self) -> (v: Vec<u8>)
        ensures
            v@ == self.octets(),
    {
        let mut v: Vec<u8> = Vec::new();
        match self {
            IpAddr::V4(ip) => {
                push_u32_be(&mut v, *ip);
                assert(v@ =~= self.octets());
            },
            IpAddr::V6(ip) => {
                v.extend_from_slice(ip.as_slice());
                assert(v@ =~= self.octets());
            },
        }
        v
    }

    /// True if both are the same address.
    pub fn same(&self, other: &IpAddr) -> (eq: bool)
        ensures
            eq == (self.octets() == other.octets()),
    {
        let a = self.bytes();
        let b = other.bytes();
        proof {
            lemma_u32_round_trip(0, Endian::Big);
            if a@.len() != b@.len() {
                assert(self.octets() != other.octets());
            }
        }
        if a.len() != b.len() {
            return false;
        }
        let mut i: usize = 0;
        while i < a.len()
            invariant
                i <= a@.len(),
                a@.len() == b@.len(),
                a@ == self.octets(),
                b@ == other.octets(),
                forall|j: int| 0 <= j < i ==> a@[j] == b@[j],
            decreases a@.len() - i,
        {
            if a[i] != b[i] {
                assert(self.octets()[i as int] != other.octets()[i as int]);
                return false;
            }
            i = i + 1;
        }
        assert(a@ =~= b@);
        true
    }
}

/// True if `bytes` can be read as an address of the given family: four
/// octets or more for IPv4, exactly sixteen for IPv6.
pub open spec fn ip_readable(family: u8, bytes: Seq<u8>) -> bool {
    (family == AF_INET && bytes.len() >= 4) || (family == AF_INET6 && bytes.len() == 16)
}

/// True if `ip` is the address of the given family that `bytes` spell.
pub open spec fn ip_is(ip: IpAddr, family: u8, bytes: Seq<u8>) -> bool {
    match ip {
        IpAddr::V4(v) => family == AF_INET && v == u32_value(bytes.subrange(0, 4), Endian::Big),
        IpAddr::V6(a) => family == AF_INET6 && a@ == bytes,
    }
}

/// True if `ip` is what the attribute `attr` of a message of the given
/// family holds: the address that its payload spells, and nothing where the
/// attribute is missing or its payload is no address of the family.
pub open spec fn ip_is_attr_of(ip: Option<IpAddr>, family: u8, attr: Option<Seq<u8>>) -> bool {
    match attr {
        Some(bytes) => {
            &&& ip.is_some() <==> ip_readable(family, rta_payload(bytes))
            &&& ip.is_some() ==> ip_is(ip.unwrap(), family, rta_payload(bytes))
        },
        None => ip.is_none(),
    }
}

/// True if the message `b` describes an address: its kind says so, and its
/// payload holds the header of such a message.
pub open spec fn is_addr_message(b: Seq<u8>) -> bool {
    nl_kind(b) == RTM_NEWADDR && nl_payload(b).len() >= 8
}

/// The attributes of the message `b`: what follows the header in its payload.
pub open spec fn addr_attrs(b: Seq<u8>) -> Seq<Seq<u8>> {
    attrs(nl_payload(b).subrange(8, nl_payload(b).len() as int))
}

/// One address of an interface, as the kernel reports it.
#[derive(Debug)]
pub struct Addr {
    packet: NetlinkPacket<'static>,
}

impl Addr {
    /// The bytes of the message.
    pub closed spec fn view(&self) -> Seq<u8> {
        self.packet@
    }

    #[verifier::type_invariant]
    spec fn holds_header(self) -> bool {
        is_addr_message(self.packet@)
    }

    /// The first attribute of the given type, if there is one.
    pub open spec fn attribute(&self, kind: u16) -> Option<Seq<u8>> {
        first_of_type(addr_attrs(self@), kind)
    }

    /// What `pkt` describes, if `pkt` is a message of the kind.
    pub fn from_packet(pkt: NetlinkPacket<'static>) -> (item: Option<Addr>)
        ensures
            item.is_some() <==> is_addr_message(pkt@),
            item.is_some() ==> item.unwrap()@ == pkt@,
    {
        if pkt.get_kind() != RTM_NEWADDR {
            return None;
        }
        if pkt.payload().len() < 8 {
            return None;
        }
        Some(Addr { packet: pkt })
    }

    /// The message itself.
    pub fn packet(&self) -> (pkt: &NetlinkPacket<'static>)
        ensures
            pkt@ == self@,
            is_addr_message(self@),
    {
        proof {
            use_type_invariant(self);
        }
        &self.packet
    }

    /// The header of the message.
    pub fn ifaddr(&self) -> (hdr: IfAddrPacket<'_>)
        ensures
            hdr@ == nl_payload(self@),
    {
        proof {
            use_type_invariant(self);
        }
        IfAddrPacket::new(self.packet.payload()).unwrap()
    }

    /// An iterator over the attributes.
    pub fn rta_iter(&self) -> (iter: RtAttrIterator<'_>)
        ensures
            attrs(iter@) == addr_attrs(self@),
    {
        proof {
            use_type_invariant(self);
        }
        let payload = self.packet.payload();
        RtAttrIterator::new(slice_subrange(payload, 8, payload.len()))
    }

    /// The first attribute of the given type.
    pub fn rta(&self, rta_type: u16) -> (found: Option<RtAttrPacket<'_>>)
        ensures
            match self.attribute(rta_type) {
                Some(bytes) => found.is_some() && found.unwrap()@ == bytes,
                None => found.is_none(),
            },
    {
        self.rta_iter().find_type(rta_type)
    }

    pub fn get_family(&self) -> (family: u8)
        ensures
            family == ifa_family(nl_payload(self@)),
    {
        self.ifaddr().get_family()
    }

    pub fn get_flags(&self) -> (flags: IfAddrFlags)
        ensures
            flags@ == ifa_flags(nl_payload(self@)) & 0xff,
    {
        IfAddrFlags::new(self.ifaddr().get_flags())
    }

    pub fn get_prefix_len(&self) -> (len: u8)
        ensures
            len == ifa_prefix_len(nl_payload(self@)),
    {
        self.ifaddr().get_prefix_len()
    }

    pub fn get_scope(&self) -> (scope: Scope)
        ensures
            scope == Scope::of(ifa_scope(nl_payload(self@))),
    {
        Scope::new(self.ifaddr().get_scope())
    }

    pub fn get_link_index(&self) -> (index: u32)
        ensures
            index == ifa_index(nl_payload(self@)),
    {
        self.ifaddr().get_index()
    }

    /// Get address
    ///
    /// This is prefix address, rather than local interface address.
    /// It makes no difference for normally configured broadcast interfaces,
    /// but for point-to-point it is DESTINATION address,
    /// local address is supplied by get_local_ip().
    ///
    pub fn get_ip(&self) -> (ip: Option<IpAddr>)
        ensures
            ip_is_attr_of(ip, ifa_family(nl_payload(self@)), self.attribute(IFA_ADDRESS)),
    {
        let family = self.get_family();
        match self.rta(IFA_ADDRESS) {
            Some(rta) => Self::ip_from_payload(family, rta.payload()),
            None => None,
        }
    }

    /// See get_ip()
    pub fn get_local_ip(&self) -> (ip: Option<IpAddr>)
        ensures
            ip_is_attr_of(ip, ifa_family(nl_payload(self@)), self.attribute(IFA_LOCAL)),
    {
        let family = self.get_family();
        match self.rta(IFA_LOCAL) {
            Some(rta) => Self::ip_from_payload(family, rta.payload()),
            None => None,
        }
    }

    pub fn get_broadcast_ip(&self) -> (ip: Option<IpAddr>)
        ensures
            ip_is_attr_of(ip, ifa_family(nl_payload(self@)), self.attribute(IFA_BROADCAST)),
    {
        let family = self.get_family();
        match self.rta(IFA_BROADCAST) {
            Some(rta) => Self::ip_from_payload(family, rta.payload()),
            None => None,
        }
    }

    pub fn get_label(&self) -> (label: Option<String>)
        ensures
            match self.attribute(IFA_LABEL) {
                Some(attr) => match string_of(rta_payload(attr)) {
                    Some(chars) => label.is_some() && label.unwrap()@ == chars,
                    None => label.is_none(),
                },
                None => label.is_none(),
            },
    {
        match self.rta(IFA_LABEL) {
            Some(rta) => read_string(rta.payload()),
            None => None,
        }
    }

    /// Extract an IP address from a buffer.
    pub fn ip_from_family_and_bytes(family: u8, bytes: &[u8]) -> (ip: IpAddr)
        requires
            ip_readable(family, bytes@),
        ensures
            ip_is(ip, family, bytes@),
    {
        if family == AF_INET {
            IpAddr::V4(get_u32_be(bytes, 0))
        } else {
            let mut ip6addr: [u8; 16] = [0;16];
            let mut i: usize = 0;
            while i < 16
                invariant
                    i <= 16,
                    bytes@.len() == 16,
                    forall|j: int| 0 <= j < i ==> ip6addr@[j] == bytes@[j],
                decreases 16 - i,
            {
                ip6addr[i] = bytes[i];
                i = i + 1;
            }
            assert(ip6addr@ =~= bytes@);
            IpAddr::V6(ip6addr)
        }
    }

    /// Extract an IP address from a buffer, if the family is known and the
    /// buffer holds an address of that family.
    pub fn ip_from_payload(family: u8, bytes: &[u8]) -> (ip: Option<IpAddr>)
        ensures
            ip.is_some() <==> ip_readable(family, bytes@),
            ip.is_some() ==> ip_is(ip.unwrap(), family, bytes@),
    {
        if (family == AF_INET && bytes.len() >= 4) || (family == AF_INET6 && bytes.len() == 16) {
            Some(Self::ip_from_family_and_bytes(family, bytes))
        } else {
            None
        }
    }
}

/// The addresses that a run of messages starts with: the messages up to the
/// first that describes none.
pub open spec fn leading_addrs(messages: Seq<Seq<u8>>) -> Seq<Seq<u8>>
    decreases messages.len(),
{
    if messages.len() > 0 && is_addr_message(messages[0]) {
        seq![messages[0]] + leading_addrs(messages.drop_first())
    } else {
        Seq::empty()
    }
}

/// The addresses among the messages of a session, up to the first message that
/// describes none.
#[derive(Debug)]
pub struct AddrsIterator {
    iter: NetlinkBufIterator,
}

impl AddrsIterator {
    /// The session's reader.
    pub closed spec fn reader(&self) -> ReaderModel {
        self.iter.reader()
    }

    /// The chunks that the source still holds.
    pub closed spec fn pending(&self) -> Seq<Seq<u8>> {
        self.iter.pending()
    }

    /// The session was set up by `new` and driven by its own methods.
    pub closed spec fn wf(&self) -> bool {
        self.iter.wf()
    }

    /// The addresses of the session `iter`.
    pub fn new(iter: NetlinkBufIterator) -> (items: Self)
        requires
            iter.wf(),
        ensures
            items.wf(),
            items.reader() == iter.reader(),
            items.pending() == iter.pending(),
    {
        AddrsIterator { iter: iter }
    }

    /// What the session's next message describes; nothing if the session is
    /// over or the message is of another kind.
    pub fn next(&mut self) -> (item: Option<Addr>)
        requires
            old(self).wf(),
        ensures
            final(self).wf(),
            ({
                let (reader, pending, action) = read_model(old(self).reader(), old(self).pending());
                &&& final(self).reader() == reader
                &&& final(self).pending() == pending
                &&& match action {
                    ActionModel::Message(frame) => {
                        &&& item.is_some() <==> is_addr_message(frame)
                        &&& item.is_some() ==> item.unwrap()@ == frame
                    },
                    _ => item.is_none(),
                }
            }),
    {
        match self.iter.next() {
            Some(pkt) => Addr::from_packet(pkt),
            None => None,
        }
    }

    /// A well-formed session has a well-formed reader.
    pub proof fn lemma_wf_model(&self)
        requires
            self.wf(),
        ensures
            model_wf(self.reader()),
    {
        self.iter.lemma_wf_model();
    }

    /// All addresses that the session yields before a message of another
    /// kind or its end, in order.
    pub fn collect(self) -> (list: Vec<Addr>)
        requires
            self.wf(),
        ensures
            list@.len() == leading_addrs(
                session_transcript(self.reader(), self.pending()).messages,
            ).len(),
            forall|i: int|
                0 <= i < list@.len() ==> (#[trigger] list@[i])@ == leading_addrs(
                    session_transcript(self.reader(), self.pending()).messages,
                )[i],
    {
        let mut iter = self;
        let mut list: Vec<Addr> = Vec::new();
        let ghost all = leading_addrs(session_transcript(self.reader(), self.pending()).messages);
        loop
            invariant_except_break
                iter.wf(),
                list@.len() + leading_addrs(
                    session_transcript(iter.reader(), iter.pending()).messages,
                ).len() == all.len(),
                forall|i: int|
                    0 <= i < leading_addrs(
                        session_transcript(iter.reader(), iter.pending()).messages,
                    ).len() ==> #[trigger] leading_addrs(
                        session_transcript(iter.reader(), iter.pending()).messages,
                    )[i] == all[list@.len() + i],
            invariant
                all == leading_addrs(session_transcript(self.reader(), self.pending()).messages),
                forall|i: int| 0 <= i < list@.len() ==> (#[trigger] list@[i])@ == all[i],
            ensures
                list@.len() == all.len(),
                forall|i: int| 0 <= i < list@.len() ==> (#[trigger] list@[i])@ == all[i],
            decreases
                    iter.pending().len(),
                    iter.reader().buf.len() + 3 - iter.reader().cursor,
        {
            let ghost before = session_transcript(iter.reader(), iter.pending()).messages;
            proof {
                iter.lemma_wf_model();
                lemma_read_step(iter.reader(), iter.pending());
            }
            match iter.next() {
                Some(item) => {
                    proof {
                        let later = session_transcript(iter.reader(), iter.pending()).messages;
                        assert(before[0] == item@);
                        assert(before.drop_first() =~= later);
                        assert(is_addr_message(before[0]));
                        assert(leading_addrs(before) =~= seq![before[0]] + leading_addrs(later));
                        assert(leading_addrs(before)[0] == all[list@.len() as int]);
                        assert forall|i: int| 0 <= i < leading_addrs(later).len() implies #[trigger]
                            leading_addrs(later)[i] == all[list@.len() + 1 + i] by {
                            assert(leading_addrs(later)[i] == leading_addrs(before)[i + 1]);
                        }
                        iter.lemma_wf_model();
                    }
                    list.push(item);
                },
                None => {
                    proof {
                        if before.len() > 0 {
                            assert(!is_addr_message(before[0]));
                        }
                        assert(leading_addrs(before).len() == 0);
                    }
                    break ;
                },
            }
        }
        list
    }

    /// The last of the addresses that the session yields before a message of
    /// another kind or its end.
    pub fn last(self) -> (item: Option<Addr>)
        requires
            self.wf(),
        ensures
            match item {
                Some(found) => leading_addrs(
                    session_transcript(self.reader(), self.pending()).messages,
                ).len() > 0 && found@ == leading_addrs(
                    session_transcript(self.reader(), self.pending()).messages,
                ).last(),
                None => leading_addrs(
                    session_transcript(self.reader(), self.pending()).messages,
                ).len() == 0,
            },
    {
        let mut list = self.collect();
        list.pop()
    }
}

/// The fields of an address header, as numbers.
#[derive(Debug, Clone, Copy, PartialEq, Eq, Structural)]
pub struct IfAddrHeader {
    pub family: u8,
    pub prefix_len: u8,
    pub flags: u8,
    pub scope: u8,
    pub index: u32,
}

impl IfAddrHeader {
    /// The eight bytes that carry the fields.
    pub open spec fn bytes(self) -> Seq<u8> {
        ifaddr_header(self.family, self.prefix_len, self.flags, self.scope, self.index)
    }
}

/// The fields of the address header that starts `b`.
pub open spec fn header_of(b: Seq<u8>) -> IfAddrHeader {
    IfAddrHeader {
        family: ifa_family(b),
        prefix_len: ifa_prefix_len(b),
        flags: ifa_flags(b),
        scope: ifa_scope(b),
        index: ifa_index(b),
    }
}

/// The eight bytes of an address header with the given fields.
pub open spec fn ifaddr_header(family: u8, prefix_len: u8, flags: u8, scope: u8, index: u32) -> Seq<u8> {
    seq![family, prefix_len, flags, scope] + u32_bytes(index, endianness())
}

/// An address header and the attributes behind it, ready to be sent.
#[derive(Debug)]
pub struct IfAddrPacketBuf {
    data: Vec<u8>,
}

impl IfAddrPacketBuf {
    /// The bytes of the record.
    pub closed spec fn view(&self) -> Seq<u8> {
        self.data@
    }

    #[verifier::type_invariant]
    spec fn has_header(self) -> bool {
        self.data@.len() >= 8
    }

    /// A view of the record.
    pub fn get_packet(&self) -> (pkt: IfAddrPacket<'_>)
        ensures
            pkt@ == self@,
    {
        proof {
            use_type_invariant(self);
        }
        IfAddrPacket::new(self.data.as_slice()).unwrap()
    }
}

/// Builds an address header and the attributes behind it.
#[derive(Debug)]
pub struct IfAddrRequestBuilder {
    data: Vec<u8>,
}

impl IfAddrRequestBuilder {
    /// The bytes built so far.
    pub closed spec fn view(&self) -> Seq<u8> {
        self.data@
    }

    #[verifier::type_invariant]
    spec fn has_header(self) -> bool {
        self.data@.len() >= 8 && self.data@.len() % 4 == 0
    }

    /// What lies behind the header: the attributes appended so far.
    pub open spec fn attr_area(&self) -> Seq<u8> {
        self@.subrange(8, self@.len() as int)
    }

    /// A header of eight zero bytes and no attribute.
    pub fn new() -> (builder: Self)
        ensures
            builder@ == zeros(8),
            is_attr_run(builder.attr_area()),
    {
        let mut data: Vec<u8> = Vec::new();
        push_zeros(&mut data, 8);
        assert(data@ =~= zeros(8));
        assert(data@.subrange(8, 8) =~= Seq::<u8>::empty());
        IfAddrRequestBuilder { data: data }
    }

    /// Lets `f` change the header: `f` is handed the fields as they stand
    /// and gives back the fields to write. What follows the header stays.
    pub fn with_ifa<F: FnOnce(IfAddrHeader) -> IfAddrHeader>(self, f: F) -> (builder: Self)
        requires
            f.requires((header_of(self@),)),
        ensures
            exists|chosen: IfAddrHeader| #[trigger]
                f.ensures((header_of(self@),), chosen) && builder@ == chosen.bytes()
                    + self.attr_area(),
            builder@.len() == self@.len(),
            builder.attr_area() == self.attr_area(),
    {
        proof {
            use_type_invariant(&self);
        }
        let current = {
            let bytes = self.data.as_slice();
            IfAddrHeader {
                family: bytes[0],
                prefix_len: bytes[1],
                flags: bytes[2],
                scope: bytes[3],
                index: get_u32(bytes, 4),
            }
        };
        let chosen = f(current);
        let builder = self.with_header(chosen);
        assert(f.ensures((header_of(self@),), chosen));
        builder
    }

    /// Sets the fields of the header; what follows the header stays.
    pub fn with_header(self, header: IfAddrHeader) -> (builder: Self)
        ensures
            builder@ == header.bytes() + self.attr_area(),
            builder@.len() == self@.len(),
            builder.attr_area() == self.attr_area(),
    {
        proof {
            use_type_invariant(&self);
            lemma_u32_round_trip(header.index, endianness());
        }
        let mut data: Vec<u8> = Vec::new();
        data.push(header.family);
        data.push(header.prefix_len);
        data.push(header.flags);
        data.push(header.scope);
        push_u32(&mut data, header.index);
        let old = self.data;
        data.extend_from_slice(slice_subrange(old.as_slice(), 8, old.len()));
        assert(data@ =~= header.bytes() + self.attr_area());
        assert(data@.subrange(8, data@.len() as int) =~= self.attr_area());
        IfAddrRequestBuilder { data: data }
    }

    /// Appends the attribute, as far as its length field counts it, and
    /// pads it to the alignment boundary. The header and the attributes
    /// appended before stay as they are, and the buffer stays a multiple of
    /// four bytes long. A whole attribute appended behind whole attributes
    /// is read back behind them.
    pub fn append(self, rta: RtAttrPacket) -> (builder: Self)
        requires
            rta_len(rta@) <= rta@.len(),
        ensures
            builder@ == self@ + padded_attr(rta@),
            builder.attr_area() == self.attr_area() + padded_attr(rta@),
            self@.len() % 4 == 0,
            builder@.len() % 4 == 0,
            is_attr_run(self.attr_area()) && has_attr(rta@) ==> is_attr_run(builder.attr_area())
                && attrs(builder.attr_area()) == attrs(self.attr_area()) + seq![first_attr(rta@)],
    {
        proof {
            use_type_invariant(&self);
        }
        let mut data = self.data;
        let len = rta.get_rta_len() as usize;
        data.extend_from_slice(slice_subrange(rta.packet(), 0, len));
        let rem: usize = len % 4;
        let pad: usize = if rem == 0 {
            0
        } else {
            4 - rem
        };
        // add padding for alignment
        push_zeros(&mut data, pad);
        proof {
            assert(data@ =~= self@ + padded_attr(rta@));
            assert(data@.subrange(8, data@.len() as int) =~= self.attr_area() + padded_attr(
                rta@,
            ));
            if is_attr_run(self.attr_area()) && has_attr(rta@) {
                lemma_attr_run_append(self.attr_area(), rta@);
            }
        }
        IfAddrRequestBuilder { data: data }
    }

    /// The header and attributes as one record.
    pub fn build(self) -> (buf: IfAddrPacketBuf)
        ensures
            buf@ == self@,
            buf@.len() % 4 == 0,
    {
        proof {
            use_type_invariant(&self);
        }
        IfAddrPacketBuf { data: self.data }
    }
}

/// What the flag words used in requests come to.
proof fn lemma_request_flags()
    by (bit_vector)
    ensures
        0x300u16 & 0xf1f == 0x300,
        0x604u16 & 0xf1f == 0x604,
        0x400u16 | 0x200 | 0x4 == 0x604,
        0u8 & 0xff == 0,
{
}

/// The request that asks for all addresses of the given family; family zero
/// stands for any.
pub fn iter_addrs_request(family: u8) -> (req: NetlinkPacket<'static>)
    ensures
        req@ == request_bytes(RTM_GETADDR, 0x300, ifinfo_header(family, 0, 0, 0, 0)),
{
    proof {
        lemma_request_flags();
    }
    let ifi = ifinfo(family, 0, 0, 0, 0);
    request(RTM_GETADDR, NetlinkMsgFlags::NLM_F_DUMP, ifi.packet())
}

/// The record of the request that adds an address: the header, and the
/// address as the prefix address and as the local address.
pub open spec fn add_addr_record(link_index: u32, addr: u32, scope: u8) -> Seq<u8> {
    ifaddr_header(AF_INET, 32, 0, scope, link_index) + attr_bytes(
        IFA_ADDRESS,
        u32_bytes(addr, Endian::Big),
    ) + attr_bytes(IFA_LOCAL, u32_bytes(addr, Endian::Big))
}

/// The request that adds the IPv4 address `addr` to the link with the given
/// index.
pub fn add_addr_request(link_index: u32, addr: IpAddr, scope: Scope) -> (req: NetlinkPacket<'static>)
    requires
        addr is V4,
    ensures
        req@ == request_bytes(
            RTM_NEWADDR,
            0x604,
            add_addr_record(link_index, addr->V4_0, scope.number()),
        ),
{
    let family = addr.family();
    let prefix_len: u8 = 32;
    let octets = addr.bytes();
    proof {
        lemma_request_flags();
        lemma_u32_round_trip(addr->V4_0, Endian::Big);
        lemma_attr_round_trip(IFA_ADDRESS, octets@);
        lemma_attr_round_trip(IFA_LOCAL, octets@);
    }
    let ghost first = attr_bytes(IFA_ADDRESS, octets@);
    let ghost second = attr_bytes(IFA_LOCAL, octets@);
    let scope_number = scope.value();
    let set_fields = |ifaddr: IfAddrHeader| -> (out: IfAddrHeader)
        ensures
            out.family == family,
            out.prefix_len == prefix_len,
            out.flags == ifaddr.flags,
            out.scope == scope_number,
            out.index == link_index,
        {
            let mut out = ifaddr;
            out.index = link_index;
            out.family = family;
            out.scope = scope_number;
            out.prefix_len = prefix_len;
            out
        };
    let header = IfAddrRequestBuilder::new().with_ifa(set_fields);
    assert(header@ =~= ifaddr_header(AF_INET, 32, 0, scope.number(), link_index)) by {
        assert(zeros(8)[2] == 0u8);
        assert(zeros(8).subrange(8, 8) =~= Seq::<u8>::empty());
    }
    let with_address = header.append(RtAttrPacket::build(IFA_ADDRESS, octets.as_slice()));
    assert(padded_attr(first) =~= first);
    let with_both = with_address.append(RtAttrPacket::build(IFA_LOCAL, octets.as_slice()));
    assert(padded_attr(second) =~= second);
    let record = with_both.build();
    request(
        RTM_NEWADDR,
        NetlinkMsgFlags::NLM_F_CREATE | NetlinkMsgFlags::NLM_F_EXCL | NetlinkMsgFlags::NLM_F_ACK,
        record.get_packet().packet(),
    )
}

} // verus!
