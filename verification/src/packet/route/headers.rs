//! The fixed headers of the route family's messages and of some of its
//! attributes' payloads, as views over bytes.
use crate::packet::{copy_range, PacketData};
use crate::wire::{get_u16, get_u32, u16_at, u32_at};
use vstd::prelude::*;
use vstd::slice::slice_subrange;

verus! {

/// Size of the header of a link message.
pub const IFI_HDRLEN: usize = 16;

/// Address family of the header that starts `b`.
pub open spec fn ifi_family(b: Seq<u8>) -> u8 {
    b[0]
}

/// Device type of the header that starts `b`.
pub open spec fn ifi_type_(b: Seq<u8>) -> u16 {
    u16_at(b, 2)
}

/// Interface index of the header that starts `b`.
pub open spec fn ifi_index(b: Seq<u8>) -> u32 {
    u32_at(b, 4)
}

/// Device flags of the header that starts `b`.
pub open spec fn ifi_flags(b: Seq<u8>) -> u32 {
    u32_at(b, 8)
}

/// Change mask of the header that starts `b`.
pub open spec fn ifi_change(b: Seq<u8>) -> u32 {
    u32_at(b, 12)
}

/// The header of a link message: family, device type, index, flags and change mask.
#[derive(Debug)]
pub struct IfInfoPacket<'a> {
    packet: PacketData<'a>,
}

impl<'a> IfInfoPacket<'a> {
    /// The bytes of the record, header first.
    pub closed spec fn view(&self) -> Seq<u8> {
        self.packet@
    }

    #[verifier::type_invariant]
    spec fn has_header(self) -> bool {
        self.packet@.len() >= 16
    }

    /// Size of the header: the least such a record can be.
    pub fn minimum_packet_size() -> (n: usize)
        ensures
            n == 16,
    {
        IFI_HDRLEN
    }

    /// A view of `buf`, if `buf` can hold the header.
    pub fn new(buf: &'a [u8]) -> (pkt: Option<IfInfoPacket<'a>>)
        ensures
            pkt.is_some() <==> buf@.len() >= 16,
            pkt.is_some() ==> pkt.unwrap()@ == buf@,
    {
        if buf.len() >= IFI_HDRLEN {
            Some(IfInfoPacket { packet: PacketData::Borrowed(buf) })
        } else {
            None
        }
    }

    /// A record that owns `buf`, if `buf` can hold the header.
    pub fn owned(buf: Vec<u8>) -> (pkt: Option<IfInfoPacket<'static>>)
        ensures
            pkt.is_some() <==> buf@.len() >= 16,
            pkt.is_some() ==> pkt.unwrap()@ == buf@,
    {
        if buf.len() >= IFI_HDRLEN {
            Some(IfInfoPacket { packet: PacketData::Owned(buf) })
        } else {
            None
        }
    }

    /// A copy of this record that owns its bytes.
    pub fn to_owned(&self) -> (pkt: IfInfoPacket<'static>)
        ensures
            pkt@ == self@,
    {
        proof {
            use_type_invariant(self);
        }
        let s = self.packet.as_slice();
        let v = copy_range(s, 0, s.len());
        assert(v@ =~= self@);
        IfInfoPacket { packet: PacketData::Owned(v) }
    }

    /// All bytes of the record.
    pub fn packet(&self) -> (bytes: &[u8])
        ensures
            bytes@ == self@,
            bytes@.len() >= 16,
    {
        proof {
            use_type_invariant(self);
        }
        self.packet.as_slice()
    }

    /// Number of bytes held.
    pub fn packet_size(&self) -> (n: usize)
        ensures
            n == self@.len(),
            n >= 16,
    {
        proof {
            use_type_invariant(self);
        }
        self.packet.len()
    }

    /// Address family.
    pub fn get_family(&self) -> (v: u8)
        ensures
            v == ifi_family(self@),
    {
        proof {
            use_type_invariant(self);
        }
        self.packet.as_slice()[0]
    }

    /// Device type.
    pub fn get_type_(&self) -> (v: u16)
        ensures
            v == ifi_type_(self@),
    {
        proof {
            use_type_invariant(self);
        }
        get_u16(self.packet.as_slice(), 2)
    }

    /// Interface index.
    pub fn get_index(&self) -> (v: u32)
        ensures
            v == ifi_index(self@),
    {
        proof {
            use_type_invariant(self);
        }
        get_u32(self.packet.as_slice(), 4)
    }

    /// Device flags.
    pub fn get_flags(&self) -> (v: u32)
        ensures
            v == ifi_flags(self@),
    {
        proof {
            use_type_invariant(self);
        }
        get_u32(self.packet.as_slice(), 8)
    }

    /// Change mask.
    pub fn get_change(&self) -> (v: u32)
        ensures
            v == ifi_change(self@),
    {
        proof {
            use_type_invariant(self);
        }
        get_u32(self.packet.as_slice(), 12)
    }

    /// The attributes that follow the header.
    pub fn payload(&self) -> (p: &[u8])
        ensures
            p@ == self@.subrange(16, self@.len() as int),
    {
        proof {
            use_type_invariant(self);
        }
        let s = self.packet.as_slice();
        slice_subrange(s, 16, s.len())
    }

}

/// Size of the header of an address message.
pub const IFA_HDRLEN: usize = 8;

/// Address family of the header that starts `b`.
pub open spec fn ifa_family(b: Seq<u8>) -> u8 {
    b[0]
}

/// Prefix length of the header that starts `b`.
pub open spec fn ifa_prefix_len(b: Seq<u8>) -> u8 {
    b[1]
}

/// Address flags of the header that starts `b`.
pub open spec fn ifa_flags(b: Seq<u8>) -> u8 {
    b[2]
}

/// Address scope of the header that starts `b`.
pub open spec fn ifa_scope(b: Seq<u8>) -> u8 {
    b[3]
}

/// Interface index of the header that starts `b`.
pub open spec fn ifa_index(b: Seq<u8>) -> u32 {
    u32_at(b, 4)
}

/// The header of an address message: family, prefix length, flags, scope and interface index.
#[derive(Debug)]
pub struct IfAddrPacket<'a> {
    packet: PacketData<'a>,
}

impl<'a> IfAddrPacket<'a> {
    /// The bytes of the record, header first.
    pub closed spec fn view(&self) -> Seq<u8> {
        self.packet@
    }

    #[verifier::type_invariant]
    spec fn has_header(self) -> bool {
        self.packet@.len() >= 8
    }

    /// Size of the header: the least such a record can be.
    pub fn minimum_packet_size() -> (n: usize)
        ensures
            n == 8,
    {
        IFA_HDRLEN
    }

    /// A view of `buf`, if `buf` can hold the header.
    pub fn new(buf: &'a [u8]) -> (pkt: Option<IfAddrPacket<'a>>)
        ensures
            pkt.is_some() <==> buf@.len() >= 8,
            pkt.is_some() ==> pkt.unwrap()@ == buf@,
    {
        if buf.len() >= IFA_HDRLEN {
            Some(IfAddrPacket { packet: PacketData::Borrowed(buf) })
        } else {
            None
        }
    }

    /// A record that owns `buf`, if `buf` can hold the header.
    pub fn owned(buf: Vec<u8>) -> (pkt: Option<IfAddrPacket<'static>>)
        ensures
            pkt.is_some() <==> buf@.len() >= 8,
            pkt.is_some() ==> pkt.unwrap()@ == buf@,
    {
        if buf.len() >= IFA_HDRLEN {
            Some(IfAddrPacket { packet: PacketData::Owned(buf) })
        } else {
            None
        }
    }

    /// A copy of this record that owns its bytes.
    pub fn to_owned(&self) -> (pkt: IfAddrPacket<'static>)
        ensures
            pkt@ == self@,
    {
        proof {
            use_type_invariant(self);
        }
        let s = self.packet.as_slice();
        let v = copy_range(s, 0, s.len());
        assert(v@ =~= self@);
        IfAddrPacket { packet: PacketData::Owned(v) }
    }

    /// All bytes of the record.
    pub fn packet(&self) -> (bytes: &[u8])
        ensures
            bytes@ == self@,
            bytes@.len() >= 8,
    {
        proof {
            use_type_invariant(self);
        }
        self.packet.as_slice()
    }

    /// Number of bytes held.
    pub fn packet_size(&self) -> (n: usize)
        ensures
            n == self@.len(),
            n >= 8,
    {
        proof {
            use_type_invariant(self);
        }
        self.packet.len()
    }

    /// Address family.
    pub fn get_family(&self) -> (v: u8)
        ensures
            v == ifa_family(self@),
    {
        proof {
            use_type_invariant(self);
        }
        self.packet.as_slice()[0]
    }

    /// Prefix length.
    pub fn get_prefix_len(&self) -> (v: u8)
        ensures
            v == ifa_prefix_len(self@),
    {
        proof {
            use_type_invariant(self);
        }
        self.packet.as_slice()[1]
    }

    /// Address flags.
    pub fn get_flags(&self) -> (v: u8)
        ensures
            v == ifa_flags(self@),
    {
        proof {
            use_type_invariant(self);
        }
        self.packet.as_slice()[2]
    }

    /// Address scope.
    pub fn get_scope(&self) -> (v: u8)
        ensures
            v == ifa_scope(self@),
    {
        proof {
            use_type_invariant(self);
        }
        self.packet.as_slice()[3]
    }

    /// Interface index.
    pub fn get_index(&self) -> (v: u32)
        ensures
            v == ifa_index(self@),
    {
        proof {
            use_type_invariant(self);
        }
        get_u32(self.packet.as_slice(), 4)
    }

    /// The attributes that follow the header.
    pub fn payload(&self) -> (p: &[u8])
        ensures
            p@ == self@.subrange(8, self@.len() as int),
    {
        proof {
            use_type_invariant(self);
        }
        let s = self.packet.as_slice();
        slice_subrange(s, 8, s.len())
    }

}

/// Size of the header of a neighbour message.
pub const NDM_HDRLEN: usize = 12;

/// Address family of the header that starts `b`.
pub open spec fn ndm_family(b: Seq<u8>) -> u8 {
    b[0]
}

/// Interface index of the header that starts `b`.
pub open spec fn ndm_ifindex(b: Seq<u8>) -> u32 {
    u32_at(b, 4)
}

/// Neighbour state of the header that starts `b`.
pub open spec fn ndm_state(b: Seq<u8>) -> u16 {
    u16_at(b, 8)
}

/// Neighbour flags of the header that starts `b`.
pub open spec fn ndm_flags(b: Seq<u8>) -> u8 {
    b[10]
}

/// Neighbour type of the header that starts `b`.
pub open spec fn ndm_type_(b: Seq<u8>) -> u8 {
    b[11]
}

/// The header of a neighbour message: family, interface index, state, flags and type.
#[derive(Debug)]
pub struct NeighbourDiscoveryPacket<'a> {
    packet: PacketData<'a>,
}

impl<'a> NeighbourDiscoveryPacket<'a> {
    /// The bytes of the record, header first.
    pub closed spec fn view(&self) -> Seq<u8> {
        self.packet@
    }

    #[verifier::type_invariant]
    spec fn has_header(self) -> bool {
        self.packet@.len() >= 12
    }

    /// Size of the header: the least such a record can be.
    pub fn minimum_packet_size() -> (n: usize)
        ensures
            n == 12,
    {
        NDM_HDRLEN
    }

    /// A view of `buf`, if `buf` can hold the header.
    pub fn new(buf: &'a [u8]) -> (pkt: Option<NeighbourDiscoveryPacket<'a>>)
        ensures
            pkt.is_some() <==> buf@.len() >= 12,
            pkt.is_some() ==> pkt.unwrap()@ == buf@,
    {
        if buf.len() >= NDM_HDRLEN {
            Some(NeighbourDiscoveryPacket { packet: PacketData::Borrowed(buf) })
        } else {
            None
        }
    }

    /// A record that owns `buf`, if `buf` can hold the header.
    pub fn owned(buf: Vec<u8>) -> (pkt: Option<NeighbourDiscoveryPacket<'static>>)
        ensures
            pkt.is_some() <==> buf@.len() >= 12,
            pkt.is_some() ==> pkt.unwrap()@ == buf@,
    {
        if buf.len() >= NDM_HDRLEN {
            Some(NeighbourDiscoveryPacket { packet: PacketData::Owned(buf) })
        } else {
            None
        }
    }

    /// A copy of this record that owns its bytes.
    pub fn to_owned(&self) -> (pkt: NeighbourDiscoveryPacket<'static>)
        ensures
            pkt@ == self@,
    {
        proof {
            use_type_invariant(self);
        }
        let s = self.packet.as_slice();
        let v = copy_range(s, 0, s.len());
        assert(v@ =~= self@);
        NeighbourDiscoveryPacket { packet: PacketData::Owned(v) }
    }

    /// All bytes of the record.
    pub fn packet(&self) -> (bytes: &[u8])
        ensures
            bytes@ == self@,
            bytes@.len() >= 12,
    {
        proof {
            use_type_invariant(self);
        }
        self.packet.as_slice()
    }

    /// Number of bytes held.
    pub fn packet_size(&self) -> (n: usize)
        ensures
            n == self@.len(),
            n >= 12,
    {
        proof {
            use_type_invariant(self);
        }
        self.packet.len()
    }

    /// Address family.
    pub fn get_family(&self) -> (v: u8)
        ensures
            v == ndm_family(self@),
    {
        proof {
            use_type_invariant(self);
        }
        self.packet.as_slice()[0]
    }

    /// Interface index.
    pub fn get_ifindex(&self) -> (v: u32)
        ensures
            v == ndm_ifindex(self@),
    {
        proof {
            use_type_invariant(self);
        }
        get_u32(self.packet.as_slice(), 4)
    }

    /// Neighbour state.
    pub fn get_state(&self) -> (v: u16)
        ensures
            v == ndm_state(self@),
    {
        proof {
            use_type_invariant(self);
        }
        get_u16(self.packet.as_slice(), 8)
    }

    /// Neighbour flags.
    pub fn get_flags(&self) -> (v: u8)
        ensures
            v == ndm_flags(self@),
    {
        proof {
            use_type_invariant(self);
        }
        self.packet.as_slice()[10]
    }

    /// Neighbour type.
    pub fn get_type_(&self) -> (v: u8)
        ensures
            v == ndm_type_(self@),
    {
        proof {
            use_type_invariant(self);
        }
        self.packet.as_slice()[11]
    }

    /// The attributes that follow the header.
    pub fn payload(&self) -> (p: &[u8])
        ensures
            p@ == self@.subrange(12, self@.len() as int),
    {
        proof {
            use_type_invariant(self);
        }
        let s = self.packet.as_slice();
        slice_subrange(s, 12, s.len())
    }

}

/// Size of the header of a route message.
pub const RTM_HDRLEN: usize = 12;

/// Address family of the header that starts `b`.
pub open spec fn rtm_family(b: Seq<u8>) -> u8 {
    b[0]
}

/// Length of the destination prefix of the header that starts `b`.
pub open spec fn rtm_dst_len(b: Seq<u8>) -> u8 {
    b[1]
}

/// Length of the source prefix of the header that starts `b`.
pub open spec fn rtm_src_len(b: Seq<u8>) -> u8 {
    b[2]
}

/// Type-of-service filter of the header that starts `b`.
pub open spec fn rtm_tos(b: Seq<u8>) -> u8 {
    b[3]
}

/// Routing table id of the header that starts `b`.
pub open spec fn rtm_table(b: Seq<u8>) -> u8 {
    b[4]
}

/// Routing protocol of the header that starts `b`.
pub open spec fn rtm_protocol(b: Seq<u8>) -> u8 {
    b[5]
}

/// Route scope of the header that starts `b`.
pub open spec fn rtm_scope(b: Seq<u8>) -> u8 {
    b[6]
}

/// Route type of the header that starts `b`.
pub open spec fn rtm_rtype(b: Seq<u8>) -> u8 {
    b[7]
}

/// Route flags of the header that starts `b`.
pub open spec fn rtm_flags(b: Seq<u8>) -> u32 {
    u32_at(b, 8)
}

/// The header of a route message.
#[derive(Debug)]
pub struct RtMsgPacket<'a> {
    packet: PacketData<'a>,
}

impl<'a> RtMsgPacket<'a> {
    /// The bytes of the record, header first.
    pub closed spec fn view(&self) -> Seq<u8> {
        self.packet@
    }

    #[verifier::type_invariant]
    spec fn has_header(self) -> bool {
        self.packet@.len() >= 12
    }

    /// Size of the header: the least such a record can be.
    pub fn minimum_packet_size() -> (n: usize)
        ensures
            n == 12,
    {
        RTM_HDRLEN
    }

    /// A view of `buf`, if `buf` can hold the header.
    pub fn new(buf: &'a [u8]) -> (pkt: Option<RtMsgPacket<'a>>)
        ensures
            pkt.is_some() <==> buf@.len() >= 12,
            pkt.is_some() ==> pkt.unwrap()@ == buf@,
    {
        if buf.len() >= RTM_HDRLEN {
            Some(RtMsgPacket { packet: PacketData::Borrowed(buf) })
        } else {
            None
        }
    }

    /// A record that owns `buf`, if `buf` can hold the header.
    pub fn owned(buf: Vec<u8>) -> (pkt: Option<RtMsgPacket<'static>>)
        ensures
            pkt.is_some() <==> buf@.len() >= 12,
            pkt.is_some() ==> pkt.unwrap()@ == buf@,
    {
        if buf.len() >= RTM_HDRLEN {
            Some(RtMsgPacket { packet: PacketData::Owned(buf) })
        } else {
            None
        }
    }

    /// A copy of this record that owns its bytes.
    pub fn to_owned(&self) -> (pkt: RtMsgPacket<'static>)
        ensures
            pkt@ == self@,
    {
        proof {
            use_type_invariant(self);
        }
        let s = self.packet.as_slice();
        let v = copy_range(s, 0, s.len());
        assert(v@ =~= self@);
        RtMsgPacket { packet: PacketData::Owned(v) }
    }

    /// All bytes of the record.
    pub fn packet(&self) -> (bytes: &[u8])
        ensures
            bytes@ == self@,
            bytes@.len() >= 12,
    {
        proof {
            use_type_invariant(self);
        }
        self.packet.as_slice()
    }

    /// Number of bytes held.
    pub fn packet_size(&self) -> (n: usize)
        ensures
            n == self@.len(),
            n >= 12,
    {
        proof {
            use_type_invariant(self);
        }
        self.packet.len()
    }

    /// Address family.
    pub fn get_family(&self) -> (v: u8)
        ensures
            v == rtm_family(self@),
    {
        proof {
            use_type_invariant(self);
        }
        self.packet.as_slice()[0]
    }

    /// Length of the destination prefix.
    pub fn get_dst_len(&self) -> (v: u8)
        ensures
            v == rtm_dst_len(self@),
    {
        proof {
            use_type_invariant(self);
        }
        self.packet.as_slice()[1]
    }

    /// Length of the source prefix.
    pub fn get_src_len(&self) -> (v: u8)
        ensures
            v == rtm_src_len(self@),
    {
        proof {
            use_type_invariant(self);
        }
        self.packet.as_slice()[2]
    }

    /// Type-of-service filter.
    pub fn get_tos(&self) -> (v: u8)
        ensures
            v == rtm_tos(self@),
    {
        proof {
            use_type_invariant(self);
        }
        self.packet.as_slice()[3]
    }

    /// Routing table id.
    pub fn get_table(&self) -> (v: u8)
        ensures
            v == rtm_table(self@),
    {
        proof {
            use_type_invariant(self);
        }
        self.packet.as_slice()[4]
    }

    /// Routing protocol.
    pub fn get_protocol(&self) -> (v: u8)
        ensures
            v == rtm_protocol(self@),
    {
        proof {
            use_type_invariant(self);
        }
        self.packet.as_slice()[5]
    }

    /// Route scope.
    pub fn get_scope(&self) -> (v: u8)
        ensures
            v == rtm_scope(self@),
    {
        proof {
            use_type_invariant(self);
        }
        self.packet.as_slice()[6]
    }

    /// Route type.
    pub fn get_rtype(&self) -> (v: u8)
        ensures
            v == rtm_rtype(self@),
    {
        proof {
            use_type_invariant(self);
        }
        self.packet.as_slice()[7]
    }

    /// Route flags.
    pub fn get_flags(&self) -> (v: u32)
        ensures
            v == rtm_flags(self@),
    {
        proof {
            use_type_invariant(self);
        }
        get_u32(self.packet.as_slice(), 8)
    }

    /// The attributes that follow the header.
    pub fn payload(&self) -> (p: &[u8])
        ensures
            p@ == self@.subrange(12, self@.len() as int),
    {
        proof {
            use_type_invariant(self);
        }
        let s = self.packet.as_slice();
        slice_subrange(s, 12, s.len())
    }

}

/// Size of the header of a routing-rule message.
pub const FRH_HDRLEN: usize = 12;

/// Address family of the header that starts `b`.
pub open spec fn frh_family(b: Seq<u8>) -> u8 {
    b[0]
}

/// Length of the destination prefix of the header that starts `b`.
pub open spec fn frh_dst_len(b: Seq<u8>) -> u8 {
    b[1]
}

/// Length of the source prefix of the header that starts `b`.
pub open spec fn frh_src_len(b: Seq<u8>) -> u8 {
    b[2]
}

/// Type-of-service filter of the header that starts `b`.
pub open spec fn frh_tos(b: Seq<u8>) -> u8 {
    b[3]
}

/// Routing table id of the header that starts `b`.
pub open spec fn frh_table(b: Seq<u8>) -> u8 {
    b[4]
}

/// Rule action of the header that starts `b`.
pub open spec fn frh_action(b: Seq<u8>) -> u8 {
    b[7]
}

/// Rule flags of the header that starts `b`.
pub open spec fn frh_flags(b: Seq<u8>) -> u32 {
    u32_at(b, 8)
}

/// The header of a routing-rule message.
#[derive(Debug)]
pub struct FibRulePacket<'a> {
    packet: PacketData<'a>,
}

impl<'a> FibRulePacket<'a> {
    /// The bytes of the record, header first.
    pub closed spec fn view(&self) -> Seq<u8> {
        self.packet@
    }

    #[verifier::type_invariant]
    spec fn has_header(self) -> bool {
        self.packet@.len() >= 12
    }

    /// Size of the header: the least such a record can be.
    pub fn minimum_packet_size() -> (n: usize)
        ensures
            n == 12,
    {
        FRH_HDRLEN
    }

    /// A view of `buf`, if `buf` can hold the header.
    pub fn new(buf: &'a [u8]) -> (pkt: Option<FibRulePacket<'a>>)
        ensures
            pkt.is_some() <==> buf@.len() >= 12,
            pkt.is_some() ==> pkt.unwrap()@ == buf@,
    {
        if buf.len() >= FRH_HDRLEN {
            Some(FibRulePacket { packet: PacketData::Borrowed(buf) })
        } else {
            None
        }
    }

    /// A record that owns `buf`, if `buf` can hold the header.
    pub fn owned(buf: Vec<u8>) -> (pkt: Option<FibRulePacket<'static>>)
        ensures
            pkt.is_some() <==> buf@.len() >= 12,
            pkt.is_some() ==> pkt.unwrap()@ == buf@,
    {
        if buf.len() >= FRH_HDRLEN {
            Some(FibRulePacket { packet: PacketData::Owned(buf) })
        } else {
            None
        }
    }

    /// A copy of this record that owns its bytes.
    pub fn to_owned(&self) -> (pkt: FibRulePacket<'static>)
        ensures
            pkt@ == self@,
    {
        proof {
            use_type_invariant(self);
        }
        let s = self.packet.as_slice();
        let v = copy_range(s, 0, s.len());
        assert(v@ =~= self@);
        FibRulePacket { packet: PacketData::Owned(v) }
    }

    /// All bytes of the record.
    pub fn packet(&self) -> (bytes: &[u8])
        ensures
            bytes@ == self@,
            bytes@.len() >= 12,
    {
        proof {
            use_type_invariant(self);
        }
        self.packet.as_slice()
    }

    /// Number of bytes held.
    pub fn packet_size(&self) -> (n: usize)
        ensures
            n == self@.len(),
            n >= 12,
    {
        proof {
            use_type_invariant(self);
        }
        self.packet.len()
    }

    /// Address family.
    pub fn get_family(&self) -> (v: u8)
        ensures
            v == frh_family(self@),
    {
        proof {
            use_type_invariant(self);
        }
        self.packet.as_slice()[0]
    }

    /// Length of the destination prefix.
    pub fn get_dst_len(&self) -> (v: u8)
        ensures
            v == frh_dst_len(self@),
    {
        proof {
            use_type_invariant(self);
        }
        self.packet.as_slice()[1]
    }

    /// Length of the source prefix.
    pub fn get_src_len(&self) -> (v: u8)
        ensures
            v == frh_src_len(self@),
    {
        proof {
            use_type_invariant(self);
        }
        self.packet.as_slice()[2]
    }

    /// Type-of-service filter.
    pub fn get_tos(&self) -> (v: u8)
        ensures
            v == frh_tos(self@),
    {
        proof {
            use_type_invariant(self);
        }
        self.packet.as_slice()[3]
    }

    /// Routing table id.
    pub fn get_table(&self) -> (v: u8)
        ensures
            v == frh_table(self@),
    {
        proof {
            use_type_invariant(self);
        }
        self.packet.as_slice()[4]
    }

    /// Rule action.
    pub fn get_action(&self) -> (v: u8)
        ensures
            v == frh_action(self@),
    {
        proof {
            use_type_invariant(self);
        }
        self.packet.as_slice()[7]
    }

    /// Rule flags.
    pub fn get_flags(&self) -> (v: u32)
        ensures
            v == frh_flags(self@),
    {
        proof {
            use_type_invariant(self);
        }
        get_u32(self.packet.as_slice(), 8)
    }

    /// The attributes that follow the header.
    pub fn payload(&self) -> (p: &[u8])
        ensures
            p@ == self@.subrange(12, self@.len() as int),
    {
        proof {
            use_type_invariant(self);
        }
        let s = self.packet.as_slice();
        slice_subrange(s, 12, s.len())
    }

}

/// Size of an MTU attribute, header and number.
pub const MTU_HDRLEN: usize = 8;

/// Attribute length of the header that starts `b`.
pub open spec fn mtu_rta_len(b: Seq<u8>) -> u16 {
    u16_at(b, 0)
}

/// Attribute type of the header that starts `b`.
pub open spec fn mtu_rta_type(b: Seq<u8>) -> u16 {
    u16_at(b, 2)
}

/// Maximum transmission unit of the header that starts `b`.
pub open spec fn mtu_mtu(b: Seq<u8>) -> u32 {
    u32_at(b, 4)
}

/// An attribute whose payload is one number, the MTU.
#[derive(Debug)]
pub struct RtAttrMtuPacket<'a> {
    packet: PacketData<'a>,
}

impl<'a> RtAttrMtuPacket<'a> {
    /// The bytes of the record, header first.
    pub closed spec fn view(&self) -> Seq<u8> {
        self.packet@
    }

    #[verifier::type_invariant]
    spec fn has_header(self) -> bool {
        self.packet@.len() >= 8
    }

    /// Size of the header: the least such a record can be.
    pub fn minimum_packet_size() -> (n: usize)
        ensures
            n == 8,
    {
        MTU_HDRLEN
    }

    /// A view of `buf`, if `buf` can hold the header.
    pub fn new(buf: &'a [u8]) -> (pkt: Option<RtAttrMtuPacket<'a>>)
        ensures
            pkt.is_some() <==> buf@.len() >= 8,
            pkt.is_some() ==> pkt.unwrap()@ == buf@,
    {
        if buf.len() >= MTU_HDRLEN {
            Some(RtAttrMtuPacket { packet: PacketData::Borrowed(buf) })
        } else {
            None
        }
    }

    /// A record that owns `buf`, if `buf` can hold the header.
    pub fn owned(buf: Vec<u8>) -> (pkt: Option<RtAttrMtuPacket<'static>>)
        ensures
            pkt.is_some() <==> buf@.len() >= 8,
            pkt.is_some() ==> pkt.unwrap()@ == buf@,
    {
        if buf.len() >= MTU_HDRLEN {
            Some(RtAttrMtuPacket { packet: PacketData::Owned(buf) })
        } else {
            None
        }
    }

    /// A copy of this record that owns its bytes.
    pub fn to_owned(&self) -> (pkt: RtAttrMtuPacket<'static>)
        ensures
            pkt@ == self@,
    {
        proof {
            use_type_invariant(self);
        }
        let s = self.packet.as_slice();
        let v = copy_range(s, 0, s.len());
        assert(v@ =~= self@);
        RtAttrMtuPacket { packet: PacketData::Owned(v) }
    }

    /// All bytes of the record.
    pub fn packet(&self) -> (bytes: &[u8])
        ensures
            bytes@ == self@,
            bytes@.len() >= 8,
    {
        proof {
            use_type_invariant(self);
        }
        self.packet.as_slice()
    }

    /// Number of bytes held.
    pub fn packet_size(&self) -> (n: usize)
        ensures
            n == self@.len(),
            n >= 8,
    {
        proof {
            use_type_invariant(self);
        }
        self.packet.len()
    }

    /// Attribute length.
    pub fn get_rta_len(&self) -> (v: u16)
        ensures
            v == mtu_rta_len(self@),
    {
        proof {
            use_type_invariant(self);
        }
        get_u16(self.packet.as_slice(), 0)
    }

    /// Attribute type.
    pub fn get_rta_type(&self) -> (v: u16)
        ensures
            v == mtu_rta_type(self@),
    {
        proof {
            use_type_invariant(self);
        }
        get_u16(self.packet.as_slice(), 2)
    }

    /// Maximum transmission unit.
    pub fn get_mtu(&self) -> (v: u32)
        ensures
            v == mtu_mtu(self@),
    {
        proof {
            use_type_invariant(self);
        }
        get_u32(self.packet.as_slice(), 4)
    }

}

/// Size of the payload of an address cache-info attribute.
pub const IFACI_HDRLEN: usize = 16;

/// Preferred lifetime of the header that starts `b`.
pub open spec fn ifaci_ifa_prefered(b: Seq<u8>) -> u32 {
    u32_at(b, 0)
}

/// Valid lifetime of the header that starts `b`.
pub open spec fn ifaci_ifa_valid(b: Seq<u8>) -> u32 {
    u32_at(b, 4)
}

/// Creation timestamp of the header that starts `b`.
pub open spec fn ifaci_created(b: Seq<u8>) -> u32 {
    u32_at(b, 8)
}

/// Update timestamp of the header that starts `b`.
pub open spec fn ifaci_updated(b: Seq<u8>) -> u32 {
    u32_at(b, 12)
}

/// The payload of an address cache-info attribute.
#[derive(Debug)]
pub struct IfAddrCacheInfoPacket<'a> {
    packet: PacketData<'a>,
}

impl<'a> IfAddrCacheInfoPacket<'a> {
    /// The bytes of the record, header first.
    pub closed spec fn view(&self) -> Seq<u8> {
        self.packet@
    }

    #[verifier::type_invariant]
    spec fn has_header(self) -> bool {
        self.packet@.len() >= 16
    }

    /// Size of the header: the least such a record can be.
    pub fn minimum_packet_size() -> (n: usize)
        ensures
            n == 16,
    {
        IFACI_HDRLEN
    }

    /// A view of `buf`, if `buf` can hold the header.
    pub fn new(buf: &'a [u8]) -> (pkt: Option<IfAddrCacheInfoPacket<'a>>)
        ensures
            pkt.is_some() <==> buf@.len() >= 16,
            pkt.is_some() ==> pkt.unwrap()@ == buf@,
    {
        if buf.len() >= IFACI_HDRLEN {
            Some(IfAddrCacheInfoPacket { packet: PacketData::Borrowed(buf) })
        } else {
            None
        }
    }

    /// A record that owns `buf`, if `buf` can hold the header.
    pub fn owned(buf: Vec<u8>) -> (pkt: Option<IfAddrCacheInfoPacket<'static>>)
        ensures
            pkt.is_some() <==> buf@.len() >= 16,
            pkt.is_some() ==> pkt.unwrap()@ == buf@,
    {
        if buf.len() >= IFACI_HDRLEN {
            Some(IfAddrCacheInfoPacket { packet: PacketData::Owned(buf) })
        } else {
            None
        }
    }

    /// A copy of this record that owns its bytes.
    pub fn to_owned(&self) -> (pkt: IfAddrCacheInfoPacket<'static>)
        ensures
            pkt@ == self@,
    {
        proof {
            use_type_invariant(self);
        }
        let s = self.packet.as_slice();
        let v = copy_range(s, 0, s.len());
        assert(v@ =~= self@);
        IfAddrCacheInfoPacket { packet: PacketData::Owned(v) }
    }

    /// All bytes of the record.
    pub fn packet(&self) -> (bytes: &[u8])
        ensures
            bytes@ == self@,
            bytes@.len() >= 16,
    {
        proof {
            use_type_invariant(self);
        }
        self.packet.as_slice()
    }

    /// Number of bytes held.
    pub fn packet_size(&self) -> (n: usize)
        ensures
            n == self@.len(),
            n >= 16,
    {
        proof {
            use_type_invariant(self);
        }
        self.packet.len()
    }

    /// Preferred lifetime.
    pub fn get_ifa_prefered(&self) -> (v: u32)
        ensures
            v == ifaci_ifa_prefered(self@),
    {
        proof {
            use_type_invariant(self);
        }
        get_u32(self.packet.as_slice(), 0)
    }

    /// Valid lifetime.
    pub fn get_ifa_valid(&self) -> (v: u32)
        ensures
            v == ifaci_ifa_valid(self@),
    {
        proof {
            use_type_invariant(self);
        }
        get_u32(self.packet.as_slice(), 4)
    }

    /// Creation timestamp.
    pub fn get_created(&self) -> (v: u32)
        ensures
            v == ifaci_created(self@),
    {
        proof {
            use_type_invariant(self);
        }
        get_u32(self.packet.as_slice(), 8)
    }

    /// Update timestamp.
    pub fn get_updated(&self) -> (v: u32)
        ensures
            v == ifaci_updated(self@),
    {
        proof {
            use_type_invariant(self);
        }
        get_u32(self.packet.as_slice(), 12)
    }

}

/// Size of the payload of a route cache-info attribute.
pub const RTACI_HDRLEN: usize = 32;

/// Client reference count of the header that starts `b`.
pub open spec fn rtaci_rta_clntref(b: Seq<u8>) -> u32 {
    u32_at(b, 0)
}

/// Time of last use of the header that starts `b`.
pub open spec fn rtaci_rta_lastuse(b: Seq<u8>) -> u32 {
    u32_at(b, 4)
}

/// Expiry of the header that starts `b`.
pub open spec fn rtaci_rta_expires(b: Seq<u8>) -> u32 {
    u32_at(b, 8)
}

/// Error of the header that starts `b`.
pub open spec fn rtaci_rta_error(b: Seq<u8>) -> u32 {
    u32_at(b, 12)
}

/// Use count of the header that starts `b`.
pub open spec fn rtaci_rta_used(b: Seq<u8>) -> u32 {
    u32_at(b, 16)
}

/// Id of the header that starts `b`.
pub open spec fn rtaci_rta_id(b: Seq<u8>) -> u32 {
    u32_at(b, 20)
}

/// Timestamp of the header that starts `b`.
pub open spec fn rtaci_rta_ts(b: Seq<u8>) -> u32 {
    u32_at(b, 24)
}

/// Timestamp age of the header that starts `b`.
pub open spec fn rtaci_rta_tsage(b: Seq<u8>) -> u32 {
    u32_at(b, 28)
}

/// The payload of a route cache-info attribute.
#[derive(Debug)]
pub struct RouteCacheInfoPacket<'a> {
    packet: PacketData<'a>,
}

impl<'a> RouteCacheInfoPacket<'a> {
    /// The bytes of the record, header first.
    pub closed spec fn view(&self) -> Seq<u8> {
        self.packet@
    }

    #[verifier::type_invariant]
    spec fn has_header(self) -> bool {
        self.packet@.len() >= 32
    }

    /// Size of the header: the least such a record can be.
    pub fn minimum_packet_size() -> (n: usize)
        ensures
            n == 32,
    {
        RTACI_HDRLEN
    }

    /// A view of `buf`, if `buf` can hold the header.
    pub fn new(buf: &'a [u8]) -> (pkt: Option<RouteCacheInfoPacket<'a>>)
        ensures
            pkt.is_some() <==> buf@.len() >= 32,
            pkt.is_some() ==> pkt.unwrap()@ == buf@,
    {
        if buf.len() >= RTACI_HDRLEN {
            Some(RouteCacheInfoPacket { packet: PacketData::Borrowed(buf) })
        } else {
            None
        }
    }

    /// A record that owns `buf`, if `buf` can hold the header.
    pub fn owned(buf: Vec<u8>) -> (pkt: Option<RouteCacheInfoPacket<'static>>)
        ensures
            pkt.is_some() <==> buf@.len() >= 32,
            pkt.is_some() ==> pkt.unwrap()@ == buf@,
    {
        if buf.len() >= RTACI_HDRLEN {
            Some(RouteCacheInfoPacket { packet: PacketData::Owned(buf) })
        } else {
            None
        }
    }

    /// A copy of this record that owns its bytes.
    pub fn to_owned(&self) -> (pkt: RouteCacheInfoPacket<'static>)
        ensures
            pkt@ == self@,
    {
        proof {
            use_type_invariant(self);
        }
        let s = self.packet.as_slice();
        let v = copy_range(s, 0, s.len());
        assert(v@ =~= self@);
        RouteCacheInfoPacket { packet: PacketData::Owned(v) }
    }

    /// All bytes of the record.
    pub fn packet(&self) -> (bytes: &[u8])
        ensures
            bytes@ == self@,
            bytes@.len() >= 32,
    {
        proof {
            use_type_invariant(self);
        }
        self.packet.as_slice()
    }

    /// Number of bytes held.
    pub fn packet_size(&self) -> (n: usize)
        ensures
            n == self@.len(),
            n >= 32,
    {
        proof {
            use_type_invariant(self);
        }
        self.packet.len()
    }

    /// Client reference count.
    pub fn get_rta_clntref(&self) -> (v: u32)
        ensures
            v == rtaci_rta_clntref(self@),
    {
        proof {
            use_type_invariant(self);
        }
        get_u32(self.packet.as_slice(), 0)
    }

    /// Time of last use.
    pub fn get_rta_lastuse(&self) -> (v: u32)
        ensures
            v == rtaci_rta_lastuse(self@),
    {
        proof {
            use_type_invariant(self);
        }
        get_u32(self.packet.as_slice(), 4)
    }

    /// Expiry.
    pub fn get_rta_expires(&self) -> (v: u32)
        ensures
            v == rtaci_rta_expires(self@),
    {
        proof {
            use_type_invariant(self);
        }
        get_u32(self.packet.as_slice(), 8)
    }

    /// Error.
    pub fn get_rta_error(&self) -> (v: u32)
        ensures
            v == rtaci_rta_error(self@),
    {
        proof {
            use_type_invariant(self);
        }
        get_u32(self.packet.as_slice(), 12)
    }

    /// Use count.
    pub fn get_rta_used(&self) -> (v: u32)
        ensures
            v == rtaci_rta_used(self@),
    {
        proof {
            use_type_invariant(self);
        }
        get_u32(self.packet.as_slice(), 16)
    }

    /// Id.
    pub fn get_rta_id(&self) -> (v: u32)
        ensures
            v == rtaci_rta_id(self@),
    {
        proof {
            use_type_invariant(self);
        }
        get_u32(self.packet.as_slice(), 20)
    }

    /// Timestamp.
    pub fn get_rta_ts(&self) -> (v: u32)
        ensures
            v == rtaci_rta_ts(self@),
    {
        proof {
            use_type_invariant(self);
        }
        get_u32(self.packet.as_slice(), 24)
    }

    /// Timestamp age.
    pub fn get_rta_tsage(&self) -> (v: u32)
        ensures
            v == rtaci_rta_tsage(self@),
    {
        proof {
            use_type_invariant(self);
        }
        get_u32(self.packet.as_slice(), 28)
    }

}

} // verus!
