//! The audit family: switching the kernel's audit subsystem on.
use crate::packet::netlink::{NetlinkMsgFlags, NetlinkPacket};
use crate::packet::route::link::{request, request_bytes};
use crate::packet::{push_zeros, zeros, PacketData};
use crate::wire::{get_u32, overwrite, put_u32, u32_at, u32_bytes};
use vstd::endian::endianness;
use vstd::prelude::*;

verus! {

/// Message kind that sets the audit status.
pub const AUDIT_SET: u16 = 1001;

/// Bit of the status mask that says the `enabled` field counts.
pub const AUDIT_STATUS_ENABLED: u32 = 1;

/// Size of an audit status record.
pub const AUDIT_STATUS_LEN: usize = 32;

/// The mask field of the status record `b`: which of the other fields count.
pub open spec fn audit_mask(b: Seq<u8>) -> u32 {
    u32_at(b, 0)
}

/// The enabled field of the status record `b`.
pub open spec fn audit_enabled(b: Seq<u8>) -> u32 {
    u32_at(b, 4)
}

/// The status of the audit subsystem, as sent to the kernel.
#[derive(Debug)]
pub struct AuditStatusPacket<'a> {
    packet: PacketData<'a>,
}

impl<'a> AuditStatusPacket<'a> {
    /// The bytes of the record.
    pub closed spec fn view(&self) -> Seq<u8> {
        self.packet@
    }

    #[verifier::type_invariant]
    spec fn has_fields(self) -> bool {
        self.packet@.len() >= 32
    }

    /// Size of the record.
    pub fn minimum_packet_size() -> (n: usize)
        ensures
            n == 32,
    {
        AUDIT_STATUS_LEN
    }

    /// A view of `buf`, if `buf` can hold the record.
    pub fn new(buf: &'a [u8]) -> (pkt: Option<AuditStatusPacket<'a>>)
        ensures
            pkt.is_some() <==> buf@.len() >= 32,
            pkt.is_some() ==> pkt.unwrap()@ == buf@,
    {
        if buf.len() >= AUDIT_STATUS_LEN {
            Some(AuditStatusPacket { packet: PacketData::Borrowed(buf) })
        } else {
            None
        }
    }

    /// A record of zero bytes but for the mask and the enabled field.
    pub fn with_status(mask: u32, enabled: u32) -> (pkt: AuditStatusPacket<'static>)
        ensures
            pkt@ == status_record(mask, enabled),
    {
        let mut data: Vec<u8> = Vec::new();
        push_zeros(&mut data, AUDIT_STATUS_LEN);
        assert(data@ =~= zeros(32));
        put_u32(&mut data, 0, mask);
        put_u32(&mut data, 4, enabled);
        AuditStatusPacket { packet: PacketData::Owned(data) }
    }

    /// All bytes of the record.
    pub fn packet(&self) -> (bytes: &[u8])
        ensures
            bytes@ == self@,
            bytes@.len() >= 32,
    {
        proof {
            use_type_invariant(self);
        }
        self.packet.as_slice()
    }

    /// Which of the other fields count.
    pub fn get_mask(&self) -> (v: u32)
        ensures
            v == audit_mask(self@),
    {
        proof {
            use_type_invariant(self);
        }
        get_u32(self.packet.as_slice(), 0)
    }

    /// Whether auditing is on.
    pub fn get_enabled(&self) -> (v: u32)
        ensures
            v == audit_enabled(self@),
    {
        proof {
            use_type_invariant(self);
        }
        get_u32(self.packet.as_slice(), 4)
    }
}

/// A status record of zero bytes but for the mask and the enabled field.
pub open spec fn status_record(mask: u32, enabled: u32) -> Seq<u8> {
    overwrite(
        overwrite(zeros(32), 0, u32_bytes(mask, endianness())),
        4,
        u32_bytes(enabled, endianness()),
    )
}

/// The request that switches auditing on.
pub fn audit_enable_request() -> (req: NetlinkPacket<'static>)
    ensures
        req@ == request_bytes(AUDIT_SET, 0x5, status_record(1, 1)),
{
    proof {
        assert((1u16 | 4u16) & 0xf1f == 0x5) by (bit_vector);
    }
    let status = AuditStatusPacket::with_status(AUDIT_STATUS_ENABLED, 1);
    request(
        AUDIT_SET,
        NetlinkMsgFlags::NLM_F_REQUEST | NetlinkMsgFlags::NLM_F_ACK,
        status.packet(),
    )
}

} // verus!
