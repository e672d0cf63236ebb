use pnetlink::packet::netlink::{
    MutableNetlinkPacket, NetlinkErrorPacket, NetlinkIterable, NetlinkMsgFlags, NetlinkPacket,
    ToIoError, NLMSG_DONE, NLMSG_ERROR, NLMSG_NOOP, NLMSG_OVERRUN,
};

fn message(kind: u16, flags: u16, seq: u32, pid: u32, payload: &[u8]) -> Vec<u8> {
    let mut b = Vec::new();
    b.extend_from_slice(&((16 + payload.len()) as u32).to_ne_bytes());
    b.extend_from_slice(&kind.to_ne_bytes());
    b.extend_from_slice(&flags.to_ne_bytes());
    b.extend_from_slice(&seq.to_ne_bytes());
    b.extend_from_slice(&pid.to_ne_bytes());
    b.extend_from_slice(payload);
    b
}

#[test]
fn reserved_kinds_have_their_numbers() {
    assert_eq!(NLMSG_NOOP, 1);
    assert_eq!(NLMSG_ERROR, 2);
    assert_eq!(NLMSG_DONE, 3);
    assert_eq!(NLMSG_OVERRUN, 4);
}

#[test]
fn parse_fails_below_header_size() {
    assert!(NetlinkPacket::new(&[]).is_none());
    assert!(NetlinkPacket::new(&[0u8; 15]).is_none());
    assert!(NetlinkPacket::new(&[0u8; 16]).is_some());
    assert!(NetlinkPacket::owned(vec![0u8; 15]).is_none());
    assert!(NetlinkPacket::owned(vec![0u8; 16]).is_some());
    assert_eq!(NetlinkPacket::minimum_packet_size(), 16);
}

#[test]
fn getters_read_the_header_fields() {
    let bytes = message(42, 0x0301, 7, 1234, &[1, 2, 3, 4]);
    let pkt = NetlinkPacket::new(&bytes).unwrap();
    assert_eq!(pkt.get_length(), 20);
    assert_eq!(pkt.get_kind(), 42);
    assert_eq!(pkt.get_flags().bits(), 0x0301);
    assert_eq!(pkt.get_seq(), 7);
    assert_eq!(pkt.get_pid(), 1234);
    assert_eq!(pkt.payload(), &[1, 2, 3, 4]);
    assert_eq!(pkt.packet(), &bytes[..]);
    assert_eq!(pkt.packet_size(), 20);
}

#[test]
fn owned_and_borrowed_read_the_same() {
    let bytes = message(17, 5, 99, 100, &[9, 8, 7]);
    let borrowed = NetlinkPacket::new(&bytes).unwrap();
    let owned = NetlinkPacket::owned(bytes.clone()).unwrap();
    let copied = borrowed.to_owned();
    let again = owned.get_packet();
    for pkt in [&borrowed, &owned, &copied, &again] {
        assert_eq!(pkt.get_length(), 19);
        assert_eq!(pkt.get_kind(), 17);
        assert_eq!(pkt.get_flags().bits(), 5);
        assert_eq!(pkt.get_seq(), 99);
        assert_eq!(pkt.get_pid(), 100);
        assert_eq!(pkt.payload(), &[9, 8, 7]);
    }
    let mutable = MutableNetlinkPacket::owned(bytes.clone()).unwrap();
    assert_eq!(mutable.get_length(), 19);
    assert_eq!(mutable.get_kind(), 17);
    assert_eq!(mutable.get_flags().bits(), 5);
    assert_eq!(mutable.get_seq(), 99);
    assert_eq!(mutable.get_pid(), 100);
    assert_eq!(mutable.payload(), &[9, 8, 7]);
}

#[test]
fn payload_follows_the_length_field() {
    // the length field reaches less far than the buffer
    let mut bytes = message(42, 0, 0, 0, &[1, 2, 3, 4, 5, 6]);
    bytes[..4].copy_from_slice(&18u32.to_ne_bytes());
    assert_eq!(NetlinkPacket::new(&bytes).unwrap().payload(), &[1, 2]);
    // the length field reaches behind the buffer
    bytes[..4].copy_from_slice(&1000u32.to_ne_bytes());
    assert_eq!(NetlinkPacket::new(&bytes).unwrap().payload(), &[1, 2, 3, 4, 5, 6]);
    // the length field is under the header's size
    bytes[..4].copy_from_slice(&3u32.to_ne_bytes());
    assert_eq!(NetlinkPacket::new(&bytes).unwrap().payload(), &[] as &[u8]);
    bytes[..4].copy_from_slice(&0u32.to_ne_bytes());
    assert_eq!(NetlinkPacket::new(&bytes).unwrap().payload(), &[] as &[u8]);
    bytes[..4].copy_from_slice(&16u32.to_ne_bytes());
    assert_eq!(NetlinkPacket::new(&bytes).unwrap().payload(), &[] as &[u8]);
}

#[test]
fn build_makes_a_bare_header() {
    let pkt = MutableNetlinkPacket::build(18, NetlinkMsgFlags::new(0x301));
    assert_eq!(pkt.packet(), &message(18, 0x301, 0, 0, &[])[..]);
    assert_eq!(pkt.get_length(), 16);
    assert_eq!(MutableNetlinkPacket::minimum_packet_size(), 16);
    assert!(MutableNetlinkPacket::owned(vec![0; 15]).is_none());
}

#[test]
fn setters_change_their_field_only() {
    let mut pkt = MutableNetlinkPacket::owned(message(1, 2, 3, 4, &[5, 6])).unwrap();
    pkt.set_length(18);
    assert_eq!(pkt.packet(), &message(1, 2, 3, 4, &[5, 6])[..]);
    pkt.set_kind(0x1122);
    assert_eq!(pkt.packet(), &message(0x1122, 2, 3, 4, &[5, 6])[..]);
    pkt.set_flags(NetlinkMsgFlags::new(0x0404));
    assert_eq!(pkt.packet(), &message(0x1122, 0x0404, 3, 4, &[5, 6])[..]);
    pkt.set_seq(0xa0b0c0d0);
    assert_eq!(pkt.packet(), &message(0x1122, 0x0404, 0xa0b0c0d0, 4, &[5, 6])[..]);
    pkt.set_pid(77);
    assert_eq!(pkt.packet(), &message(0x1122, 0x0404, 0xa0b0c0d0, 77, &[5, 6])[..]);
    pkt.set_length(17);
    assert_eq!(pkt.payload(), &[5]);
    let frozen = pkt.consume_to_immutable();
    assert_eq!(frozen.get_kind(), 0x1122);
    assert_eq!(frozen.get_seq(), 0xa0b0c0d0);
    assert_eq!(frozen.get_pid(), 77);
    assert_eq!(frozen.payload(), &[5]);
}

#[test]
fn payload_mut_writes_the_payload_in_place() {
    let mut pkt = MutableNetlinkPacket::owned(message(1, 2, 3, 4, &[5, 6, 7])).unwrap();
    pkt.set_length(18);
    {
        let payload = pkt.payload_mut();
        assert_eq!(payload.len(), 2);
        payload[0] = 50;
        payload[1] = 60;
    }
    let mut expected = message(1, 2, 3, 4, &[50, 60, 7]);
    expected[..4].copy_from_slice(&18u32.to_ne_bytes());
    assert_eq!(pkt.into_bytes(), expected);
}

#[test]
fn reserializing_parsed_fields_gives_the_same_bytes() {
    let wire = message(0xabcd, 0x0f1f, 0x01020304, 0xfffffffe, &[1, 2, 3, 4, 5, 6, 7]);
    let parsed = NetlinkPacket::new(&wire).unwrap();
    let mut rebuilt = MutableNetlinkPacket::build(parsed.get_kind(), parsed.get_flags());
    rebuilt.set_length(parsed.get_length());
    rebuilt.set_seq(parsed.get_seq());
    rebuilt.set_pid(parsed.get_pid());
    let mut bytes = rebuilt.into_bytes();
    bytes.extend_from_slice(parsed.payload());
    assert_eq!(bytes, wire);
}

#[test]
fn flags_drop_unknown_bits() {
    assert_eq!(NetlinkMsgFlags::new(0xffff).bits(), 0x0f1f);
    assert_eq!(NetlinkMsgFlags::new(0).bits(), 0);
    assert_eq!(NetlinkMsgFlags::new(0x1000).bits(), 0);
    assert_eq!(NetlinkMsgFlags::new(0x0020 | 0x0004).bits(), 0x0004);
    assert_eq!(NetlinkMsgFlags::ALL, 0x0f1f);
    assert_eq!(NetlinkMsgFlags::NLM_F_DUMP, NetlinkMsgFlags::NLM_F_ROOT | NetlinkMsgFlags::NLM_F_MATCH);
}

#[test]
fn flags_combine() {
    let ack = NetlinkMsgFlags::new(NetlinkMsgFlags::NLM_F_ACK);
    let request = NetlinkMsgFlags::new(NetlinkMsgFlags::NLM_F_REQUEST);
    let both = ack.union(request);
    assert_eq!(both.bits(), 5);
    assert!(both.contains(ack));
    assert!(both.contains(request));
    assert!(!ack.contains(request));
    assert!(!both.is_empty());
    assert!(NetlinkMsgFlags::new(0).is_empty());
    assert_eq!(both.intersection(ack), ack);
    assert_eq!(both.difference(ack), request);
    assert_eq!(both.difference(both).bits(), 0);
}

#[test]
fn iterable_walks_the_messages_of_a_buffer() {
    let mut buf = message(10, 0, 1, 0, &[1, 2, 3, 4, 5]);
    buf.extend_from_slice(&[0, 0, 0]);
    buf.extend_from_slice(&message(11, 0, 2, 0, &[]));
    buf.extend_from_slice(&message(12, 0, 3, 0, &[9]));
    let mut iter = NetlinkIterable::new(&buf);
    let first = iter.next().unwrap();
    assert_eq!(first.get_kind(), 10);
    assert_eq!(first.packet_size(), 21);
    assert_eq!(first.payload(), &[1, 2, 3, 4, 5]);
    let second = iter.next().unwrap();
    assert_eq!(second.get_kind(), 11);
    assert_eq!(second.payload(), &[] as &[u8]);
    let third = iter.next().unwrap();
    assert_eq!(third.get_kind(), 12);
    assert_eq!(third.payload(), &[9]);
    assert!(iter.next().is_none());
    assert!(iter.next().is_none());
    let all = NetlinkIterable::new(&buf).collect();
    assert_eq!(all.len(), 3);
    assert_eq!(all[2].get_seq(), 3);
}

#[test]
fn iterable_stops_at_a_partial_or_malformed_message() {
    let whole = message(10, 0, 1, 0, &[1, 2, 3, 4]);
    let mut cut = whole.clone();
    cut.extend_from_slice(&message(11, 0, 2, 0, &[1, 2, 3, 4])[..18]);
    assert_eq!(NetlinkIterable::new(&cut).collect().len(), 1);
    let mut bad = whole.clone();
    let mut zero = message(11, 0, 2, 0, &[]);
    zero[..4].copy_from_slice(&0u32.to_ne_bytes());
    bad.extend_from_slice(&zero);
    assert_eq!(NetlinkIterable::new(&bad).collect().len(), 1);
    assert!(NetlinkIterable::new(&[]).next().is_none());
    assert!(NetlinkIterable::new(&whole[..15]).next().is_none());
}

fn error_message(code: i32) -> Vec<u8> {
    let mut payload = code.to_ne_bytes().to_vec();
    payload.extend_from_slice(&message(18, 1, 5, 6, &[]));
    message(NLMSG_ERROR, 0, 5, 6, &payload)
}

#[test]
fn error_packet_reads_code_and_echo() {
    let bytes = error_message(-13);
    let pkt = NetlinkPacket::new(&bytes).unwrap();
    let err = NetlinkErrorPacket::new(pkt.payload()).unwrap();
    assert_eq!(err.get_error(), -13);
    assert_eq!(err.payload(), &message(18, 1, 5, 6, &[])[..]);
    assert_eq!(err.packet().len(), 20);
    assert_eq!(NetlinkErrorPacket::minimum_packet_size(), 4);
    assert!(NetlinkErrorPacket::new(&[0, 0, 0]).is_none());
}

#[test]
fn to_result_negates_the_kernel_code() {
    assert_eq!(NetlinkPacket::new(&error_message(-13)).unwrap().to_result(), Some(13));
    assert_eq!(NetlinkPacket::new(&error_message(-1)).unwrap().to_result(), Some(1));
    assert_eq!(NetlinkPacket::new(&error_message(17)).unwrap().to_result(), Some(-17));
    assert_eq!(NetlinkPacket::new(&error_message(i32::MIN)).unwrap().to_result(), Some(i32::MIN));
    assert_eq!(NetlinkPacket::new(&error_message(-i32::MAX)).unwrap().to_result(), Some(i32::MAX));
}

#[test]
fn to_result_is_none_for_acknowledgements_and_other_kinds() {
    assert_eq!(NetlinkPacket::new(&error_message(0)).unwrap().to_result(), None);
    let data = message(42, 0, 0, 0, &(-13i32).to_ne_bytes());
    assert_eq!(NetlinkPacket::new(&data).unwrap().to_result(), None);
    let done = message(NLMSG_DONE, 0, 0, 0, &(-13i32).to_ne_bytes());
    assert_eq!(NetlinkPacket::new(&done).unwrap().to_result(), None);
    let cut = message(NLMSG_ERROR, 0, 0, 0, &[0xff, 0xff, 0xff]);
    assert_eq!(NetlinkPacket::new(&cut).unwrap().to_result(), None);
    let bare = message(NLMSG_ERROR, 0, 0, 0, &[]);
    assert_eq!(NetlinkPacket::new(&bare).unwrap().to_result(), None);
}

#[test]
fn to_io_error_gives_the_os_error() {
    let err = NetlinkPacket::new(&error_message(-13)).unwrap().to_io_error().unwrap();
    assert_eq!(err.raw_os_error(), Some(13));
    assert_eq!(err.kind(), std::io::ErrorKind::PermissionDenied);
    assert!(NetlinkPacket::new(&error_message(0)).unwrap().to_io_error().is_none());
    let data = message(42, 0, 0, 0, &(-13i32).to_ne_bytes());
    assert!(NetlinkPacket::new(&data).unwrap().to_io_error().is_none());
}

#[test]
fn raw_flags_keep_unknown_bits() {
    let bytes = message(42, 0xf0e0, 1, 2, &[]);
    let pkt = NetlinkPacket::new(&bytes).unwrap();
    assert_eq!(pkt.get_raw_flags(), 0xf0e0);
    assert_eq!(pkt.get_flags().bits(), 0xf0e0 & 0x0f1f);
    let mut mutable = MutableNetlinkPacket::build(42, NetlinkMsgFlags::new(0));
    mutable.set_raw_flags(0xf0e0);
    mutable.set_seq(1);
    mutable.set_pid(2);
    assert_eq!(mutable.get_raw_flags(), 0xf0e0);
    assert_eq!(mutable.packet(), &bytes[..]);
}

#[test]
fn reserialize_gives_the_bytes_parsed() {
    let plain = message(0xabcd, 0x0301, 0x01020304, 0xfffffffe, &[1, 2, 3, 4, 5, 6, 7]);
    assert_eq!(NetlinkPacket::new(&plain).unwrap().reserialize(), plain);
    let unknown_bits = message(7, 0xffff, 9, 10, &[1]);
    assert_eq!(NetlinkPacket::new(&unknown_bits).unwrap().reserialize(), unknown_bits);
    let mut odd_length = message(7, 0, 9, 10, &[1, 2, 3]);
    odd_length[..4].copy_from_slice(&3u32.to_ne_bytes());
    assert_eq!(NetlinkPacket::new(&odd_length).unwrap().reserialize(), odd_length);
    let bare = message(0, 0, 0, 0, &[]);
    assert_eq!(NetlinkPacket::owned(bare.clone()).unwrap().reserialize(), bare);
}

#[test]
fn to_io_error_carries_the_negated_code() {
    for code in [-1i32, -2, -13, -17, -95] {
        let err = NetlinkPacket::new(&error_message(code)).unwrap().to_io_error().unwrap();
        assert_eq!(err.raw_os_error(), Some(-code));
    }
}
