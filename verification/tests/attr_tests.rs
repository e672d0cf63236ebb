use pnetlink::packet::route::addr::IpAddr;
use pnetlink::packet::route::link::ifinfo;
use pnetlink::packet::route::route::{ToPayload, WithPayload};
use pnetlink::packet::route::{read_mac, read_string, RtAttrIterator, RtAttrPacket};
use pnet::util::MacAddr;

fn attr(kind: u16, payload: &[u8]) -> Vec<u8> {
    let mut b = Vec::new();
    b.extend_from_slice(&((4 + payload.len()) as u16).to_ne_bytes());
    b.extend_from_slice(&kind.to_ne_bytes());
    b.extend_from_slice(payload);
    b
}

fn padded(mut bytes: Vec<u8>) -> Vec<u8> {
    while bytes.len() % 4 != 0 {
        bytes.push(0);
    }
    bytes
}

#[test]
fn attribute_parse_fails_below_header_size() {
    assert!(RtAttrPacket::new(&[]).is_none());
    assert!(RtAttrPacket::new(&[4, 0, 1]).is_none());
    assert!(RtAttrPacket::new(&[4, 0, 1, 0]).is_some());
    assert!(RtAttrPacket::owned(vec![1, 2, 3]).is_none());
    assert!(RtAttrPacket::owned(vec![1, 2, 3, 4]).is_some());
    assert_eq!(RtAttrPacket::minimum_packet_size(), 4);
}

#[test]
fn attribute_getters_read_the_fields() {
    let bytes = attr(0x8012, &[1, 2, 3]);
    let rta = RtAttrPacket::new(&bytes).unwrap();
    assert_eq!(rta.get_rta_len(), 7);
    assert_eq!(rta.get_rta_type(), 0x8012);
    assert_eq!(rta.payload(), &[1, 2, 3]);
    assert_eq!(rta.packet(), &bytes[..]);
    assert_eq!(rta.packet_size(), 7);
    let copy = rta.to_owned();
    assert_eq!(copy.packet(), &bytes[..]);
    assert_eq!(copy.get_rta_type(), 0x8012);
}

#[test]
fn attribute_payload_follows_the_length_field() {
    let mut bytes = attr(1, &[1, 2, 3, 4, 5]);
    bytes[..2].copy_from_slice(&6u16.to_ne_bytes());
    assert_eq!(RtAttrPacket::new(&bytes).unwrap().payload(), &[1, 2]);
    bytes[..2].copy_from_slice(&600u16.to_ne_bytes());
    assert_eq!(RtAttrPacket::new(&bytes).unwrap().payload(), &[1, 2, 3, 4, 5]);
    bytes[..2].copy_from_slice(&2u16.to_ne_bytes());
    assert_eq!(RtAttrPacket::new(&bytes).unwrap().payload(), &[] as &[u8]);
}

#[test]
fn build_writes_length_type_and_payload() {
    let rta = RtAttrPacket::build(3, b"lo\0");
    assert_eq!(rta.packet(), &attr(3, b"lo\0")[..]);
    assert_eq!(rta.get_rta_len(), 7);
    let empty = RtAttrPacket::build(9, &[]);
    assert_eq!(empty.packet(), &attr(9, &[])[..]);
    assert_eq!(empty.get_rta_len(), 4);
}

#[test]
fn iterator_over_empty_slice_yields_nothing() {
    let mut iter = RtAttrIterator::new(&[]);
    assert!(iter.next().is_none());
    assert!(iter.next().is_none());
    assert!(RtAttrIterator::new(&[]).collect().is_empty());
}

#[test]
fn iterator_over_three_bytes_yields_nothing() {
    let mut iter = RtAttrIterator::new(&[4, 0, 1]);
    assert!(iter.next().is_none());
    assert!(RtAttrIterator::new(&[4, 0, 1]).collect().is_empty());
    assert!(RtAttrIterator::new(&[0, 4, 1]).find_type(1).is_none());
}

#[test]
fn iterator_skips_padding_between_attributes() {
    let mut buf = padded(attr(1, &[1, 2, 3, 4, 5]));
    buf.extend_from_slice(&padded(attr(2, &[6])));
    buf.extend_from_slice(&attr(3, &[7, 8, 9, 10]));
    let mut iter = RtAttrIterator::new(&buf);
    let a = iter.next().unwrap();
    assert_eq!((a.get_rta_type(), a.packet_size()), (1, 9));
    assert_eq!(a.payload(), &[1, 2, 3, 4, 5]);
    let b = iter.next().unwrap();
    assert_eq!((b.get_rta_type(), b.packet_size()), (2, 5));
    assert_eq!(b.payload(), &[6]);
    let c = iter.next().unwrap();
    assert_eq!((c.get_rta_type(), c.packet_size()), (3, 8));
    assert_eq!(c.payload(), &[7, 8, 9, 10]);
    assert!(iter.next().is_none());
}

#[test]
fn iterator_offsets_are_the_aligned_lengths() {
    // an attribute of each length from 4 to 4096, followed by a marker
    let mut len: usize = 4;
    while len <= 4096 {
        let mut buf = padded(attr(1, &vec![0xee; len - 4]));
        assert_eq!(buf.len(), (len + 3) & !3);
        buf.extend_from_slice(&attr(0x7777, &[]));
        let list = RtAttrIterator::new(&buf).collect();
        assert_eq!(list.len(), 2);
        assert_eq!(list[0].packet_size(), len);
        assert_eq!(list[1].get_rta_type(), 0x7777);
        len += 1;
    }
}

#[test]
fn iterator_yields_a_last_attribute_without_padding() {
    let buf = attr(5, &[1]);
    let list = RtAttrIterator::new(&buf).collect();
    assert_eq!(list.len(), 1);
    assert_eq!(list[0].payload(), &[1]);
    let mut two = padded(attr(4, &[]));
    two.extend_from_slice(&attr(5, &[1, 2]));
    assert_eq!(RtAttrIterator::new(&two).collect().len(), 2);
}

#[test]
fn iterator_stops_at_a_framing_fault() {
    // a length under the header's size
    let mut buf = padded(attr(1, &[1, 2]));
    buf.extend_from_slice(&[3, 0, 2, 0, 9, 9, 9, 9]);
    assert_eq!(RtAttrIterator::new(&buf).collect().len(), 1);
    // a length of zero
    let mut zero = padded(attr(1, &[1, 2]));
    zero.extend_from_slice(&[0, 0, 2, 0]);
    assert_eq!(RtAttrIterator::new(&zero).collect().len(), 1);
    // a length behind the end of the buffer
    let mut long = padded(attr(1, &[1, 2]));
    long.extend_from_slice(&attr(2, &[1, 2, 3, 4])[..6]);
    let list = RtAttrIterator::new(&long).collect();
    assert_eq!(list.len(), 1);
    assert_eq!(list[0].get_rta_type(), 1);
    // the iterator stays where it is once it has stopped
    let mut iter = RtAttrIterator::new(&long);
    assert!(iter.next().is_some());
    assert!(iter.next().is_none());
    assert!(iter.next().is_none());
}

#[test]
fn find_type_gives_the_first_match() {
    let mut buf = padded(attr(1, &[1]));
    buf.extend_from_slice(&padded(attr(2, &[2])));
    buf.extend_from_slice(&padded(attr(2, &[3])));
    buf.extend_from_slice(&padded(attr(4, &[4])));
    assert_eq!(RtAttrIterator::new(&buf).find_type(2).unwrap().payload(), &[2]);
    assert_eq!(RtAttrIterator::new(&buf).find_type(4).unwrap().payload(), &[4]);
    assert_eq!(RtAttrIterator::new(&buf).find_type(1).unwrap().payload(), &[1]);
    assert!(RtAttrIterator::new(&buf).find_type(3).is_none());
    let mut iter = RtAttrIterator::new(&buf);
    iter.next();
    iter.next();
    assert_eq!(iter.find_type(2).unwrap().payload(), &[3]);
}

fn round_trip<P: ToPayload>(kind: u16, payload: P, encoding: &[u8]) {
    let built = RtAttrPacket::create_with_payload(kind, payload);
    assert_eq!(built.packet(), &attr(kind, encoding)[..]);
    let parsed = RtAttrPacket::new(built.packet()).unwrap();
    assert_eq!(parsed.get_rta_type(), kind);
    assert_eq!(parsed.get_rta_len() as usize, 4 + encoding.len());
    assert_eq!(parsed.payload(), encoding);
    let list = RtAttrIterator::new(built.packet()).collect();
    assert_eq!(list.len(), 1);
    assert_eq!(list[0].packet(), built.packet());
}

#[test]
fn create_with_payload_round_trips_scalars() {
    round_trip(1, 0xabu8, &[0xab]);
    round_trip(2, 0x1234u16, &0x1234u16.to_ne_bytes());
    round_trip(3, 0xdead_beefu32, &0xdead_beefu32.to_ne_bytes());
    round_trip(0xffff, 0u32, &[0, 0, 0, 0]);
    round_trip(0, u16::MAX, &[0xff, 0xff]);
}

#[test]
fn create_with_payload_round_trips_strings() {
    round_trip(3, "lo", b"lo\0");
    round_trip(3, "", b"\0");
    round_trip(3, "test1488", b"test1488\0");
    round_trip(3, "z\u{fc}rich", "z\u{fc}rich\0".as_bytes());
}

#[test]
fn create_with_payload_round_trips_options() {
    round_trip(7, Some(5u16), &5u16.to_ne_bytes());
    round_trip(7, None::<u32>, &[]);
    round_trip(7, Some("x"), b"x\0");
}

#[test]
fn create_with_payload_round_trips_addresses() {
    round_trip(1, IpAddr::V4(0x7f00_0001), &[127, 0, 0, 1]);
    let six = [0xfe, 0x80, 0, 0, 0, 0, 0, 0, 0, 0, 0, 0, 0, 0, 0, 1];
    round_trip(1, IpAddr::V6(six), &six);
}

#[test]
fn nested_attribute_counts_the_unpadded_child() {
    let inner = RtAttrPacket::create_with_payload(1, "dummy");
    assert_eq!(inner.packet_size(), 10);
    let outer = RtAttrPacket::create_with_payload(18, inner);
    assert_eq!(outer.get_rta_len(), 14);
    assert_eq!(outer.packet(), &attr(18, &attr(1, b"dummy\0"))[..]);
    let child = RtAttrPacket::new(outer.payload()).unwrap();
    assert_eq!(child.get_rta_type(), 1);
    assert_eq!(child.payload(), b"dummy\0");
}

#[test]
fn list_pads_records_before_the_next_sibling() {
    let list = vec![
        RtAttrPacket::build(1, &[1]),
        RtAttrPacket::build(2, &[2, 2]),
        RtAttrPacket::build(3, &[3, 3, 3]),
    ];
    let mut expected = padded(attr(1, &[1]));
    expected.extend_from_slice(&padded(attr(2, &[2, 2])));
    expected.extend_from_slice(&attr(3, &[3, 3, 3]));
    assert_eq!(list.payload_size(), expected.len());
    assert_eq!(list.payload_size(), 8 + 8 + 7);
    let mut out = vec![0xaa];
    list.payload_add(&mut out);
    assert_eq!(&out[1..], &expected[..]);
    let outer = RtAttrPacket::create_with_payload(9, list);
    assert_eq!(outer.payload(), &expected[..]);
    let children = RtAttrIterator::new(outer.payload()).collect();
    assert_eq!(children.len(), 3);
    assert_eq!(children[0].payload(), &[1]);
    assert_eq!(children[1].payload(), &[2, 2]);
    assert_eq!(children[2].payload(), &[3, 3, 3]);
}

#[test]
fn list_of_plain_values_has_no_padding() {
    let list = vec![1u8, 2, 3];
    assert_eq!(list.payload_size(), 3);
    round_trip(4, list, &[1, 2, 3]);
    round_trip(4, Vec::<u16>::new(), &[]);
    round_trip(4, vec![7u16], &7u16.to_ne_bytes());
}

#[test]
fn pair_joins_unlike_values() {
    let pair = (RtAttrPacket::build(1, &[5]), 0x0102_0304u32);
    let mut expected = padded(attr(1, &[5]));
    expected.extend_from_slice(&0x0102_0304u32.to_ne_bytes());
    assert_eq!(pair.payload_size(), 12);
    round_trip(2, pair, &expected);
    let plain = (9u8, 0x1122u16);
    let mut bytes = vec![9u8];
    bytes.extend_from_slice(&0x1122u16.to_ne_bytes());
    round_trip(2, plain, &bytes);
}

#[test]
fn payload_gap_is_the_padding_of_a_record() {
    assert_eq!(RtAttrPacket::build(1, &[5]).payload_gap(), 3);
    assert_eq!(RtAttrPacket::build(1, &[5, 6]).payload_gap(), 2);
    assert_eq!(RtAttrPacket::build(1, &[5, 6, 7]).payload_gap(), 1);
    assert_eq!(RtAttrPacket::build(1, &[5, 6, 7, 8]).payload_gap(), 0);
    assert_eq!(7u8.payload_gap(), 0);
    assert_eq!(7u16.payload_gap(), 0);
    assert_eq!(7u32.payload_gap(), 0);
    assert_eq!("abc".payload_gap(), 0);
    assert_eq!(ifinfo(0, 0, 0, 0, 0).payload_gap(), 0);
    assert_eq!(ifinfo(1, 2, 3, 4, 5).payload_size(), 16);
}

#[test]
fn read_string_wants_one_closing_nul() {
    assert_eq!(read_string(b"eth0\0"), Some("eth0".to_string()));
    assert_eq!(read_string(b"\0"), Some(String::new()));
    assert_eq!(read_string(b""), None);
    assert_eq!(read_string(b"eth0"), None);
    assert_eq!(read_string(b"et\0h0\0"), None);
    assert_eq!(read_string(b"\0\0"), None);
    assert_eq!(read_string(&[0xff, 0xfe, 0]), None);
    assert_eq!(read_string("z\u{fc}rich\0".as_bytes()), Some("z\u{fc}rich".to_string()));
}

#[test]
fn read_mac_takes_the_first_six_octets() {
    assert_eq!(read_mac(&[1, 2, 3, 4, 5, 6]), Some(MacAddr::new(1, 2, 3, 4, 5, 6)));
    assert_eq!(
        read_mac(&[0xde, 0xad, 0xbe, 0xef, 0, 1, 9, 9]),
        Some(MacAddr::new(0xde, 0xad, 0xbe, 0xef, 0, 1))
    );
    assert_eq!(read_mac(&[1, 2, 3, 4, 5]), None);
    assert_eq!(read_mac(&[]), None);
}
