use pnet::util::MacAddr;
use pnetlink::packet::netlink::{NetlinkPacket, NetlinkReader, NLMSG_DONE};
use pnetlink::packet::route::headers::{IfInfoPacket, RtAttrMtuPacket};
use pnetlink::packet::route::link::{
    delete_link_request, get_link_by_index_request, get_link_by_name_request, ifinfo,
    iter_links_request, link_set_down_request, link_set_up_request, new_dummy_link_request,
    request, IfFlags, IfInfoPacketBuilder, IfType, Link, LinksIterator, OperState, IFLA_ADDRESS,
    IFLA_BROADCAST, IFLA_IFNAME, IFLA_INFO_KIND, IFLA_LINKINFO, IFLA_MTU, IFLA_OPERSTATE,
    IFLA_QDISC, RTM_DELLINK, RTM_GETLINK, RTM_NEWLINK,
};
use pnetlink::packet::route::{RtAttrIterator, RtAttrPacket};

fn message(kind: u16, flags: u16, payload: &[u8]) -> Vec<u8> {
    let mut b = Vec::new();
    b.extend_from_slice(&((16 + payload.len()) as u32).to_ne_bytes());
    b.extend_from_slice(&kind.to_ne_bytes());
    b.extend_from_slice(&flags.to_ne_bytes());
    b.extend_from_slice(&[0; 8]);
    b.extend_from_slice(payload);
    b
}

fn attr(kind: u16, payload: &[u8]) -> Vec<u8> {
    let mut b = Vec::new();
    b.extend_from_slice(&((4 + payload.len()) as u16).to_ne_bytes());
    b.extend_from_slice(&kind.to_ne_bytes());
    b.extend_from_slice(payload);
    while b.len() % 4 != 0 {
        b.push(0);
    }
    b
}

fn ifinfo_bytes(family: u8, kind: u16, index: u32, flags: u32, change: u32) -> Vec<u8> {
    let mut b = vec![family, 0];
    b.extend_from_slice(&kind.to_ne_bytes());
    b.extend_from_slice(&index.to_ne_bytes());
    b.extend_from_slice(&flags.to_ne_bytes());
    b.extend_from_slice(&change.to_ne_bytes());
    b
}

fn link_message(attributes: &[Vec<u8>]) -> Vec<u8> {
    let mut payload = ifinfo_bytes(0, 772, 1, 0x10049, 0);
    for a in attributes {
        payload.extend_from_slice(a);
    }
    message(RTM_NEWLINK, 2, &payload)
}

fn full_link() -> Link {
    let bytes = link_message(&[
        attr(IFLA_IFNAME, b"lo\0"),
        attr(IFLA_MTU, &65536u32.to_ne_bytes()),
        attr(IFLA_QDISC, b"noqueue\0"),
        attr(IFLA_OPERSTATE, &[6]),
        attr(IFLA_ADDRESS, &[0, 1, 2, 3, 4, 5]),
        attr(IFLA_BROADCAST, &[0xff; 6]),
    ]);
    Link::from_packet(NetlinkPacket::owned(bytes).unwrap()).unwrap()
}

#[test]
fn a_link_is_made_of_a_link_message_only() {
    let other = message(20, 0, &ifinfo_bytes(0, 1, 2, 3, 4));
    assert!(Link::from_packet(NetlinkPacket::owned(other).unwrap()).is_none());
    let short = message(RTM_NEWLINK, 0, &[0; 15]);
    assert!(Link::from_packet(NetlinkPacket::owned(short).unwrap()).is_none());
    let bare = message(RTM_NEWLINK, 0, &[0; 16]);
    assert!(Link::from_packet(NetlinkPacket::owned(bare).unwrap()).is_some());
    let done = message(NLMSG_DONE, 0, &[0; 16]);
    assert!(Link::from_packet(NetlinkPacket::owned(done).unwrap()).is_none());
}

#[test]
fn link_getters_read_header_and_attributes() {
    let link = full_link();
    assert_eq!(link.get_index(), 1);
    assert_eq!(link.get_type(), IfType::Loopback);
    assert_eq!(link.get_flags().bits(), 0x10049);
    assert!(link.get_flags().contains(IfFlags::new(IfFlags::UP)));
    assert!(link.get_flags().contains(IfFlags::new(IfFlags::LOOPBACK | IfFlags::RUNNING)));
    assert!(!link.get_flags().contains(IfFlags::new(IfFlags::BROADCAST)));
    assert_eq!(link.get_name(), Some("lo".to_string()));
    assert_eq!(link.get_mtu(), Some(65536));
    assert_eq!(link.get_qdisc(), Some("noqueue".to_string()));
    assert_eq!(link.get_state(), OperState::Up);
    assert_eq!(link.get_hw_addr(), Some(MacAddr::new(0, 1, 2, 3, 4, 5)));
    assert_eq!(link.get_broadcast(), Some(MacAddr::new(0xff, 0xff, 0xff, 0xff, 0xff, 0xff)));
    assert_eq!(link.packet().get_kind(), RTM_NEWLINK);
    assert_eq!(link.ifinfo().get_family(), 0);
    assert_eq!(link.ifinfo().get_type_(), 772);
    assert_eq!(link.rta_iter().collect().len(), 6);
    assert_eq!(link.rta(IFLA_MTU).unwrap().get_rta_len(), 8);
    assert!(link.rta(IFLA_LINKINFO).is_none());
    let mtu = RtAttrMtuPacket::new(link.rta(IFLA_MTU).unwrap().packet()).unwrap().get_mtu();
    assert_eq!(mtu, 65536);
}

#[test]
fn missing_or_malformed_attributes_give_nothing() {
    let bare = Link::from_packet(NetlinkPacket::owned(link_message(&[])).unwrap()).unwrap();
    assert_eq!(bare.get_name(), None);
    assert_eq!(bare.get_mtu(), None);
    assert_eq!(bare.get_qdisc(), None);
    assert_eq!(bare.get_state(), OperState::Unknown);
    assert_eq!(bare.get_hw_addr(), None);
    assert_eq!(bare.get_broadcast(), None);
    let odd = Link::from_packet(
        NetlinkPacket::owned(link_message(&[
            attr(IFLA_IFNAME, b"lo"),
            attr(IFLA_MTU, &[1, 2]),
            attr(IFLA_QDISC, &[0xff, 0]),
            attr(IFLA_OPERSTATE, &[]),
            attr(IFLA_ADDRESS, &[1, 2, 3, 4, 5]),
        ]))
        .unwrap(),
    )
    .unwrap();
    assert_eq!(odd.get_name(), None);
    assert_eq!(odd.get_mtu(), None);
    assert_eq!(odd.get_qdisc(), None);
    assert_eq!(odd.get_state(), OperState::Unknown);
    assert_eq!(odd.get_hw_addr(), None);
}

#[test]
fn if_type_maps_numbers_both_ways() {
    assert_eq!(IfType::new(0), IfType::Generic);
    assert_eq!(IfType::new(1), IfType::Ether);
    assert_eq!(IfType::new(772), IfType::Loopback);
    assert_eq!(IfType::new(2), IfType::Other(2));
    assert_eq!(IfType::new(65535), IfType::Other(65535));
    for v in [0u16, 1, 2, 771, 772, 773, 65535] {
        assert_eq!(IfType::new(v).value(), v);
    }
}

#[test]
fn oper_state_maps_numbers() {
    let states = [
        OperState::Unknown,
        OperState::NotPresent,
        OperState::Down,
        OperState::LowerLayerDown,
        OperState::Testing,
        OperState::Dormant,
        OperState::Up,
    ];
    for (i, s) in states.iter().enumerate() {
        assert_eq!(OperState::new(i as u8), *s);
    }
    assert_eq!(OperState::new(7), OperState::Unknown);
    assert_eq!(OperState::new(255), OperState::Unknown);
}

#[test]
fn if_flags_drop_unknown_bits() {
    assert_eq!(IfFlags::new(u32::MAX).bits(), 0x7ffff);
    assert_eq!(IfFlags::new(0x80000).bits(), 0);
    assert_eq!(IfFlags::ALL, 0x7ffff);
    let up = IfFlags::new(IfFlags::UP);
    assert_eq!(IfFlags::new(0).difference(up).bits(), 0);
    assert_eq!(IfFlags::new(0x43).intersection(up), up);
    assert!(IfFlags::new(0x42).intersection(up).is_empty());
    assert_eq!(IfFlags::new(0x40).union(up).bits(), 0x41);
}

#[test]
fn links_iterator_stops_at_another_kind() {
    let mut bytes = link_message(&[attr(IFLA_IFNAME, b"lo\0")]);
    bytes.extend_from_slice(&link_message(&[attr(IFLA_IFNAME, b"eth0\0")]));
    bytes.extend_from_slice(&message(NLMSG_DONE, 0, &[0; 4]));
    let mut links = LinksIterator::new(NetlinkReader::new().into_iter(vec![bytes]));
    assert_eq!(links.next().unwrap().get_name(), Some("lo".to_string()));
    assert_eq!(links.next().unwrap().get_name(), Some("eth0".to_string()));
    assert!(links.next().is_none());
    assert!(links.next().is_none());
}

#[test]
fn ifinfo_builder_sets_fields_and_appends_attributes() {
    let built = IfInfoPacketBuilder::new().build();
    assert_eq!(built.packet(), &[0u8; 16][..]);
    let built = IfInfoPacketBuilder::new()
        .set_family(10)
        .set_index(0x01020304)
        .set_type(IfType::Loopback)
        .set_flags(IfFlags::new(IfFlags::UP | IfFlags::RUNNING))
        .set_change(0xffff_ffff)
        .build();
    assert_eq!(built.packet(), &ifinfo_bytes(10, 772, 0x01020304, 0x41, 0xffff_ffff)[..]);
    assert_eq!(built.get_family(), 10);
    assert_eq!(built.get_type_(), 772);
    assert_eq!(built.get_index(), 0x01020304);
    assert_eq!(built.get_flags(), 0x41);
    assert_eq!(built.get_change(), 0xffff_ffff);
    let with_attrs = IfInfoPacketBuilder::new()
        .append(RtAttrPacket::build(IFLA_IFNAME, b"lo\0"))
        .append(RtAttrPacket::build(IFLA_MTU, &1500u32.to_ne_bytes()))
        .build();
    let mut expected = vec![0u8; 16];
    expected.extend_from_slice(&attr(IFLA_IFNAME, b"lo\0"));
    expected.extend_from_slice(&attr(IFLA_MTU, &1500u32.to_ne_bytes()));
    assert_eq!(with_attrs.packet(), &expected[..]);
    assert_eq!(with_attrs.payload(), &expected[16..]);
    assert_eq!(RtAttrIterator::new(with_attrs.payload()).collect().len(), 2);
    assert!(IfInfoPacket::new(&[0; 15]).is_none());
    assert_eq!(IfInfoPacket::minimum_packet_size(), 16);
}

#[test]
fn ifinfo_builder_appends_as_far_as_the_length_field_counts() {
    let mut bytes = attr(1, &[1, 2, 3, 4]);
    bytes[..2].copy_from_slice(&6u16.to_ne_bytes());
    let built = IfInfoPacketBuilder::new().append(RtAttrPacket::owned(bytes.clone()).unwrap()).build();
    let mut expected = vec![0u8; 16];
    expected.extend_from_slice(&bytes[..6]);
    expected.extend_from_slice(&[0, 0]);
    assert_eq!(built.packet(), &expected[..]);
}

#[test]
fn ifinfo_makes_a_header() {
    assert_eq!(ifinfo(2, 1, 3, 4, 5).packet(), &ifinfo_bytes(2, 1, 3, 4, 5)[..]);
}

fn request_bytes(kind: u16, flags: u16, record: &[u8]) -> Vec<u8> {
    let mut b = message(kind, flags | 1, record);
    while b.len() % 4 != 0 {
        b.push(0);
    }
    b
}

#[test]
fn request_appends_one_record() {
    assert_eq!(request(5, 0x300, &[1, 2, 3]).packet(), &request_bytes(5, 0x300, &[1, 2, 3])[..]);
    assert_eq!(request(5, 0xf000, &[]).packet(), &request_bytes(5, 0, &[])[..]);
}

#[test]
fn link_requests_have_their_bytes() {
    assert_eq!(
        iter_links_request().packet(),
        &request_bytes(RTM_GETLINK, 0x300, &[0; 16])[..]
    );
    assert_eq!(
        get_link_by_index_request(7).packet(),
        &request_bytes(RTM_GETLINK, 4, &ifinfo_bytes(0, 0, 7, 0, 0))[..]
    );
    assert_eq!(
        delete_link_request(9).packet(),
        &request_bytes(RTM_DELLINK, 4, &ifinfo_bytes(0, 0, 9, 0, 0))[..]
    );
    assert_eq!(
        link_set_down_request(3).packet(),
        &request_bytes(RTM_NEWLINK, 4, &ifinfo_bytes(0, 0, 3, 0, 1))[..]
    );
    assert_eq!(
        link_set_up_request(3).packet(),
        &request_bytes(RTM_NEWLINK, 4, &ifinfo_bytes(0, 0, 3, 1, 1))[..]
    );
}

#[test]
fn name_requests_carry_the_name() {
    let mut record = vec![0u8; 16];
    record.extend_from_slice(&attr(IFLA_IFNAME, b"lo\0"));
    assert_eq!(
        get_link_by_name_request("lo").packet(),
        &request_bytes(RTM_GETLINK, 4, &record)[..]
    );
    let mut inner = Vec::new();
    inner.extend_from_slice(&((4 + 6) as u16).to_ne_bytes());
    inner.extend_from_slice(&IFLA_INFO_KIND.to_ne_bytes());
    inner.extend_from_slice(b"dummy\0");
    let mut record = vec![0u8; 16];
    record.extend_from_slice(&attr(IFLA_IFNAME, b"test1488\0"));
    record.extend_from_slice(&attr(IFLA_LINKINFO, &inner));
    let req = new_dummy_link_request("test1488");
    assert_eq!(req.packet(), &request_bytes(RTM_NEWLINK, 0x604, &record)[..]);
    let parsed = IfInfoPacket::new(req.payload()).unwrap();
    let attrs = RtAttrIterator::new(parsed.payload()).collect();
    assert_eq!(attrs.len(), 2);
    assert_eq!(attrs[0].payload(), b"test1488\0");
    assert_eq!(attrs[1].get_rta_type(), IFLA_LINKINFO);
}

#[test]
fn links_collect_and_last_stop_at_another_kind() {
    let mut bytes = link_message(&[attr(IFLA_IFNAME, b"lo\0")]);
    bytes.extend_from_slice(&link_message(&[attr(IFLA_IFNAME, b"eth0\0")]));
    bytes.extend_from_slice(&message(NLMSG_DONE, 0, &[0; 4]));
    bytes.extend_from_slice(&link_message(&[attr(IFLA_IFNAME, b"late\0")]));
    let chunks: Vec<Vec<u8>> = bytes.chunks(7).map(|c| c.to_vec()).collect();
    let all = LinksIterator::new(NetlinkReader::new().into_iter(chunks.clone())).collect();
    assert_eq!(all.len(), 2);
    assert_eq!(all[0].get_name(), Some("lo".to_string()));
    assert_eq!(all[1].get_name(), Some("eth0".to_string()));
    let last = LinksIterator::new(NetlinkReader::new().into_iter(chunks)).last();
    assert_eq!(last.unwrap().get_name(), Some("eth0".to_string()));
    let none = LinksIterator::new(NetlinkReader::new().into_iter(vec![])).last();
    assert!(none.is_none());
    let other = message(20, 0, &[0; 16]);
    assert!(LinksIterator::new(NetlinkReader::new().into_iter(vec![other])).collect().is_empty());
}

#[test]
fn attributes_appended_behind_a_link_header_are_read_back() {
    let mut len = 0usize;
    while len < 40 {
        let first = vec![0x11u8; len];
        let second = vec![0x22u8; (len * 7) % 13];
        let third = vec![0x33u8; (len * 3) % 5];
        let built = IfInfoPacketBuilder::new()
            .append(RtAttrPacket::build(1, &first))
            .set_index(9)
            .append(RtAttrPacket::build(2, &second))
            .set_family(2)
            .append(RtAttrPacket::build(3, &third))
            .build();
        assert_eq!(built.packet().len() % 4, 0);
        assert_eq!(built.get_index(), 9);
        assert_eq!(built.get_family(), 2);
        let got = RtAttrIterator::new(built.payload()).collect();
        assert_eq!(got.len(), 3);
        assert_eq!(got[0].payload(), &first[..]);
        assert_eq!(got[1].payload(), &second[..]);
        assert_eq!(got[2].payload(), &third[..]);
        len += 1;
    }
}
