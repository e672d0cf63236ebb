use pnetlink::packet::netlink::{NetlinkMsgFlags, NetlinkPacket, NetlinkRequestBuilder};
use pnetlink::packet::route::route::WithPayload;
use pnetlink::packet::route::{RtAttrIterator, RtAttrPacket};

fn header(length: u32, kind: u16, flags: u16) -> Vec<u8> {
    let mut b = Vec::new();
    b.extend_from_slice(&length.to_ne_bytes());
    b.extend_from_slice(&kind.to_ne_bytes());
    b.extend_from_slice(&flags.to_ne_bytes());
    b.extend_from_slice(&[0; 8]);
    b
}

#[test]
fn new_request_is_a_bare_header_with_the_request_flag() {
    let req = NetlinkRequestBuilder::new(18, NetlinkMsgFlags::new(NetlinkMsgFlags::NLM_F_DUMP)).build();
    assert_eq!(req.packet(), &header(16, 18, 0x301)[..]);
    assert_eq!(req.get_length(), 16);
    assert!(req.get_flags().contains(NetlinkMsgFlags::new(NetlinkMsgFlags::NLM_F_REQUEST)));
    let bare = NetlinkRequestBuilder::new(0, NetlinkMsgFlags::new(0)).build();
    assert_eq!(bare.packet(), &header(16, 0, 1)[..]);
    assert_eq!(bare.payload(), &[] as &[u8]);
}

#[test]
fn append_counts_the_item_and_pads_the_buffer() {
    let builder = NetlinkRequestBuilder::new(18, NetlinkMsgFlags::new(0));
    assert_eq!(builder.declared_length(), 16);
    let builder = builder.append(&[1, 2, 3, 4, 5]);
    assert_eq!(builder.declared_length(), 21);
    let req = builder.build();
    let mut expected = header(21, 18, 1);
    expected.extend_from_slice(&[1, 2, 3, 4, 5, 0, 0, 0]);
    assert_eq!(req.packet(), &expected[..]);
    assert_eq!(req.payload(), &[1, 2, 3, 4, 5]);
}

#[test]
fn append_of_nothing_changes_nothing() {
    let req = NetlinkRequestBuilder::new(18, NetlinkMsgFlags::new(0)).append(&[]).build();
    assert_eq!(req.packet(), &header(16, 18, 1)[..]);
}

#[test]
fn append_of_aligned_items_adds_no_padding() {
    let req = NetlinkRequestBuilder::new(20, NetlinkMsgFlags::new(4))
        .append(&[1, 2, 3, 4])
        .append(&[5, 6, 7, 8, 9, 10, 11, 12])
        .build();
    let mut expected = header(28, 20, 5);
    expected.extend_from_slice(&[1, 2, 3, 4, 5, 6, 7, 8, 9, 10, 11, 12]);
    assert_eq!(req.packet(), &expected[..]);
    assert_eq!(req.payload(), &[1, 2, 3, 4, 5, 6, 7, 8, 9, 10, 11, 12]);
}

fn read_back(attributes: &[RtAttrPacket<'static>]) -> NetlinkPacket<'static> {
    let mut builder = NetlinkRequestBuilder::new(16, NetlinkMsgFlags::new(0));
    for a in attributes {
        builder = builder.append(a.packet());
    }
    builder.build()
}

#[test]
fn appended_attributes_are_read_back_in_order() {
    let attributes = vec![
        RtAttrPacket::create_with_payload(1, 0x0a00_0001u32),
        RtAttrPacket::create_with_payload(2, "lo0"),
        RtAttrPacket::create_with_payload(3, (7u16, 9u16)),
        RtAttrPacket::build(4, &[]),
        RtAttrPacket::create_with_payload(5, "eth0"),
    ];
    let req = read_back(&attributes);
    let parsed = NetlinkPacket::new(req.packet()).unwrap();
    let list = RtAttrIterator::new(parsed.payload()).collect();
    assert_eq!(list.len(), attributes.len());
    for (got, want) in list.iter().zip(attributes.iter()) {
        assert_eq!(got.packet(), want.packet());
    }
}

#[test]
fn one_appended_attribute_is_read_back_whatever_its_length() {
    let mut len = 0usize;
    while len < 40 {
        let attribute = RtAttrPacket::build(9, &vec![0x5a; len]);
        let req = read_back(&[attribute.to_owned()]);
        let list = RtAttrIterator::new(req.payload()).collect();
        assert_eq!(list.len(), 1);
        assert_eq!(list[0].packet(), attribute.packet());
        len += 1;
    }
}

#[test]
fn padding_of_an_inner_attribute_is_not_counted() {
    // two attributes of five bytes: the length field counts ten bytes, the
    // buffer holds sixteen, and the payload ends inside the second attribute
    let attributes = vec![RtAttrPacket::build(1, &[1]), RtAttrPacket::build(2, &[2])];
    let req = read_back(&attributes);
    assert_eq!(req.get_length(), 26);
    assert_eq!(req.packet_size(), 32);
    assert_eq!(req.payload().len(), 10);
    let list = RtAttrIterator::new(req.payload()).collect();
    assert_eq!(list.len(), 1);
    assert_eq!(list[0].packet(), attributes[0].packet());
    // all of them are in the buffer
    let all = RtAttrIterator::new(&req.packet()[16..]).collect();
    assert_eq!(all.len(), 2);
    assert_eq!(all[1].packet(), attributes[1].packet());
}

#[test]
fn append_changes_only_the_length_field_before_the_item() {
    let before = NetlinkRequestBuilder::new(18, NetlinkMsgFlags::new(0x300))
        .append(&[1, 2, 3])
        .build();
    let old = before.packet().to_vec();
    assert_eq!(old.len() % 4, 0);
    let item = [9u8, 8, 7, 6, 5, 4];
    let after = NetlinkRequestBuilder::new(18, NetlinkMsgFlags::new(0x300))
        .append(&[1, 2, 3])
        .append(&item)
        .build();
    let new = after.packet();
    assert_eq!(new.len(), old.len() + 8);
    assert_eq!(new.len() % 4, 0);
    assert_eq!(&new[..4], &(19u32 + 6).to_ne_bytes()[..]);
    assert_eq!(&new[4..old.len()], &old[4..]);
    assert_eq!(&new[old.len()..old.len() + 6], &item[..]);
    assert_eq!(&new[old.len() + 6..], &[0, 0][..]);
}

#[test]
fn try_append_appends_where_the_length_fits() {
    let direct = NetlinkRequestBuilder::new(18, NetlinkMsgFlags::new(0)).append(&[1, 2, 3, 4, 5]);
    let tried = NetlinkRequestBuilder::new(18, NetlinkMsgFlags::new(0)).try_append(&[1, 2, 3, 4, 5]);
    match tried {
        Ok(builder) => {
            assert_eq!(builder.declared_length(), 21);
            assert_eq!(builder.build().packet(), direct.build().packet());
        }
        Err(_) => panic!("the item fits"),
    }
}

#[test]
fn appended_attributes_stand_in_the_buffer_whatever_their_lengths() {
    let mut len = 0usize;
    while len < 20 {
        let attributes = vec![
            RtAttrPacket::build(1, &vec![1; len]),
            RtAttrPacket::build(2, &vec![2; (len * 5) % 7]),
            RtAttrPacket::build(3, &vec![3; (len * 3) % 4]),
        ];
        let req = read_back(&attributes);
        assert_eq!(req.packet_size() % 4, 0);
        let all = RtAttrIterator::new(&req.packet()[16..]).collect();
        assert_eq!(all.len(), 3);
        for (got, want) in all.iter().zip(attributes.iter()) {
            assert_eq!(got.packet(), want.packet());
        }
        len += 1;
    }
}
