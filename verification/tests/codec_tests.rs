use bytes::BytesMut;
use pnetlink::packet::netlink::{NetlinkMsgFlags, NetlinkPacket};
use pnetlink::tokio::{CodecError, NetlinkCodec, NetlinkRequestBuilder};

fn message(kind: u16, seq: u32, payload: &[u8]) -> Vec<u8> {
    let mut b = Vec::new();
    b.extend_from_slice(&((16 + payload.len()) as u32).to_ne_bytes());
    b.extend_from_slice(&kind.to_ne_bytes());
    b.extend_from_slice(&0u16.to_ne_bytes());
    b.extend_from_slice(&seq.to_ne_bytes());
    b.extend_from_slice(&0u32.to_ne_bytes());
    b.extend_from_slice(payload);
    b
}

#[test]
fn decode_of_an_empty_buffer_yields_nothing() {
    let mut codec = NetlinkCodec {};
    let mut buf = BytesMut::new();
    assert!(matches!(codec.decode(&mut buf), Ok(None)));
    assert_eq!(buf.len(), 0);
}

#[test]
fn decode_of_less_than_a_header_is_malformed() {
    let mut codec = NetlinkCodec {};
    let mut buf = BytesMut::from(vec![1u8; 15]);
    assert!(matches!(codec.decode(&mut buf), Err(CodecError::Malformed)));
    assert_eq!(&buf[..], &[1u8; 15][..]);
    let mut one = BytesMut::from(vec![0u8]);
    assert!(matches!(codec.decode(&mut one), Err(CodecError::Malformed)));
}

#[test]
fn decode_waits_for_the_whole_message_and_its_padding() {
    let mut codec = NetlinkCodec {};
    let msg = message(42, 1, &[1, 2, 3, 4, 5]);
    let mut buf = BytesMut::from(msg[..20].to_vec());
    assert!(matches!(codec.decode(&mut buf), Ok(None)));
    assert_eq!(buf.len(), 20);
    buf.extend_from_slice(&msg[20..]);
    assert!(matches!(codec.decode(&mut buf), Ok(None)));
    assert_eq!(buf.len(), 21);
    buf.extend_from_slice(&[0, 0]);
    assert!(matches!(codec.decode(&mut buf), Ok(None)));
    buf.extend_from_slice(&[0, 7, 7]);
    let pkt = codec.decode(&mut buf).unwrap().unwrap();
    assert_eq!(pkt.packet(), &msg[..]);
    assert_eq!(&buf[..], &[7, 7][..]);
}

#[test]
fn decode_takes_one_message_at_a_time() {
    let mut codec = NetlinkCodec {};
    let first = message(42, 1, &[1, 2, 3, 4]);
    let second = message(43, 2, &[]);
    let mut bytes = first.clone();
    bytes.extend_from_slice(&second);
    let mut buf = BytesMut::from(bytes);
    assert_eq!(codec.decode(&mut buf).unwrap().unwrap().packet(), &first[..]);
    assert_eq!(&buf[..], &second[..]);
    assert_eq!(codec.decode(&mut buf).unwrap().unwrap().packet(), &second[..]);
    assert_eq!(buf.len(), 0);
    assert!(matches!(codec.decode(&mut buf), Ok(None)));
}

#[test]
fn decode_drops_a_message_with_a_length_under_the_header_size() {
    let mut codec = NetlinkCodec {};
    let mut bad = message(42, 1, &[]);
    bad[..4].copy_from_slice(&6u32.to_ne_bytes());
    let mut buf = BytesMut::from(bad.clone());
    assert!(matches!(codec.decode(&mut buf), Ok(None)));
    assert_eq!(&buf[..], &bad[8..]);
    let mut zero = message(42, 1, &[]);
    zero[..4].copy_from_slice(&0u32.to_ne_bytes());
    let mut stuck = BytesMut::from(zero.clone());
    assert!(matches!(codec.decode(&mut stuck), Ok(None)));
    assert_eq!(&stuck[..], &zero[..]);
}

#[test]
fn encode_appends_the_message() {
    let mut codec = NetlinkCodec {};
    let msg = message(42, 1, &[1, 2, 3]);
    let mut buf = BytesMut::from(vec![9u8, 9]);
    codec.encode(NetlinkPacket::owned(msg.clone()).unwrap(), &mut buf);
    let mut expected = vec![9u8, 9];
    expected.extend_from_slice(&msg);
    assert_eq!(&buf[..], &expected[..]);
    let mut big = BytesMut::new();
    let long = message(42, 2, &[5; 4000]);
    codec.encode(NetlinkPacket::owned(long.clone()).unwrap(), &mut big);
    assert_eq!(&big[..], &long[..]);
}

#[test]
fn what_is_encoded_is_decoded() {
    let mut codec = NetlinkCodec {};
    let req = NetlinkRequestBuilder::new(18, NetlinkMsgFlags::new(NetlinkMsgFlags::NLM_F_DUMP))
        .append(&[0; 16])
        .build();
    let bytes = req.packet().to_vec();
    let mut buf = BytesMut::new();
    codec.encode(req, &mut buf);
    let back = codec.decode(&mut buf).unwrap().unwrap();
    assert_eq!(back.packet(), &bytes[..]);
    assert_eq!(back.get_kind(), 18);
    assert_eq!(buf.len(), 0);
}
