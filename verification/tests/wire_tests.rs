use pnetlink::packet::{copy_range, push_zeros, PacketData};
use pnetlink::util::align;
use pnetlink::wire::{
    get_i32, get_u16, get_u32, get_u32_be, get_u32_le, push_u16, push_u32, push_u32_be, put_u16,
    put_u32,
};

#[test]
fn align_rounds_up_to_four() {
    assert_eq!(align(0), 0);
    assert_eq!(align(1), 4);
    assert_eq!(align(2), 4);
    assert_eq!(align(3), 4);
    assert_eq!(align(4), 4);
    assert_eq!(align(5), 8);
    assert_eq!(align(16), 16);
    assert_eq!(align(17), 20);
    assert_eq!(align(4096), 4096);
}

#[test]
fn align_is_the_masked_sum_for_every_attribute_length() {
    let mut len: usize = 4;
    while len <= 4096 {
        assert_eq!(align(len), (len + 3) & !3);
        len += 1;
    }
}

#[test]
fn get_u16_reads_in_host_order() {
    let buf = [0xaa, 0x34, 0x12, 0xbb];
    assert_eq!(get_u16(&buf, 1), u16::from_ne_bytes([0x34, 0x12]));
    assert_eq!(get_u16(&buf, 0), u16::from_ne_bytes([0xaa, 0x34]));
    assert_eq!(get_u16(&buf, 2), u16::from_ne_bytes([0x12, 0xbb]));
}

#[test]
fn get_u32_reads_in_host_order() {
    let buf = [0, 0x78, 0x56, 0x34, 0x12, 0xff];
    assert_eq!(get_u32(&buf, 1), u32::from_ne_bytes([0x78, 0x56, 0x34, 0x12]));
    assert_eq!(get_u32(&buf, 2), u32::from_ne_bytes([0x56, 0x34, 0x12, 0xff]));
}

#[test]
fn get_u32_be_reads_most_significant_byte_first() {
    let buf = [9, 127, 0, 0, 1];
    assert_eq!(get_u32_be(&buf, 1), 0x7f00_0001);
    assert_eq!(get_u32_be(&buf, 0), 0x097f_0000);
}

#[test]
fn get_u32_le_reads_least_significant_byte_first() {
    let buf = [9, 0xfe, 0, 0, 0];
    assert_eq!(get_u32_le(&buf, 1), 254);
    assert_eq!(get_u32_le(&buf, 0), 0x0000_fe09);
}

#[test]
fn get_i32_reads_negative_numbers() {
    let minus_thirteen = (-13i32).to_ne_bytes();
    assert_eq!(get_i32(&minus_thirteen, 0), -13);
    assert_eq!(get_i32(&i32::MIN.to_ne_bytes(), 0), i32::MIN);
    assert_eq!(get_i32(&i32::MAX.to_ne_bytes(), 0), i32::MAX);
    assert_eq!(get_i32(&0i32.to_ne_bytes(), 0), 0);
    assert_eq!(get_i32(&(-1i32).to_ne_bytes(), 0), -1);
}

#[test]
fn put_overwrites_only_the_field() {
    let mut buf = vec![1u8, 2, 3, 4, 5, 6, 7, 8];
    put_u16(&mut buf, 3, 0xbeef);
    let w = 0xbeefu16.to_ne_bytes();
    assert_eq!(buf, vec![1, 2, 3, w[0], w[1], 6, 7, 8]);
    put_u32(&mut buf, 4, 0xdead_beef);
    let d = 0xdead_beefu32.to_ne_bytes();
    assert_eq!(buf, vec![1, 2, 3, w[0], d[0], d[1], d[2], d[3]]);
}

#[test]
fn put_then_get_gives_the_number_back() {
    let mut buf = vec![0u8; 12];
    put_u32(&mut buf, 0, 0x0102_0304);
    put_u16(&mut buf, 4, 0xa1b2);
    put_u32(&mut buf, 8, u32::MAX);
    assert_eq!(get_u32(&buf, 0), 0x0102_0304);
    assert_eq!(get_u16(&buf, 4), 0xa1b2);
    assert_eq!(get_u32(&buf, 8), u32::MAX);
    assert_eq!(get_u16(&buf, 6), 0);
}

#[test]
fn push_appends_in_host_order() {
    let mut buf = vec![7u8];
    push_u16(&mut buf, 0x1234);
    push_u32(&mut buf, 0x5678_9abc);
    let mut expected = vec![7u8];
    expected.extend_from_slice(&0x1234u16.to_ne_bytes());
    expected.extend_from_slice(&0x5678_9abcu32.to_ne_bytes());
    assert_eq!(buf, expected);
}

#[test]
fn push_u32_be_appends_most_significant_byte_first() {
    let mut buf = vec![];
    push_u32_be(&mut buf, 0xc0a8_0001);
    assert_eq!(buf, vec![192, 168, 0, 1]);
}

#[test]
fn copy_range_copies_the_range() {
    let src = [1u8, 2, 3, 4, 5];
    assert_eq!(copy_range(&src, 1, 4), vec![2, 3, 4]);
    assert_eq!(copy_range(&src, 0, 0), Vec::<u8>::new());
    assert_eq!(copy_range(&src, 0, 5), src.to_vec());
}

#[test]
fn push_zeros_appends_zeros() {
    let mut buf = vec![1u8];
    push_zeros(&mut buf, 3);
    assert_eq!(buf, vec![1, 0, 0, 0]);
    push_zeros(&mut buf, 0);
    assert_eq!(buf.len(), 4);
}

#[test]
fn packet_data_reads_the_same_owned_or_borrowed() {
    let bytes = [1u8, 2, 3];
    let owned = PacketData::Owned(bytes.to_vec());
    let borrowed = PacketData::Borrowed(&bytes);
    assert_eq!(owned.as_slice(), borrowed.as_slice());
    assert_eq!(owned.len(), 3);
    assert_eq!(borrowed.len(), 3);
}
