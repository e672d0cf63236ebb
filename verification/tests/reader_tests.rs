use pnetlink::packet::netlink::{
    NetlinkBufIterator, NetlinkPacket, NetlinkReader, NetlinkReaderState, ReadEvent, ReaderAction,
    ReaderError, NLMSG_DONE, NLMSG_ERROR, NLMSG_NOOP, NLMSG_OVERRUN,
};

fn message(kind: u16, seq: u32, payload: &[u8]) -> Vec<u8> {
    let mut b = Vec::new();
    b.extend_from_slice(&((16 + payload.len()) as u32).to_ne_bytes());
    b.extend_from_slice(&kind.to_ne_bytes());
    b.extend_from_slice(&0u16.to_ne_bytes());
    b.extend_from_slice(&seq.to_ne_bytes());
    b.extend_from_slice(&0u32.to_ne_bytes());
    b.extend_from_slice(payload);
    b
}

fn padded(mut bytes: Vec<u8>) -> Vec<u8> {
    while bytes.len() % 4 != 0 {
        bytes.push(0);
    }
    bytes
}

fn stream(messages: &[Vec<u8>]) -> Vec<u8> {
    let mut s = Vec::new();
    for m in messages {
        s.extend_from_slice(&padded(m.clone()));
    }
    s
}

fn session(chunks: Vec<Vec<u8>>) -> NetlinkBufIterator {
    NetlinkReader::new().into_iter(chunks)
}

fn bytes_of(list: &[NetlinkPacket<'static>]) -> Vec<Vec<u8>> {
    list.iter().map(|p| p.packet().to_vec()).collect()
}

fn split(bytes: &[u8], size: usize) -> Vec<Vec<u8>> {
    bytes.chunks(size).map(|c| c.to_vec()).collect()
}

fn expect_message(action: ReaderAction) -> NetlinkPacket<'static> {
    match action {
        ReaderAction::Message(pkt) => pkt,
        other => panic!("message expected, got {:?}", other),
    }
}

#[test]
fn a_fresh_reader_asks_for_a_read() {
    let mut reader = NetlinkReader::new();
    assert_eq!(reader.state(), NetlinkReaderState::NeedMore);
    assert!(matches!(reader.poll(), ReaderAction::Read));
    assert_eq!(reader.state(), NetlinkReaderState::NeedMore);
}

#[test]
fn three_messages_ending_in_done() {
    let messages = vec![
        message(42, 1, &[1, 2, 3, 4]),
        message(42, 2, &[5, 6, 7, 8, 9]),
        message(NLMSG_DONE, 3, &[0, 0, 0, 0]),
    ];
    let mut iter = session(vec![stream(&messages)]);
    let first = iter.next().unwrap();
    assert_eq!(first.get_kind(), 42);
    assert_eq!(first.packet(), &messages[0][..]);
    let second = iter.next().unwrap();
    assert_eq!(second.get_kind(), 42);
    assert_eq!(second.packet(), &messages[1][..]);
    let third = iter.next().unwrap();
    assert_eq!(third.get_kind(), NLMSG_DONE);
    assert_eq!(third.packet(), &messages[2][..]);
    assert!(iter.next().is_none());
    assert!(iter.next().is_none());
}

#[test]
fn the_machine_yields_three_messages_and_ends() {
    let messages = vec![
        message(42, 1, &[1]),
        message(42, 2, &[2, 2]),
        message(NLMSG_DONE, 3, &[]),
    ];
    let mut reader = NetlinkReader::new();
    assert!(matches!(reader.poll(), ReaderAction::Read));
    reader.feed(&stream(&messages));
    assert_eq!(reader.state(), NetlinkReaderState::Parsing);
    assert_eq!(expect_message(reader.poll()).packet(), &messages[0][..]);
    assert_eq!(reader.state(), NetlinkReaderState::Parsing);
    assert_eq!(expect_message(reader.poll()).packet(), &messages[1][..]);
    assert_eq!(expect_message(reader.poll()).get_kind(), NLMSG_DONE);
    assert_eq!(reader.state(), NetlinkReaderState::Done);
    assert!(matches!(reader.poll(), ReaderAction::End));
    assert!(matches!(reader.poll(), ReaderAction::End));
}

#[test]
fn nothing_is_yielded_behind_done() {
    let messages = vec![message(NLMSG_DONE, 1, &[]), message(42, 2, &[])];
    let list = session(vec![stream(&messages)]).collect();
    assert_eq!(bytes_of(&list), vec![messages[0].clone()]);
}

#[test]
fn an_error_message_is_yielded_and_decodes_to_its_code() {
    let mut payload = (-13i32).to_ne_bytes().to_vec();
    payload.extend_from_slice(&message(18, 7, &[]));
    let error = message(NLMSG_ERROR, 7, &payload);
    let mut iter = session(vec![error.clone()]);
    let pkt = iter.next().unwrap();
    assert_eq!(pkt.get_kind(), NLMSG_ERROR);
    assert_eq!(pkt.packet(), &error[..]);
    assert_eq!(pkt.to_result(), Some(13));
    assert!(iter.next().is_none());
}

#[test]
fn the_session_ends_with_an_error_message() {
    let mut payload = 0i32.to_ne_bytes().to_vec();
    payload.extend_from_slice(&message(18, 7, &[]));
    let ack = message(NLMSG_ERROR, 7, &payload);
    let messages = vec![message(42, 1, &[]), ack.clone(), message(42, 3, &[])];
    let mut reader = NetlinkReader::new();
    reader.feed(&stream(&messages));
    assert_eq!(expect_message(reader.poll()).get_seq(), 1);
    assert_eq!(expect_message(reader.poll()).packet(), &ack[..]);
    assert_eq!(reader.state(), NetlinkReaderState::Error);
    assert!(matches!(reader.poll(), ReaderAction::End));
}

fn sample_stream() -> (Vec<Vec<u8>>, Vec<u8>) {
    let messages = vec![
        message(42, 1, &[1, 2, 3, 4, 5]),
        message(16, 2, &[]),
        message(NLMSG_NOOP, 3, &[9, 9]),
        message(42, 4, &[7; 33]),
        message(20, 5, &[1, 2]),
        message(NLMSG_DONE, 6, &[0, 0, 0, 0]),
    ];
    let bytes = stream(&messages);
    (messages, bytes)
}

#[test]
fn one_byte_at_a_time_yields_the_same_messages() {
    let (messages, bytes) = sample_stream();
    let whole = session(vec![bytes.clone()]).collect();
    let single = session(split(&bytes, 1)).collect();
    assert_eq!(bytes_of(&whole), bytes_of(&single));
    let mut expected = messages.clone();
    expected.remove(2);
    assert_eq!(bytes_of(&whole), expected);
}

#[test]
fn every_chunk_size_yields_the_same_messages() {
    let (_, bytes) = sample_stream();
    let whole = bytes_of(&session(vec![bytes.clone()]).collect());
    assert_eq!(whole.len(), 5);
    let mut size = 1usize;
    while size <= bytes.len() + 1 {
        assert_eq!(bytes_of(&session(split(&bytes, size)).collect()), whole);
        size += 1;
    }
}

#[test]
fn uneven_chunks_yield_the_same_messages() {
    let (_, bytes) = sample_stream();
    let whole = bytes_of(&session(vec![bytes.clone()]).collect());
    let mut seed: u32 = 12345;
    let mut round = 0;
    while round < 50 {
        let mut chunks = Vec::new();
        let mut at = 0usize;
        while at < bytes.len() {
            seed = seed.wrapping_mul(1103515245).wrapping_add(12345);
            let size = 1 + (seed >> 16) as usize % 23;
            let end = std::cmp::min(bytes.len(), at + size);
            chunks.push(bytes[at..end].to_vec());
            at = end;
        }
        assert_eq!(bytes_of(&session(chunks).collect()), whole);
        round += 1;
    }
}

#[test]
fn padding_that_arrives_late_is_skipped() {
    let first = message(42, 1, &[1]);
    let second = message(43, 2, &[2]);
    let mut reader = NetlinkReader::new();
    reader.feed(&first);
    assert_eq!(expect_message(reader.poll()).packet(), &first[..]);
    assert!(matches!(reader.poll(), ReaderAction::Read));
    reader.feed(&[0, 0]);
    assert!(matches!(reader.poll(), ReaderAction::Read));
    let mut rest = vec![0u8];
    rest.extend_from_slice(&second);
    reader.feed(&rest);
    assert_eq!(expect_message(reader.poll()).packet(), &second[..]);
}

#[test]
fn an_empty_read_ends_the_stream() {
    let mut reader = NetlinkReader::new();
    assert!(matches!(reader.poll(), ReaderAction::Read));
    reader.feed(&[]);
    assert_eq!(reader.state(), NetlinkReaderState::Done);
    assert!(matches!(reader.poll(), ReaderAction::End));
    let mut iter = session(vec![]);
    assert!(matches!(iter.read_netlink(), Ok(None)));
    assert!(iter.next().is_none());
}

#[test]
fn an_empty_chunk_ends_the_stream() {
    let chunks = vec![message(42, 1, &[]), vec![], message(42, 2, &[])];
    let list = session(chunks).collect();
    assert_eq!(list.len(), 1);
    assert_eq!(list[0].get_seq(), 1);
}

#[test]
fn a_partial_message_at_the_end_is_not_yielded() {
    let whole = message(42, 1, &[1, 2, 3, 4]);
    let mut bytes = whole.clone();
    bytes.extend_from_slice(&message(42, 2, &[1, 2, 3, 4])[..19]);
    let list = session(vec![bytes]).collect();
    assert_eq!(bytes_of(&list), vec![whole.clone()]);
    let mut header_cut = whole.clone();
    header_cut.extend_from_slice(&message(42, 2, &[])[..7]);
    assert_eq!(session(vec![header_cut]).collect().len(), 1);
}

#[test]
fn a_partial_message_waits_for_more() {
    let msg = message(42, 1, &[1, 2, 3, 4]);
    let mut reader = NetlinkReader::new();
    reader.feed(&msg[..10]);
    assert!(matches!(reader.poll(), ReaderAction::Read));
    assert_eq!(reader.state(), NetlinkReaderState::NeedMore);
    reader.feed(&msg[10..19]);
    assert!(matches!(reader.poll(), ReaderAction::Read));
    reader.feed(&msg[19..]);
    assert_eq!(expect_message(reader.poll()).packet(), &msg[..]);
}

#[test]
fn noop_messages_are_skipped() {
    let messages = vec![
        message(NLMSG_NOOP, 1, &[]),
        message(NLMSG_NOOP, 2, &[1, 2, 3]),
        message(42, 3, &[]),
        message(NLMSG_NOOP, 4, &[]),
    ];
    let mut reader = NetlinkReader::new();
    reader.feed(&stream(&messages));
    assert_eq!(expect_message(reader.poll()).get_seq(), 3);
    assert!(matches!(reader.poll(), ReaderAction::Read));
    assert_eq!(reader.state(), NetlinkReaderState::NeedMore);
}

#[test]
fn overrun_is_a_fatal_error() {
    let messages = vec![message(42, 1, &[]), message(NLMSG_OVERRUN, 2, &[]), message(42, 3, &[])];
    let mut reader = NetlinkReader::new();
    reader.feed(&stream(&messages));
    assert_eq!(expect_message(reader.poll()).get_seq(), 1);
    assert!(matches!(reader.poll(), ReaderAction::Overrun));
    assert_eq!(reader.state(), NetlinkReaderState::Error);
    assert!(matches!(reader.poll(), ReaderAction::End));

    let mut iter = session(vec![stream(&messages)]);
    assert!(matches!(iter.read_netlink(), Ok(Some(_))));
    assert!(matches!(iter.read_netlink(), Err(ReaderError::Overrun)));
    assert!(matches!(iter.read_netlink(), Ok(None)));
    assert_eq!(session(vec![stream(&messages)]).collect().len(), 1);
}

#[test]
fn a_length_under_the_header_size_stops_the_reader() {
    let mut bad = message(42, 2, &[]);
    bad[..4].copy_from_slice(&0u32.to_ne_bytes());
    let mut bytes = message(42, 1, &[]);
    bytes.extend_from_slice(&bad);
    bytes.extend_from_slice(&message(42, 3, &[]));
    let mut reader = NetlinkReader::new();
    reader.feed(&bytes);
    assert_eq!(expect_message(reader.poll()).get_seq(), 1);
    assert!(matches!(reader.poll(), ReaderAction::End));
    assert!(matches!(reader.poll(), ReaderAction::End));
    assert_eq!(session(vec![bytes.clone()]).collect().len(), 1);
    let mut short = message(42, 2, &[]);
    short[..4].copy_from_slice(&15u32.to_ne_bytes());
    assert_eq!(session(vec![short]).collect().len(), 0);
}

#[test]
fn would_block_leaves_the_reader_as_it_is() {
    let msg = message(42, 1, &[1, 2, 3, 4]);
    let mut reader = NetlinkReader::new();
    reader.on_read(ReadEvent::Data(&msg[..10]));
    assert!(matches!(reader.poll(), ReaderAction::Read));
    reader.on_read(ReadEvent::WouldBlock);
    assert_eq!(reader.state(), NetlinkReaderState::NeedMore);
    assert!(matches!(reader.poll(), ReaderAction::Read));
    reader.on_read(ReadEvent::Data(&msg[10..]));
    assert_eq!(expect_message(reader.poll()).packet(), &msg[..]);
}

#[test]
fn a_failed_read_ends_the_session() {
    let mut reader = NetlinkReader::new();
    reader.feed(&message(42, 1, &[])[..5]);
    assert!(matches!(reader.poll(), ReaderAction::Read));
    reader.on_read(ReadEvent::Failed);
    assert_eq!(reader.state(), NetlinkReaderState::Error);
    assert!(matches!(reader.poll(), ReaderAction::End));
    let mut other = NetlinkReader::new();
    other.fail();
    assert!(matches!(other.poll(), ReaderAction::End));
}

#[test]
fn events_without_a_request_are_ignored() {
    let done = message(NLMSG_DONE, 1, &[]);
    let mut reader = NetlinkReader::new();
    reader.feed(&done);
    assert_eq!(expect_message(reader.poll()).get_kind(), NLMSG_DONE);
    reader.feed(&message(42, 2, &[]));
    assert_eq!(reader.state(), NetlinkReaderState::Done);
    reader.fail();
    assert_eq!(reader.state(), NetlinkReaderState::Done);
    assert!(matches!(reader.poll(), ReaderAction::End));
    let mut parsing = NetlinkReader::new();
    parsing.feed(&message(42, 1, &[]));
    parsing.feed(&message(42, 2, &[]));
    parsing.fail();
    assert_eq!(parsing.state(), NetlinkReaderState::Parsing);
    assert_eq!(expect_message(parsing.poll()).get_seq(), 1);
    assert!(matches!(parsing.poll(), ReaderAction::Read));
}

#[test]
fn the_yielded_message_does_not_change_with_the_reader() {
    let first = message(42, 1, &[1, 2, 3]);
    let mut reader = NetlinkReader::new();
    reader.feed(&padded(first.clone()));
    let pkt = expect_message(reader.poll());
    assert!(matches!(reader.poll(), ReaderAction::Read));
    reader.feed(&message(43, 2, &[9; 64]));
    let _ = reader.poll();
    assert_eq!(pkt.packet(), &first[..]);
}

fn error_message(code: i32, seq: u32) -> Vec<u8> {
    let mut payload = code.to_ne_bytes().to_vec();
    payload.extend_from_slice(&message(18, seq, &[]));
    message(NLMSG_ERROR, seq, &payload)
}

#[test]
fn read_to_end_is_ok_without_errors() {
    let messages = vec![message(42, 1, &[]), message(NLMSG_DONE, 2, &[])];
    assert_eq!(NetlinkReader::new().read_to_end(vec![stream(&messages)]), Ok(()));
    assert_eq!(NetlinkReader::new().read_to_end(vec![]), Ok(()));
    assert_eq!(NetlinkReader::new().read_to_end(vec![error_message(0, 1)]), Ok(()));
    assert_eq!(NetlinkReader::new().read_to_end(split(&stream(&messages), 3)), Ok(()));
}

#[test]
fn read_to_end_gives_the_first_error_code() {
    let messages = vec![message(42, 1, &[]), error_message(-17, 2), error_message(-2, 3)];
    assert_eq!(
        NetlinkReader::new().read_to_end(vec![stream(&messages)]),
        Err(ReaderError::Errno(17))
    );
    assert_eq!(
        NetlinkReader::new().read_to_end(split(&error_message(-1, 5), 1)),
        Err(ReaderError::Errno(1))
    );
}

#[test]
fn read_to_end_reports_an_overrun() {
    let messages = vec![message(42, 1, &[]), message(NLMSG_OVERRUN, 2, &[])];
    assert_eq!(
        NetlinkReader::new().read_to_end(vec![stream(&messages)]),
        Err(ReaderError::Overrun)
    );
    let late = vec![error_message(-5, 1), message(NLMSG_OVERRUN, 2, &[])];
    assert_eq!(NetlinkReader::new().read_to_end(vec![stream(&late)]), Err(ReaderError::Errno(5)));
}
