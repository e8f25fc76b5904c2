//! Tests of the wire codec for protocol messages.

use minnehack_check_in::blockchain::{zero_hash, Block, Chain};
use minnehack_check_in::p2p::{Message, SockAddr};

fn round_trip(msg: &Message) -> Message {
    let wire = msg.serialize();
    Message::parse_from(&wire).expect("failed to parse")
}

fn sample_block() -> Block {
    Chain::new().genesis().create_at(42, b"hello".to_vec())
}

#[test]
fn serialize_parse_is_identity() {
    let v4 = SockAddr::V4([192, 168, 0, 1], 10101);
    let v6 = SockAddr::V6([0, 1, 2, 3, 4, 5, 6, 7, 8, 9, 10, 11, 12, 13, 14, 15], 443);
    let messages = vec![
        Message::Ping,
        Message::Pong,
        Message::PeerRequest,
        Message::PeerResponse(Vec::new()),
        Message::PeerResponse(vec![v4]),
        Message::PeerResponse(vec![v6, v4, v6]),
        Message::PeerResponse(vec![v4; 8]),
        Message::StatusRequest,
        Message::StatusResponse(zero_hash(), 7, minnehack_check_in::blockchain::Hash([9u8; 32])),
        Message::BlockRequest(0xdead_beef),
        Message::BlockResponse(sample_block()),
        Message::BlockAnnounce(sample_block()),
    ];
    for msg in &messages {
        assert_eq!(&round_trip(msg), msg);
    }
}

#[test]
fn message_tags() {
    assert_eq!(Message::Ping.serialize(), vec![0x00]);
    assert_eq!(Message::Pong.serialize(), vec![0x01]);
    assert_eq!(Message::PeerRequest.serialize(), vec![0x02]);
    assert_eq!(Message::PeerResponse(Vec::new()).serialize(), vec![0x03, 0x00]);
    assert_eq!(Message::StatusRequest.serialize(), vec![0x04]);
    let wire = Message::BlockRequest(2).serialize();
    assert_eq!(wire, vec![0x06, 2, 0, 0, 0, 0, 0, 0, 0]);
}

#[test]
fn addresses_on_the_wire() {
    let v4 = SockAddr::V4([10, 0, 0, 2], 0x1234);
    let wire = Message::PeerResponse(vec![v4]).serialize();
    assert_eq!(wire, vec![0x03, 1, 0x04, 10, 0, 0, 2, 0x34, 0x12]);
}

#[test]
fn parse_rejects_bad_datagrams() {
    assert_eq!(Message::parse_from(&[]), None);
    // An unknown tag.
    assert_eq!(Message::parse_from(&[0x09]), None);
    // Trailing bytes after a complete message.
    assert_eq!(Message::parse_from(&[0x00, 0x00]), None);
    // A peer count above the cap of eight.
    let mut wire = vec![0x03, 9];
    for _ in 0..9 {
        wire.extend_from_slice(&[0x04, 1, 2, 3, 4, 0, 1]);
    }
    assert_eq!(Message::parse_from(&wire), None);
    // A peer count larger than the data supplied.
    assert_eq!(Message::parse_from(&[0x03, 1]), None);
    // A status response cut short.
    assert_eq!(Message::parse_from(&[0x05, 0, 0, 0]), None);
    // A block response whose data length field overruns the buffer.
    let block = sample_block();
    let mut wire = Message::BlockResponse(block).serialize();
    wire[1 + 48] = 200;
    assert_eq!(Message::parse_from(&wire), None);
}
