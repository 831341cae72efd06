//! Messages, bytes and text.

use raft_broker::bytes::{decode_be, encode_be};
use raft_broker::message::{Header, Message, MessageType};
use raft_broker::text::{read_decimal, write_decimal};

fn message(msg_type: MessageType, saddr: u32, daddr: u32, id: u32, payload: &[u8]) -> Message {
    Message {
        header: Header { msg_type, saddr, daddr, id },
        payload: payload.to_vec(),
    }
}

#[test]
fn encoding_has_a_fixed_layout() {
    let bytes = message(MessageType::PushReq, 1, 258, 0xdead_beef, b"hi").to_bytes();
    assert_eq!(
        bytes,
        vec![2, 0, 0, 0, 1, 0, 0, 1, 2, 0xde, 0xad, 0xbe, 0xef, b'h', b'i']
    );
}

#[test]
fn decoding_gives_back_what_was_encoded() {
    let types = [
        MessageType::SendReq,
        MessageType::FreeReq,
        MessageType::PushReq,
        MessageType::HeloReq,
        MessageType::Other,
    ];
    for msg_type in types {
        let original = message(msg_type, 7, u32::MAX, 3, b"payload");
        let decoded = Message::from_bytes(&original.to_bytes()).unwrap();
        assert_eq!(decoded.header, original.header);
        assert_eq!(decoded.payload, original.payload);
    }
}

#[test]
fn encoding_gives_back_what_was_decoded() {
    let bytes = vec![3, 0, 0, 0, 9, 0, 0, 0, 8, 0, 0, 0, 7, 1, 2, 3];
    assert_eq!(Message::from_bytes(&bytes).unwrap().to_bytes(), bytes);
}

#[test]
fn short_bytes_encode_no_message() {
    assert!(Message::from_bytes(&[]).is_none());
    assert!(Message::from_bytes(&[0; 12]).is_none());
    assert!(Message::from_bytes(&[0; 13]).is_some());
}

#[test]
fn unknown_types_encode_no_message() {
    let mut bytes = message(MessageType::Other, 1, 2, 3, b"").to_bytes();
    assert_eq!(bytes[0], 4);
    bytes[0] = 5;
    assert!(Message::from_bytes(&bytes).is_none());
}

#[test]
fn codes_and_types_correspond() {
    assert_eq!(MessageType::SendReq.code(), 0);
    assert_eq!(MessageType::FreeReq.code(), 1);
    assert_eq!(MessageType::of_code(3), Some(MessageType::HeloReq));
    assert_eq!(MessageType::of_code(5), None);
}

#[test]
fn the_type_of_a_header_can_be_changed() {
    let mut header = Header { msg_type: MessageType::SendReq, saddr: 1, daddr: 2, id: 3 };
    header.change_msg_type(MessageType::PushReq);
    assert_eq!(header.msg_type(), MessageType::PushReq);
    assert_eq!((header.saddr, header.daddr, header.id), (1, 2, 3));
}

#[test]
fn big_endian_numbers() {
    assert_eq!(encode_be(0x0102_0304, 4), vec![1, 2, 3, 4]);
    assert_eq!(encode_be(0x0102_0304, 8), vec![0, 0, 0, 0, 1, 2, 3, 4]);
    assert_eq!(decode_be(&[9, 1, 2, 9], 1, 3), 258);
    assert_eq!(decode_be(&encode_be(u64::MAX, 8), 0, 8), u64::MAX);
}

#[test]
fn decimal_numbers_are_written() {
    assert_eq!(write_decimal(0), "0");
    assert_eq!(write_decimal(9), "9");
    assert_eq!(write_decimal(10), "10");
    assert_eq!(write_decimal(6555), "6555");
    assert_eq!(write_decimal(u64::MAX), "18446744073709551615");
}

#[test]
fn decimal_numbers_are_read() {
    let numbers = [
        ("0", Some(0)),
        ("5555", Some(5555)),
        ("+5555", Some(5555)),
        ("007", Some(7)),
        ("18446744073709551615", Some(u64::MAX)),
        ("18446744073709551616", None),
        ("184467440737095516150", None),
        ("", None),
        ("+", None),
        ("-1", None),
        ("12a", None),
        (" 1", None),
    ];
    for (text, value) in numbers {
        assert_eq!(read_decimal(text, 0, text.chars().count()), value, "{text}");
        assert_eq!(text.parse::<u64>().ok(), value, "{text}");
    }
    assert_eq!(read_decimal("ab12cd", 2, 4), Some(12));
}

#[test]
fn written_numbers_are_read() {
    for value in [0, 1, 10, 99, 100, 65_535, u64::MAX] {
        let text = write_decimal(value);
        assert_eq!(read_decimal(&text, 0, text.len()), Some(value));
        assert_eq!(text, format!("{value}"));
    }
}
