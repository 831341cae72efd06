//! Frames, greetings, addresses and requests.

use raft_broker::client::{format_request, parse_msg_type, Args, Request};
use raft_broker::channel::Refused;
use raft_broker::cluster::{
    connections_to_accept, leads_at_first, pair_connections, peer_id, ports_to_connect,
    read_endpoint, write_address, Enrollment,
};
use raft_broker::consensus::ConfChangeType;
use raft_broker::message::{Header, Message, MessageType};
use raft_broker::proposal::Proposal;
use raft_broker::transport::{
    bytes_wanted, check_signals, decode_greeting, encode_greeting, frame_header, frame_length,
    on_read, ReadAction, ReadEvent, Reading, Signal, SignalPoll,
};
use std::collections::VecDeque;

/// Reads a stream until there is not enough of it left. Gives the payload of each
/// frame by its length, and the types of the messages that were found.
fn read_stream(stream: &[u8]) -> (Vec<usize>, Vec<i32>) {
    let mut reading = Reading::Length;
    let mut at = 0;
    let mut sizes = vec![];
    let mut types = vec![];
    loop {
        let size = bytes_wanted(reading);
        if at + size > stream.len() {
            return (sizes, types);
        }
        if reading != Reading::Length {
            sizes.push(size);
        }
        let bytes = stream[at..at + size].to_vec();
        at += size;
        let (next, action) = on_read(reading, ReadEvent::Filled { bytes });
        if let ReadAction::Deliver { message } = action {
            types.push(message.msg_type);
        }
        reading = next;
    }
}

/// A heartbeat for node 2 in term 3, as raft encodes it.
fn heartbeat() -> Vec<u8> {
    let mut message = raft::eraftpb::Message::default();
    message.set_msg_type(raft::eraftpb::MessageType::MsgHeartbeat);
    message.set_to(2);
    message.set_from(1);
    message.set_term(3);
    protobuf::Message::write_to_bytes(&message).unwrap()
}

#[test]
fn frame_lengths_have_four_bytes() {
    assert_eq!(frame_header(258), Some(vec![0, 0, 1, 2]));
    assert_eq!(frame_header(0), Some(vec![0; 4]));
    assert_eq!(frame_header(0xffff_ffff), Some(vec![0xff; 4]));
    if usize::BITS == 64 {
        assert_eq!(frame_header(1 << 32), None);
    }
    assert_eq!(frame_length(&[0, 0, 1, 2]), 258);
    assert_eq!(frame_length(&[0xff; 4]), 0xffff_ffff);
}

#[test]
fn written_frames_are_found() {
    let mut stream = vec![];
    for payload in [heartbeat(), vec![], heartbeat()] {
        stream.extend(frame_header(payload.len()).unwrap());
        stream.extend(payload);
    }
    let (sizes, types) = read_stream(&stream);
    assert_eq!(sizes, vec![heartbeat().len(), 0, heartbeat().len()]);
    // What encodes as nothing is a message of type 0.
    assert_eq!(types, vec![8, 0, 8]);
}

#[test]
fn reading_follows_the_frames() {
    let (next, action) = on_read(Reading::Length, ReadEvent::Filled { bytes: vec![0, 0, 0, 9] });
    assert_eq!(next, Reading::Payload { size: 9 });
    assert!(matches!(action, ReadAction::Continue));
    assert_eq!(bytes_wanted(next), 9);
    assert_eq!(bytes_wanted(Reading::Length), 4);
}

#[test]
fn reading_a_length_yields_and_stops() {
    let (next, action) = on_read(Reading::Length, ReadEvent::WouldBlock);
    assert_eq!(next, Reading::Length);
    assert!(matches!(action, ReadAction::Yield));
    let (_, action) = on_read(Reading::Length, ReadEvent::Failed);
    assert!(matches!(action, ReadAction::Stop));
}

#[test]
fn reading_a_payload_goes_on() {
    let reading = Reading::Payload { size: 3 };
    let (next, action) = on_read(reading, ReadEvent::WouldBlock);
    assert_eq!(next, reading);
    assert!(matches!(action, ReadAction::Continue));
    let (next, action) = on_read(reading, ReadEvent::Failed);
    assert_eq!(next, Reading::Length);
    assert!(matches!(action, ReadAction::Yield));
}

#[test]
fn payloads_are_delivered_or_dropped() {
    let bytes = heartbeat();
    let reading = Reading::Payload { size: bytes.len() };
    let (next, action) = on_read(reading, ReadEvent::Filled { bytes: bytes.clone() });
    assert_eq!(next, Reading::Length);
    match action {
        ReadAction::Deliver { message } => {
            assert_eq!(message.to, 2);
            assert_eq!(message.msg_type, 8);
            assert_eq!(message.term, 3);
            assert_eq!(message.commit, 0);
            assert_eq!(message.bytes, bytes);
        }
        _ => panic!("the message was not delivered"),
    }
    let reading = Reading::Payload { size: 3 };
    let (next, action) = on_read(reading, ReadEvent::Filled { bytes: vec![0xff; 3] });
    assert_eq!(next, Reading::Length);
    assert!(matches!(action, ReadAction::Yield));
}

#[test]
fn greetings_carry_the_port() {
    let bytes = encode_greeting(6556);
    assert_eq!(bytes, vec![0, 0, 0, 8, 0, 0, 0, 0, 0, 0, 0x19, 0x9c]);
    assert_eq!(frame_length(&bytes[..4]), 8);
    assert_eq!(decode_greeting(&bytes[4..]), Some(6556));
    assert_eq!(decode_greeting(&encode_greeting(u64::MAX)[4..]), Some(u64::MAX));
    assert_eq!(decode_greeting(&[0; 7]), None);
}

#[test]
fn signals_end_the_work() {
    assert!(check_signals(SignalPoll::Received(Signal::Terminate)));
    assert!(!check_signals(SignalPoll::Empty));
    assert!(check_signals(SignalPoll::Disconnected));
}

#[test]
fn raft_ports_lie_above_client_ports() {
    let endpoint = read_endpoint("127.0.0.1:5555").unwrap();
    assert_eq!(endpoint.host, "127.0.0.1");
    assert_eq!(endpoint.port, 6555);
    let endpoint = read_endpoint("broker:+5556:ignored").unwrap();
    assert_eq!(endpoint.host, "broker");
    assert_eq!(endpoint.port, 6556);
    assert_eq!(read_endpoint(":1").unwrap().host, "");
}

#[test]
fn addresses_without_a_port_are_refused() {
    assert!(read_endpoint("127.0.0.1").is_none());
    assert!(read_endpoint("127.0.0.1:").is_none());
    assert!(read_endpoint("127.0.0.1:port").is_none());
    assert!(read_endpoint("127.0.0.1:-5").is_none());
    assert!(read_endpoint("h:18446744073709551615").is_none());
    assert_eq!(read_endpoint("h:18446744073709550615").unwrap().port, u64::MAX);
}

#[test]
fn written_addresses_are_read() {
    assert_eq!(write_address("127.0.0.1", 6557), "127.0.0.1:6557");
    let endpoint = read_endpoint(&write_address("localhost", 5555)).unwrap();
    assert_eq!(endpoint.host, "localhost");
    assert_eq!(endpoint.port, 6555);
}

#[test]
fn peers_are_the_other_ports() {
    assert_eq!(ports_to_connect(4, 6556), vec![6555, 6557, 6558]);
    assert_eq!(ports_to_connect(1, 6555), Vec::<u64>::new());
    assert_eq!(ports_to_connect(0, 6555), Vec::<u64>::new());
    assert_eq!(ports_to_connect(2, 7000), vec![6555, 6556]);
    assert_eq!(connections_to_accept(4), 3);
    assert_eq!(connections_to_accept(1), 0);
    assert_eq!(connections_to_accept(0), 0);
}

#[test]
fn peers_are_numbered_from_the_leader_on() {
    assert_eq!(peer_id(6555), Some(1));
    assert_eq!(peer_id(6559), Some(5));
    assert_eq!(peer_id(6554), None);
    assert!(leads_at_first(6555));
    assert!(!leads_at_first(6556));
}

#[test]
fn connections_are_paired() {
    assert_eq!(pair_connections(&vec![6555, 6557], &vec![6557, 6555]), Some(vec![1, 3]));
    assert_eq!(pair_connections(&vec![], &vec![6555]), Some(vec![]));
    assert_eq!(pair_connections(&vec![6556], &vec![6555]), None);
    assert_eq!(pair_connections(&vec![6000], &vec![6000]), None);
}

#[test]
fn followers_are_enrolled_one_by_one() {
    let mut proposals = VecDeque::new();
    let mut enrollment = Enrollment::new(3);
    assert_eq!(enrollment.change().unwrap().change_type, ConfChangeType::AddNode);
    let other = Message {
        header: Header { msg_type: MessageType::Other, saddr: 0, daddr: 0, id: 0 },
        payload: vec![],
    };
    let outcomes = [(Ok(Some(other)), 2), (Err(Refused), 2), (Ok(None), 2), (Ok(None), 3)];
    for (i, (outcome, node_id)) in outcomes.into_iter().enumerate() {
        let settled = matches!(outcome, Ok(None));
        let receiver = enrollment.propose_next(&mut proposals).unwrap();
        assert!(enrollment.waiting);
        assert_eq!(proposals.len(), i + 1);
        let proposal: &Proposal = proposals.back().unwrap();
        assert_eq!(proposal.conf_change.as_ref().unwrap().node_id, node_id);
        assert_eq!(proposal.proposed, 0);
        proposal.propose_success.send(outcome).unwrap();
        assert_eq!(enrollment.on_reply(&receiver.recv().unwrap()), !settled);
    }
    assert!(enrollment.change().is_none());
    assert!(enrollment.propose_next(&mut proposals).is_none());
    assert_eq!(proposals.len(), 4);
    assert!(Enrollment::new(1).change().is_none());
    assert!(Enrollment::new(0).change().is_none());
}

#[test]
fn arguments_are_written_line_by_line() {
    let text = Args::default().to_string();
    assert_eq!(
        text,
        "msg_type: MSG_SEND_REQ\nsaddr: 1\ndaddr: 100\nid: 0\nbaddr: 127.0.0.1:21101\nloop_times: 1\n"
    );
}

#[test]
fn request_numbers_end_before_they_overflow() {
    let mut args = Args::default();
    assert_eq!(args.end_of_ids(), Some(1));
    args.id = u32::MAX - 1;
    assert_eq!(args.end_of_ids(), Some(u32::MAX));
    args.loop_times = 2;
    assert_eq!(args.end_of_ids(), None);
}

#[test]
fn message_types_have_names() {
    assert_eq!(parse_msg_type("MSG_SEND_REQ"), Some(MessageType::SendReq));
    assert_eq!(parse_msg_type("MSG_FREE_REQ"), Some(MessageType::FreeReq));
    assert_eq!(parse_msg_type("MSG_PUSH_REQ"), Some(MessageType::PushReq));
    assert_eq!(parse_msg_type("MSG_HELO_REQ"), Some(MessageType::HeloReq));
    assert_eq!(parse_msg_type("msg_send_req"), None);
    assert_eq!(parse_msg_type(""), None);
}

#[test]
fn requests_keep_the_bits_of_their_numbers() {
    let mut args = Args::default();
    args.saddr = 0x8000_0000;
    args.daddr = u32::MAX;
    let request = args.request(7).unwrap();
    assert_eq!(request.msg_type, MessageType::SendReq);
    assert_eq!(request.saddr, i32::MIN);
    assert_eq!(request.daddr, -1);
    assert_eq!(request.id, 7);
    assert_eq!(request.content, "hello");
    args.msg_type = String::from("MSG_UNKNOWN");
    assert!(args.request(7).is_none());
}

#[test]
fn requests_travel_in_a_fixed_length() {
    let request = Args::default().request(258).unwrap();
    let bytes = format_request(&request).unwrap();
    assert_eq!(bytes.len(), 1024);
    let mut expected = vec![0, 0, 0, 0, 1, 0, 0, 0, 100, 0, 0, 0, 2, 1, 0, 0];
    expected.extend([5, 0, 0, 0, 0, 0, 0, 0]);
    expected.extend(b"hello");
    assert_eq!(expected.len(), 29);
    expected.resize(1024, 0);
    assert_eq!(bytes, expected);
}

#[test]
fn long_requests_have_no_such_form() {
    let mut request = Request {
        msg_type: MessageType::HeloReq,
        saddr: -2,
        daddr: 0,
        id: 0,
        content: "x".repeat(1000),
    };
    let bytes = format_request(&request).unwrap();
    assert_eq!(bytes[..8], [3, 0, 0, 0, 0xfe, 0xff, 0xff, 0xff]);
    assert_eq!(bytes[1023], b'x');
    request.content.push('x');
    assert!(format_request(&request).is_none());
    request.content = "é".repeat(501);
    assert!(format_request(&request).is_none());
}
