//! What bytes, addresses and texts look like, said without the functions that make them.

use crate::channel::Refused;
use crate::client::{Args, Request};
use crate::cluster::{EndpointView, Enrollment};
use crate::consensus::{ConfChangeType, ConfChangeView};
use crate::message::{MessageType, MessageView};
use crate::transport::{ReadEventView, Reading};
use vstd::prelude::*;
use vstd::string::*;

verus! {

/// The number that four bytes spell if the first of them counts most.
pub open spec fn word(b: Seq<u8>) -> int {
    b[0] * 0x100_0000 + b[1] * 0x1_0000 + b[2] * 0x100 + b[3]
}

/// The number that eight bytes spell if the first of them counts most.
pub open spec fn long_word(b: Seq<u8>) -> int {
    word(b.take(4)) * 0x1_0000_0000 + word(b.skip(4))
}

proof fn byte_more(bytes: Seq<u8>, byte: u8)
    ensures
        crate::bytes::be_value(bytes.push(byte)) == crate::bytes::be_value(bytes) * 256 + byte,
{
    assert(bytes.push(byte).drop_last() =~= bytes);
}

/// In four bytes, and in eight, the first byte counts most.
pub proof fn first_byte_counts_most(bytes: Seq<u8>)
    ensures
        bytes.len() == 4 ==> crate::bytes::be_value(bytes) == word(bytes),
        bytes.len() == 8 ==> crate::bytes::be_value(bytes) == long_word(bytes),
    decreases bytes.len(),
{
    if bytes.len() == 4 {
        let e = Seq::<u8>::empty();
        byte_more(e, bytes[0]);
        byte_more(e.push(bytes[0]), bytes[1]);
        byte_more(e.push(bytes[0]).push(bytes[1]), bytes[2]);
        byte_more(e.push(bytes[0]).push(bytes[1]).push(bytes[2]), bytes[3]);
        assert(e.push(bytes[0]).push(bytes[1]).push(bytes[2]).push(bytes[3]) =~= bytes);
    } else if bytes.len() == 8 {
        let high = bytes.take(4);
        first_byte_counts_most(high);
        byte_more(high, bytes[4]);
        byte_more(high.push(bytes[4]), bytes[5]);
        byte_more(high.push(bytes[4]).push(bytes[5]), bytes[6]);
        byte_more(high.push(bytes[4]).push(bytes[5]).push(bytes[6]), bytes[7]);
        assert(high.push(bytes[4]).push(bytes[5]).push(bytes[6]).push(bytes[7]) =~= bytes);
    }
}

/// A number that four bytes can hold is written in four bytes that spell it, and likewise
/// with eight.
pub proof fn numbers_are_written_in_full(small: u32, large: u64)
    ensures
        crate::bytes::be_bytes(small as nat, 4).len() == 4,
        word(crate::bytes::be_bytes(small as nat, 4)) == small,
        crate::bytes::be_bytes(large as nat, 8).len() == 8,
        long_word(crate::bytes::be_bytes(large as nat, 8)) == large,
{
    crate::bytes::integers_fit(small, large);
    crate::bytes::be_bytes_length(small as nat, 4);
    crate::bytes::be_bytes_length(large as nat, 8);
    crate::bytes::be_decode_inverts_encode(small as nat, 4);
    crate::bytes::be_decode_inverts_encode(large as nat, 8);
    first_byte_counts_most(crate::bytes::be_bytes(small as nat, 4));
    first_byte_counts_most(crate::bytes::be_bytes(large as nat, 8));
}

/// An encoded message is its type in one byte, its sender, its receiver and its number in
/// four each, and then its payload as it is.
pub proof fn message_is_laid_out(message: MessageView)
    ensures
        ({
            let bytes = crate::message::encoded(message);
            &&& bytes.len() == 13 + message.payload.len()
            &&& bytes[0] == match message.header.msg_type {
                MessageType::SendReq => 0u8,
                MessageType::FreeReq => 1u8,
                MessageType::PushReq => 2u8,
                MessageType::HeloReq => 3u8,
                MessageType::Other => 4u8,
            }
            &&& word(bytes.subrange(1, 5)) == message.header.saddr
            &&& word(bytes.subrange(5, 9)) == message.header.daddr
            &&& word(bytes.subrange(9, 13)) == message.header.id
            &&& bytes.skip(13) == message.payload
        }),
{
    let bytes = crate::message::encoded(message);
    crate::message::decoding_inverts_encoding(message);
    numbers_are_written_in_full(message.header.saddr, 0);
    numbers_are_written_in_full(message.header.daddr, 0);
    numbers_are_written_in_full(message.header.id, 0);
    assert(bytes.subrange(1, 5) =~= crate::bytes::be_bytes(message.header.saddr as nat, 4));
    assert(bytes.subrange(5, 9) =~= crate::bytes::be_bytes(message.header.daddr as nat, 4));
    assert(bytes.subrange(9, 13) =~= crate::bytes::be_bytes(message.header.id as nat, 4));
    assert(bytes.skip(13) =~= message.payload);
}

/// Bytes encode a message exactly if there are at least thirteen and the first is the number
/// of a type; and it is the message that is encoded in these bytes.
pub proof fn bytes_encode_one_message(bytes: Seq<u8>)
    ensures
        crate::message::decoded(bytes) is Some <==> bytes.len() >= 13 && bytes[0] <= 4,
        forall|message: MessageView|
            crate::message::decoded(bytes) == Some(message) <==> #[trigger]
            crate::message::encoded(message) == bytes,
{
    if crate::message::decoded(bytes) is Some {
        crate::message::encoding_inverts_decoding(bytes);
    }
    assert forall|message: MessageView|
        crate::message::decoded(bytes) == Some(message) <==> #[trigger] crate::message::encoded(
            message,
        ) == bytes by {
        crate::message::decoding_inverts_encoding(message);
    }
}

/// A frame is the length of its payload in four bytes, and then the payload as it is.
pub proof fn frame_is_laid_out(payload: Seq<u8>)
    requires
        payload.len() < 0x1_0000_0000,
    ensures
        crate::transport::framed(payload).len() == 4 + payload.len(),
        word(crate::transport::framed(payload).take(4)) == payload.len(),
        crate::transport::framed(payload).skip(4) == payload,
{
    let size = payload.len() as u32;
    numbers_are_written_in_full(size, 0);
    assert(crate::transport::framed(payload).take(4) =~= crate::bytes::be_bytes(payload.len(), 4));
    assert(crate::transport::framed(payload).skip(4) =~= payload);
}

/// A greeting is a frame of eight bytes that spell the port, and a payload of any other
/// length is no greeting.
pub proof fn greeting_is_laid_out(port: u64, payload: Seq<u8>)
    ensures
        crate::transport::greeting(port).len() == 12,
        word(crate::transport::greeting(port).take(4)) == 8,
        long_word(crate::transport::greeting(port).skip(4)) == port,
        payload.len() != 8 ==> crate::transport::greeting_port(payload) is None,
        payload.len() == 8 ==> crate::transport::greeting_port(payload) is Some
            && crate::transport::greeting_port(payload)->0 == long_word(payload),
{
    numbers_are_written_in_full(0, port);
    let bytes = crate::bytes::be_bytes(port as nat, 8);
    frame_is_laid_out(bytes);
    if payload.len() == 8 {
        first_byte_counts_most(payload);
        crate::bytes::be_encode_inverts_decode(payload);
        crate::bytes::pow256_values();
    }
}

/// A node reads a length of four bytes and then as many bytes as the length says, in turns.
/// What it waits for does not change while there is nothing to read: it goes on with the same
/// length, after a pause, or with the same payload, at once. A payload that cannot be read is
/// passed over, and a connection is given up exactly if a length cannot be read. Exactly what
/// encodes a message is delivered, as that message.
pub proof fn reading_takes_turns(reading: Reading, event: ReadEventView)
    requires
        event is Filled ==> event->bytes.len() == crate::transport::wanted(reading),
    ensures
        crate::transport::wanted(reading) == match reading {
            Reading::Length => 4nat,
            Reading::Payload { size } => size as nat,
        },
        ({
            let next = crate::transport::after_read(reading, event);
            &&& event is WouldBlock ==> next.0 == reading
            &&& event is Failed ==> next.0 == Reading::Length
            &&& event is Filled && reading is Payload ==> next.0 == Reading::Length
            &&& event is Filled && reading is Length ==> next.0 is Payload && next.0->size == word(
                event->bytes,
            )
            &&& next.1 is Stop <==> event is Failed && reading is Length
            &&& next.1 is Continue <==> (event is Filled && reading is Length) || (
            event is WouldBlock && reading is Payload)
            &&& next.1 is Deliver <==> event is Filled && reading is Payload
                && crate::consensus::peer_message_parsed(event->bytes) is Some
            &&& next.1 is Deliver ==> crate::consensus::peer_message_parsed(event->bytes) == Some(
                next.1->message,
            )
        }),
{
    if event is Filled && reading is Length {
        first_byte_counts_most(event->bytes);
        crate::bytes::be_encode_inverts_decode(event->bytes);
        crate::bytes::pow256_values();
    }
}

/// The address of a broker is its host, a colon and its port for clients; a second colon and
/// all behind it are passed over. Raft is spoken on that host, on the port plus 1000. A text
/// without a colon, a port that is no number, or one that is too high, is no such address.
pub proof fn address_is_host_and_port(host: Seq<char>, port: Seq<char>, rest: Seq<char>)
    requires
        !host.contains(':'),
        !port.contains(':'),
        rest.len() == 0 || rest[0] == ':',
    ensures
        crate::cluster::raft_endpoint(host) is None,
        crate::cluster::raft_endpoint(host + seq![':'] + port + rest) == match crate::text::number_in(
            port,
        ) {
            Some(number) => if number + 1000 <= u64::MAX {
                Some(EndpointView { host, port: (number + 1000) as u64 })
            } else {
                None
            },
            None => None,
        },
{
    let address = host + seq![':'] + port + rest;
    let first = host.len() as int;
    let second = first + 1 + port.len();
    assert forall|k: int| 0 <= k < first implies host[k] != ':' by {
        assert(host.contains(host[k]));
    }
    colon_found(host, 0, first);
    colon_found(address, 0, first);
    assert forall|k: int| first + 1 <= k < second implies address[k] != ':' by {
        assert(address[k] == port[k - first - 1]);
        assert(port.contains(port[k - first - 1]));
    }
    colon_found(address, first + 1, second);
    assert(address.subrange(first + 1, second) =~= port);
    assert(address.take(first) =~= host);
}

proof fn colon_found(text: Seq<char>, start: int, at: int)
    requires
        0 <= start <= at <= text.len(),
        at < text.len() ==> text[at] == ':',
        forall|k: int| start <= k < at ==> text[k] != ':',
    ensures
        crate::cluster::colon_from(text, start) == at,
    decreases at - start,
{
    if start < at {
        colon_found(text, start + 1, at);
    }
}

/// An address is written as host, colon and port.
pub proof fn address_is_written_out(host: Seq<char>, port: u64)
    ensures
        ({
            let address = crate::cluster::address_of(host, port);
            &&& address.len() > host.len() + 1
            &&& address.take(host.len() as int) == host
            &&& address[host.len() as int] == ':'
            &&& crate::text::number_in(address.skip(host.len() as int + 1)) == Some(port)
            &&& address.skip(host.len() as int + 1) == crate::text::decimal(port as nat)
        }),
{
    let address = crate::cluster::address_of(host, port);
    crate::text::written_number_is_read(port);
    crate::text::decimal_is_digits(port as nat);
    assert(address.take(host.len() as int) =~= host);
    assert(address.skip(host.len() as int + 1) =~= crate::text::decimal(port as nat));
}

/// The raft ports of a cluster begin with 6555 and go up by one. The peers of a node are all of
/// them but its own, in ascending order, and the identity of a node counts its port from 1 on.
/// Below the first port there is no node.
pub proof fn ports_are_consecutive(n: nat, own: u64, port: u64)
    requires
        n <= u32::MAX,
    ensures
        crate::cluster::peer_ports(n, own).contains(port) <==> 6555 <= port < 6555 + n && port
            != own,
        forall|i: int, j: int|
            0 <= i < j < crate::cluster::peer_ports(n, own).len() ==> (
            #[trigger] crate::cluster::peer_ports(n, own)[i]) < (
            #[trigger] crate::cluster::peer_ports(n, own)[j]),
        port < 6555 ==> crate::cluster::id_of_port(port) is None,
        port >= 6555 ==> crate::cluster::id_of_port(port) is Some && crate::cluster::id_of_port(
            port,
        )->0 == port - 6554,
{
    crate::cluster::peers_are_the_others(n, own);
}

/// Connections can be paired exactly if every port that connected lies in a cluster and is one
/// to which there is a connection.
pub proof fn connections_are_paired(inbound: Seq<u64>, outbound: Seq<u64>)
    ensures
        crate::cluster::connections_match(inbound, outbound) <==> forall|i: int|
            0 <= i < inbound.len() ==> (#[trigger] inbound[i]) >= 6555 && outbound.contains(
                inbound[i],
            ),
{
    if crate::cluster::connections_match(inbound, outbound) {
        assert forall|i: int| 0 <= i < inbound.len() implies (#[trigger] inbound[i]) >= 6555
            && outbound.contains(inbound[i]) by {
            assert(crate::cluster::id_of_port(inbound[i]) is Some);
        }
    } else {
        let i = choose|i: int|
            0 <= i < inbound.len() && !(crate::cluster::id_of_port(#[trigger] inbound[i]) is Some
                && outbound.contains(inbound[i]));
        assert(!(inbound[i] >= 6555 && outbound.contains(inbound[i])));
    }
}

/// The first leader adds the nodes from 2 to the number of nodes as voters, one after the
/// other. What is left to add are those from the next one on.
pub proof fn nodes_are_added_in_turn(n: nat, enrollment: Enrollment)
    requires
        n <= u32::MAX,
        enrollment.wf(),
    ensures
        crate::cluster::additions(n).len() == if n >= 2 {
            n - 1
        } else {
            0
        },
        forall|i: int|
            0 <= i < crate::cluster::additions(n).len() ==> (
            #[trigger] crate::cluster::additions(n)[i]) == (ConfChangeView {
                id: 0,
                change_type: ConfChangeType::AddNode,
                node_id: (i + 2) as u64,
                context: Seq::empty(),
            }),
        enrollment.remaining().len() == if enrollment.next <= enrollment.num_nodes {
            enrollment.num_nodes - enrollment.next + 1
        } else {
            0
        },
        forall|i: int|
            0 <= i < enrollment.remaining().len() ==> (#[trigger] enrollment.remaining()[i])
                == (ConfChangeView {
                id: 0,
                change_type: ConfChangeType::AddNode,
                node_id: (enrollment.next + i) as u64,
                context: Seq::empty(),
            }),
{
}

/// A change is settled exactly if it was applied without a message: neither a refusal nor a
/// message settles it.
pub proof fn only_application_settles(outcome: Result<Option<MessageView>, Refused>)
    ensures
        crate::cluster::settles(outcome) <==> match outcome {
            Ok(None) => true,
            Ok(Some(message)) => false,
            Err(refused) => false,
        },
{
}

/// Four names stand for the four types that a client can ask for, and no other name does.
pub proof fn types_have_their_names(name: Seq<char>)
    ensures
        crate::client::type_named(name) == Some(MessageType::SendReq) <==> name
            == "MSG_SEND_REQ"@,
        crate::client::type_named(name) == Some(MessageType::FreeReq) <==> name
            == "MSG_FREE_REQ"@,
        crate::client::type_named(name) == Some(MessageType::PushReq) <==> name
            == "MSG_PUSH_REQ"@,
        crate::client::type_named(name) == Some(MessageType::HeloReq) <==> name
            == "MSG_HELO_REQ"@,
        crate::client::type_named(name) != Some(MessageType::Other),
{
    reveal_strlit("MSG_SEND_REQ");
    reveal_strlit("MSG_FREE_REQ");
    reveal_strlit("MSG_PUSH_REQ");
    reveal_strlit("MSG_HELO_REQ");
    assert("MSG_SEND_REQ"@[4] == 'S');
    assert("MSG_FREE_REQ"@[4] == 'F');
    assert("MSG_PUSH_REQ"@[4] == 'P');
    assert("MSG_HELO_REQ"@[4] == 'H');
}

/// A word and the signed number with the same bits differ by nothing, or by the number of all
/// words; going there and back changes nothing.
pub proof fn words_keep_their_bits(word: u32, number: i32)
    ensures
        -0x8000_0000 <= crate::client::signed(word) < 0x8000_0000,
        crate::client::signed(word) == word || crate::client::signed(word) == word
            - 0x1_0000_0000,
        crate::client::unsigned(number) < 0x1_0000_0000,
        crate::client::unsigned(number) == number || crate::client::unsigned(number) == number
            + 0x1_0000_0000,
        crate::client::signed(crate::client::unsigned(number) as u32) == number,
        crate::client::unsigned(crate::client::signed(word) as i32) == word,
{
}

/// The number that bytes spell if the first of them counts least.
pub open spec fn low_first(b: Seq<u8>) -> int {
    b[0] + b[1] * 0x100 + b[2] * 0x1_0000 + b[3] * 0x100_0000
}

/// A request is its type, its sender, its receiver and its number in four bytes each, the
/// number of bytes of its content in eight, and then its content in UTF-8; in every number the
/// first byte counts least.
pub proof fn request_is_laid_out(request: Request)
    requires
        vstd::utf8::encode_utf8(request.content@).len() < 0x1_0000_0000,
    ensures
        ({
            let text = vstd::utf8::encode_utf8(request.content@);
            let bytes = crate::client::request_bytes(request);
            &&& bytes.len() == 24 + text.len()
            &&& low_first(bytes.subrange(0, 4)) == match request.msg_type {
                MessageType::SendReq => 0int,
                MessageType::FreeReq => 1,
                MessageType::PushReq => 2,
                MessageType::HeloReq => 3,
                MessageType::Other => 4,
            }
            &&& low_first(bytes.subrange(4, 8)) == crate::client::unsigned(request.saddr)
            &&& low_first(bytes.subrange(8, 12)) == crate::client::unsigned(request.daddr)
            &&& low_first(bytes.subrange(12, 16)) == crate::client::unsigned(request.id)
            &&& low_first(bytes.subrange(16, 20)) == text.len()
            &&& low_first(bytes.subrange(20, 24)) == 0
            &&& bytes.skip(24) == text
        }),
{
    let text = vstd::utf8::encode_utf8(request.content@);
    let bytes = crate::client::request_bytes(request);
    let kind = crate::message::type_code(request.msg_type) as u32;
    low_bytes_first(kind);
    low_bytes_first(crate::client::unsigned(request.saddr) as u32);
    low_bytes_first(crate::client::unsigned(request.daddr) as u32);
    low_bytes_first(crate::client::unsigned(request.id) as u32);
    low_bytes_of_length(text.len() as u64);
    assert(bytes.subrange(0, 4) =~= crate::client::le_bytes(kind as nat, 4));
    assert(bytes.subrange(4, 8) =~= crate::client::le_bytes(
        crate::client::unsigned(request.saddr),
        4,
    ));
    assert(bytes.subrange(8, 12) =~= crate::client::le_bytes(
        crate::client::unsigned(request.daddr),
        4,
    ));
    assert(bytes.subrange(12, 16) =~= crate::client::le_bytes(
        crate::client::unsigned(request.id),
        4,
    ));
    let length = crate::client::le_bytes(text.len(), 8);
    assert(bytes.subrange(16, 20) =~= length.take(4));
    assert(bytes.subrange(20, 24) =~= length.skip(4));
    assert(bytes.skip(24) =~= text);
}

proof fn low_bytes_first(value: u32)
    ensures
        crate::client::le_bytes(value as nat, 4).len() == 4,
        low_first(crate::client::le_bytes(value as nat, 4)) == value,
{
    numbers_are_written_in_full(value, 0);
}

proof fn low_bytes_of_length(value: u64)
    requires
        value < 0x1_0000_0000,
    ensures
        crate::client::le_bytes(value as nat, 8).len() == 8,
        low_first(crate::client::le_bytes(value as nat, 8).take(4)) == value,
        low_first(crate::client::le_bytes(value as nat, 8).skip(4)) == 0,
{
    numbers_are_written_in_full(0, value);
    let high_first = crate::bytes::be_bytes(value as nat, 8);
    let bytes = crate::client::le_bytes(value as nat, 8);
    assert(word(high_first.skip(4)) == low_first(bytes.take(4)));
    assert(word(high_first.take(4)) == low_first(bytes.skip(4)));
}

/// A request travels in 1024 bytes: its encoding, and zeros up to the end.
pub proof fn request_is_filled_up(bytes: Seq<u8>)
    requires
        bytes.len() <= 1024,
    ensures
        crate::client::padded(bytes).len() == 1024,
        crate::client::padded(bytes).take(bytes.len() as int) == bytes,
        forall|k: int|
            bytes.len() <= k < 1024 ==> #[trigger] crate::client::padded(bytes)[k] == 0,
{
    assert(crate::client::padded(bytes).take(bytes.len() as int) =~= bytes);
}

/// The arguments are written on six lines, each with the name of one of them, a colon, a space
/// and its value.
pub proof fn arguments_are_written_out(args: Args)
    ensures
        crate::client::args_text(args) == line("msg_type: "@, args.msg_type@) + line(
            "saddr: "@,
            crate::text::decimal(args.saddr as nat),
        ) + line("daddr: "@, crate::text::decimal(args.daddr as nat)) + line(
            "id: "@,
            crate::text::decimal(args.id as nat),
        ) + line("baddr: "@, args.baddr@) + line(
            "loop_times: "@,
            crate::text::decimal(args.loop_times as nat),
        ),
{
    reveal_strlit("\n");
    let one = line("msg_type: "@, args.msg_type@);
    let two = line("saddr: "@, crate::text::decimal(args.saddr as nat));
    let three = line("daddr: "@, crate::text::decimal(args.daddr as nat));
    let four = line("id: "@, crate::text::decimal(args.id as nat));
    let five = line("baddr: "@, args.baddr@);
    let six = line("loop_times: "@, crate::text::decimal(args.loop_times as nat));
    assert("\n"@ =~= seq!['\n']);
    assert(crate::client::args_text(args) =~= one + two + three + four + five + six);
}

/// A line of a text.
pub open spec fn line(name: Seq<char>, value: Seq<char>) -> Seq<char> {
    name + value + seq!['\n']
}

/// A number is written with the digits from 0 to 9, at least one, and without a zero in front
/// of others. The last digit counts once, and each other ten times as much as the one behind
/// it.
pub proof fn numbers_are_written_in_decimal(value: nat, digits: Seq<char>, last: char)
    requires
        '0' <= last <= '9',
    ensures
        crate::text::decimal(value).len() > 0,
        forall|k: int|
            0 <= k < crate::text::decimal(value).len() ==> '0' <= (
            #[trigger] crate::text::decimal(value)[k]) <= '9',
        crate::text::decimal(value).len() > 1 ==> crate::text::decimal(value)[0] != '0',
        crate::text::decimal_value(crate::text::decimal(value)) == value,
        crate::text::decimal_value(Seq::empty()) == 0,
        crate::text::decimal_value(digits.push(last)) == crate::text::decimal_value(digits) * 10 + (
        last as int - '0' as int),
{
    crate::text::decimal_is_digits(value);
    let text = crate::text::decimal(value);
    assert forall|k: int| 0 <= k < text.len() implies '0' <= (#[trigger] text[k]) <= '9' by {
        assert(crate::text::is_digit(text[k]));
    }
    no_zero_in_front(value);
    assert(digits.push(last).drop_last() =~= digits);
}

proof fn no_zero_in_front(value: nat)
    ensures
        crate::text::decimal(value).len() > 0,
        value > 0 ==> crate::text::decimal(value)[0] != '0',
        crate::text::decimal(value).len() > 1 ==> value > 0,
    decreases value,
{
    if value >= 10 {
        no_zero_in_front(value / 10);
    }
}

/// There is nothing but digits.
pub open spec fn digits_only(text: Seq<char>) -> bool {
    forall|k: int| 0 <= k < text.len() ==> '0' <= (#[trigger] text[k]) <= '9'
}

/// A text is a number exactly if it consists of digits, at least one, after a plus sign or
/// not, and what they spell fits.
pub proof fn numbers_are_read_in_decimal(text: Seq<char>, value: u64)
    ensures
        ({
            let digits = if text.len() > 0 && text[0] == '+' {
                text.skip(1)
            } else {
                text
            };
            crate::text::number_in(text) == Some(value) <==> digits.len() > 0 && digits_only(
                digits,
            ) && crate::text::decimal_value(digits) == value
        }),
{
    let digits = if text.len() > 0 && text[0] == '+' {
        text.skip(1)
    } else {
        text
    };
    if crate::text::all_digits(digits) {
        assert forall|k: int| 0 <= k < digits.len() implies '0' <= (#[trigger] digits[k])
            <= '9' by {
            assert(crate::text::is_digit(digits[k]));
        }
    } else {
        let k = choose|k: int| 0 <= k < digits.len() && !crate::text::is_digit(
            #[trigger] digits[k],
        );
        assert(!('0' <= digits[k] <= '9'));
        assert(!digits_only(digits));
    }
}

} // verus!
