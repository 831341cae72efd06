//! What travels between nodes: frames, the greeting with which a connection
//! begins, and how a node reads from a connection that may have nothing to read.

use crate::bytes::{decode_be, encode_be};
use crate::consensus::{decode_peer_message, PeerMessage, PeerMessageView};
use vstd::prelude::*;

verus! {

/// The number of bytes that the length of a frame has.
pub const LENGTH_LEN: usize = 4;

/// A frame as it is written: the length in four bytes, and the payload.
pub open spec fn framed(payload: Seq<u8>) -> Seq<u8> {
    crate::bytes::be_bytes(payload.len(), 4) + payload
}

/// Frames one after the other, as they are written.
pub open spec fn framed_all(payloads: Seq<Seq<u8>>) -> Seq<u8>
    decreases payloads.len(),
{
    if payloads.len() == 0 {
        Seq::empty()
    } else {
        framed(payloads[0]) + framed_all(payloads.drop_first())
    }
}

/// The frames that a reader finds in a stream: four bytes give a length, and so
/// many bytes follow. An incomplete frame at the end is not found.
pub open spec fn frames(stream: Seq<u8>) -> Seq<Seq<u8>>
    decreases stream.len(),
{
    if stream.len() < LENGTH_LEN {
        Seq::empty()
    } else {
        let size = crate::bytes::be_value(stream.take(4));
        if stream.len() < 4 + size {
            Seq::empty()
        } else {
            seq![stream.subrange(4, 4 + size as int)] + frames(stream.skip(4 + size as int))
        }
    }
}

/// Whether four bytes can hold the length of a payload.
pub open spec fn fits_frame(payload: Seq<u8>) -> bool {
    payload.len() < 0x1_0000_0000
}

/// What one node writes another one reads: a written frame is found at the front.
pub proof fn written_frame_is_read(payload: Seq<u8>, rest: Seq<u8>)
    requires
        fits_frame(payload),
    ensures
        frames(framed(payload) + rest) == seq![payload] + frames(rest),
{
    let head = crate::bytes::be_bytes(payload.len(), 4);
    let stream = framed(payload) + rest;
    crate::bytes::pow256_values();
    crate::bytes::be_bytes_length(payload.len(), 4);
    crate::bytes::be_decode_inverts_encode(payload.len(), 4);
    assert(stream.take(4) =~= head);
    assert(stream.subrange(4, 4 + payload.len() as int) =~= payload);
    assert(stream.skip(4 + payload.len() as int) =~= rest);
}

/// A whole run of frames arrives as it was written: each payload once, in order, and
/// nothing else.
pub proof fn written_frames_are_read(payloads: Seq<Seq<u8>>)
    requires
        forall|i: int| 0 <= i < payloads.len() ==> fits_frame(#[trigger] payloads[i]),
    ensures
        frames(framed_all(payloads)) == payloads,
    decreases payloads.len(),
{
    if payloads.len() > 0 {
        let rest = payloads.drop_first();
        assert forall|i: int| 0 <= i < rest.len() implies fits_frame(#[trigger] rest[i]) by {
            assert(rest[i] == payloads[i + 1]);
        }
        written_frames_are_read(rest);
        written_frame_is_read(payloads[0], framed_all(rest));
        assert(seq![payloads[0]] + rest =~= payloads);
    }
}

/// The bytes that go before a payload of `size` bytes, if four bytes can hold that.
pub fn frame_header(size: usize) -> (header: Option<Vec<u8>>)
    ensures
        match header {
            Some(h) => size < 0x1_0000_0000 && h@ == crate::bytes::be_bytes(size as nat, 4),
            None => size >= 0x1_0000_0000,
        },
{
    if size as u64 >= 0x1_0000_0000u64 {
        None
    } else {
        Some(encode_be(size as u64, 4))
    }
}

/// The length that four bytes before a payload give.
pub fn frame_length(header: &[u8]) -> (size: usize)
    requires
        header@.len() == LENGTH_LEN,
    ensures
        size == crate::bytes::be_value(header@),
{
    proof {
        crate::bytes::be_encode_inverts_decode(header@);
        crate::bytes::pow256_values();
        assert(header@.subrange(0, 4) =~= header@);
    }
    decode_be(header, 0, 4) as usize
}

/// The greeting of the node that listens on `port`: a frame that carries the port.
pub open spec fn greeting(port: u64) -> Seq<u8> {
    framed(crate::bytes::be_bytes(port as nat, 8))
}

/// The port that the payload of a greeting carries.
pub open spec fn greeting_port(payload: Seq<u8>) -> Option<u64> {
    if payload.len() == 8 {
        Some(crate::bytes::be_value(payload) as u64)
    } else {
        None
    }
}

/// The greeting of a node is read as one frame, and the frame carries its port.
pub proof fn greeting_is_read(port: u64)
    ensures
        frames(greeting(port)).len() == 1,
        greeting_port(frames(greeting(port))[0]) == Some(port),
{
    let payload = crate::bytes::be_bytes(port as nat, 8);
    crate::bytes::be_bytes_length(port as nat, 8);
    crate::bytes::integers_fit(0, port);
    crate::bytes::pow256_values();
    crate::bytes::be_decode_inverts_encode(port as nat, 8);
    written_frame_is_read(payload, Seq::empty());
    assert(greeting(port) =~= framed(payload) + Seq::<u8>::empty());
    assert(frames(Seq::<u8>::empty()) =~= Seq::<Seq<u8>>::empty());
}

/// The greeting of the node that listens on `port`.
pub fn encode_greeting(port: u64) -> (bytes: Vec<u8>)
    ensures
        bytes@ == greeting(port),
{
    proof {
        crate::bytes::be_bytes_length(port as nat, 8);
    }
    let mut bytes = encode_be(8, 4);
    let mut carried = encode_be(port, 8);
    bytes.append(&mut carried);
    bytes
}

/// The port that the payload of a greeting carries, if it has the right length.
pub fn decode_greeting(payload: &[u8]) -> (port: Option<u64>)
    ensures
        port == greeting_port(payload@),
{
    if payload.len() != 8 {
        return None;
    }
    proof {
        assert(payload@.subrange(0, 8) =~= payload@);
        crate::bytes::be_encode_inverts_decode(payload@);
        crate::bytes::pow256_values();
    }
    Some(decode_be(payload, 0, 8))
}

/// What a node reads next from a connection.
#[derive(Clone, Copy, Debug, PartialEq, Eq, Structural)]
pub enum Reading {
    /// The length of a frame.
    Length,
    /// The payload of a frame.
    Payload { size: usize },
}

/// What came of an attempt to fill a buffer from a connection.
#[derive(Debug)]
pub enum ReadEvent {
    /// The buffer was filled.
    Filled { bytes: Vec<u8> },
    /// There is nothing to read at the moment.
    WouldBlock,
    /// The connection failed.
    Failed,
}

/// What came of an attempt to read, as a value.
pub enum ReadEventView {
    Filled { bytes: Seq<u8> },
    WouldBlock,
    Failed,
}

impl View for ReadEvent {
    type V = ReadEventView;

    open spec fn view(&self) -> ReadEventView {
        match *self {
            ReadEvent::Filled { bytes } => ReadEventView::Filled { bytes: bytes@ },
            ReadEvent::WouldBlock => ReadEventView::WouldBlock,
            ReadEvent::Failed => ReadEventView::Failed,
        }
    }
}

/// What a node does after an attempt to read.
#[derive(Debug)]
pub enum ReadAction {
    /// Read on at once.
    Continue,
    /// See first whether there is something to write.
    Yield,
    /// Hand the message to the raft group, then as for `Yield`.
    Deliver { message: PeerMessage },
    /// Give up the connection.
    Stop,
}

/// An action as a value.
pub enum ReadActionView {
    Continue,
    Yield,
    Deliver { message: PeerMessageView },
    Stop,
}

impl View for ReadAction {
    type V = ReadActionView;

    open spec fn view(&self) -> ReadActionView {
        match *self {
            ReadAction::Continue => ReadActionView::Continue,
            ReadAction::Yield => ReadActionView::Yield,
            ReadAction::Deliver { message } => ReadActionView::Deliver { message: message@ },
            ReadAction::Stop => ReadActionView::Stop,
        }
    }
}

/// What follows from an attempt to read. A length that arrived is followed by its
/// payload. Waiting for a payload goes on without a pause, waiting for a length
/// does not. A payload that encodes no message is dropped, and so is a frame whose
/// payload cannot be read; a connection from which no length can be read is given
/// up.
pub open spec fn after_read(reading: Reading, event: ReadEventView) -> (Reading, ReadActionView) {
    match reading {
        Reading::Length => match event {
            ReadEventView::Filled { bytes } => (
                Reading::Payload { size: crate::bytes::be_value(bytes) as usize },
                ReadActionView::Continue,
            ),
            ReadEventView::WouldBlock => (Reading::Length, ReadActionView::Yield),
            ReadEventView::Failed => (Reading::Length, ReadActionView::Stop),
        },
        Reading::Payload { size } => match event {
            ReadEventView::Filled { bytes } => (
                Reading::Length,
                match crate::consensus::peer_message_parsed(bytes) {
                    Some(message) => ReadActionView::Deliver { message },
                    None => ReadActionView::Yield,
                },
            ),
            ReadEventView::WouldBlock => (reading, ReadActionView::Continue),
            ReadEventView::Failed => (Reading::Length, ReadActionView::Yield),
        },
    }
}

/// The number of bytes that a node has to read next.
pub open spec fn wanted(reading: Reading) -> nat {
    match reading {
        Reading::Length => LENGTH_LEN as nat,
        Reading::Payload { size } => size as nat,
    }
}

/// The payloads that a node reads from a stream, if it reads what it wants as long
/// as the stream holds so much.
pub open spec fn payloads_read(reading: Reading, stream: Seq<u8>) -> Seq<Seq<u8>>
    decreases stream.len(), wanted_rank(reading),
{
    if stream.len() < wanted(reading) {
        Seq::empty()
    } else {
        let chunk = stream.take(wanted(reading) as int);
        let next = after_read(reading, ReadEventView::Filled { bytes: chunk }).0;
        let rest = payloads_read(next, stream.skip(wanted(reading) as int));
        match reading {
            Reading::Length => rest,
            Reading::Payload { size } => seq![chunk] + rest,
        }
    }
}

/// Orders the two states in which a node reads.
pub open spec fn wanted_rank(reading: Reading) -> nat {
    match reading {
        Reading::Length => 0,
        Reading::Payload { size } => 1,
    }
}

/// Reading a stream step by step finds its frames.
pub proof fn reading_finds_frames(stream: Seq<u8>)
    ensures
        payloads_read(Reading::Length, stream) == frames(stream),
    decreases stream.len(),
{
    if stream.len() >= LENGTH_LEN {
        let length = stream.take(4);
        crate::bytes::be_encode_inverts_decode(length);
        crate::bytes::pow256_values();
        let size = crate::bytes::be_value(length);
        let body = stream.skip(4);
        if stream.len() >= 4 + size {
            assert(body.take(size as int) =~= stream.subrange(4, 4 + size as int));
            assert(body.skip(size as int) =~= stream.skip(4 + size as int));
            reading_finds_frames(stream.skip(4 + size as int));
        }
        reveal_with_fuel(payloads_read, 3);
    }
}

/// The messages that a node hands to its raft group while it reads a stream as in
/// [`payloads_read`].
pub open spec fn messages_read(reading: Reading, stream: Seq<u8>) -> Seq<PeerMessageView>
    decreases stream.len(), wanted_rank(reading),
{
    if stream.len() < wanted(reading) {
        Seq::empty()
    } else {
        let chunk = stream.take(wanted(reading) as int);
        let next = after_read(reading, ReadEventView::Filled { bytes: chunk });
        let rest = messages_read(next.0, stream.skip(wanted(reading) as int));
        match next.1 {
            ReadActionView::Deliver { message } => seq![message] + rest,
            _ => rest,
        }
    }
}

/// The encoded forms of messages.
pub open spec fn encodings(messages: Seq<PeerMessageView>) -> Seq<Seq<u8>> {
    messages.map_values(|m: PeerMessageView| m.bytes)
}

/// What one node sends is what the other hands to its raft group: the messages of all
/// batches, in order, each of them once, and nothing else. A message whose encoding is
/// too long for a frame is left out, as it cannot be sent.
pub proof fn sent_messages_arrive(messages: Seq<PeerMessageView>)
    requires
        forall|i: int|
            0 <= i < messages.len() ==> crate::outbox::message_wf(#[trigger] messages[i])
                && fits_frame(messages[i].bytes),
    ensures
        messages_read(Reading::Length, framed_all(encodings(messages))) == messages,
    decreases messages.len(),
{
    let stream = framed_all(encodings(messages));
    if messages.len() > 0 {
        let first = messages[0];
        let rest = messages.drop_first();
        assert forall|i: int| 0 <= i < rest.len() implies crate::outbox::message_wf(
            #[trigger] rest[i],
        ) && fits_frame(rest[i].bytes) by {
            assert(rest[i] == messages[i + 1]);
        }
        sent_messages_arrive(rest);
        assert(encodings(messages).drop_first() =~= encodings(rest));
        let tail = framed_all(encodings(rest));
        let size = first.bytes.len();
        crate::bytes::pow256_values();
        crate::bytes::be_bytes_length(size, 4);
        crate::bytes::be_decode_inverts_encode(size, 4);
        assert(stream == framed(first.bytes) + tail);
        assert(stream.take(4) =~= crate::bytes::be_bytes(size, 4));
        let body = stream.skip(4);
        assert(body.take(size as int) =~= first.bytes);
        assert(body.skip(size as int) =~= tail);
        reveal_with_fuel(messages_read, 3);
        assert(seq![first] + rest =~= messages);
    }
}

/// The number of bytes that a node has to read next.
pub fn bytes_wanted(reading: Reading) -> (size: usize)
    ensures
        size == wanted(reading),
{
    match reading {
        Reading::Length => LENGTH_LEN,
        Reading::Payload { size } => size,
    }
}

/// Decides what follows from an attempt to read.
pub fn on_read(reading: Reading, event: ReadEvent) -> (next: (Reading, ReadAction))
    requires
        event matches ReadEvent::Filled { bytes } ==> bytes@.len() == wanted(reading),
    ensures
        (next.0, next.1@) == after_read(reading, event@),
        next.1 matches ReadAction::Deliver { message } ==> crate::node::peer_message_wf(message),
{
    match reading {
        Reading::Length => match event {
            ReadEvent::Filled { bytes } => {
                let size = frame_length(bytes.as_slice());
                (Reading::Payload { size }, ReadAction::Continue)
            },
            ReadEvent::WouldBlock => (Reading::Length, ReadAction::Yield),
            ReadEvent::Failed => (Reading::Length, ReadAction::Stop),
        },
        Reading::Payload { size } => match event {
            ReadEvent::Filled { bytes } => match decode_peer_message(bytes) {
                Some(message) => (Reading::Length, ReadAction::Deliver { message }),
                None => (Reading::Length, ReadAction::Yield),
            },
            ReadEvent::WouldBlock => (Reading::Payload { size }, ReadAction::Continue),
            ReadEvent::Failed => (Reading::Length, ReadAction::Yield),
        },
    }
}

/// A request from outside to the node.
#[derive(Clone, Copy, Debug, PartialEq, Eq, Structural)]
pub enum Signal {
    Terminate,
}

/// What was found on the channel of signals.
#[derive(Clone, Copy, Debug, PartialEq, Eq, Structural)]
pub enum SignalPoll {
    Received(Signal),
    Empty,
    Disconnected,
}

/// Whether the node has to stop: it was told to, or nobody can tell it any more.
pub fn check_signals(poll: SignalPoll) -> (stop: bool)
    ensures
        stop == (poll != SignalPoll::Empty),
{
    match poll {
        SignalPoll::Received(Signal::Terminate) => true,
        SignalPoll::Empty => false,
        SignalPoll::Disconnected => true,
    }
}

} // verus!
