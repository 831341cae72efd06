//! The messages that clients exchange through the broker, and their encoding as
//! the data of a log entry.

use crate::bytes::{decode_be, encode_be};
use vstd::prelude::*;

verus! {

broadcast use vstd::seq_lib::group_seq_properties;

/// What a message asks the broker to do.
#[derive(Clone, Copy, Debug, PartialEq, Eq, Structural)]
pub enum MessageType {
    /// Put the message into the receiver's queue.
    SendReq,
    /// Forget a message that was delivered.
    FreeReq,
    /// Deliver the oldest waiting message.
    PushReq,
    /// Open a queue for the sender.
    HeloReq,
    /// A type on which the replicated queues do not act.
    Other,
}

/// The fixed part of a message.
#[derive(Clone, Copy, Debug, PartialEq, Eq, Structural)]
pub struct Header {
    /// What the message asks for.
    pub msg_type: MessageType,
    /// The client that sent the message.
    pub saddr: u32,
    /// The client that the message is for.
    pub daddr: u32,
    /// The number by which the message is acknowledged.
    pub id: u32,
}

/// A message: its header and the bytes that it carries.
#[derive(Debug)]
pub struct Message {
    pub header: Header,
    pub payload: Vec<u8>,
}

/// A message as a value.
pub struct MessageView {
    pub header: Header,
    pub payload: Seq<u8>,
}

impl View for Message {
    type V = MessageView;

    open spec fn view(&self) -> MessageView {
        MessageView { header: self.header, payload: self.payload@ }
    }
}

/// An optional message as a value.
pub open spec fn opt_message_view(message: Option<Message>) -> Option<MessageView> {
    match message {
        Some(m) => Some(m@),
        None => None,
    }
}

/// The byte that stands for a message type.
pub open spec fn type_code(msg_type: MessageType) -> u8 {
    match msg_type {
        MessageType::SendReq => 0,
        MessageType::FreeReq => 1,
        MessageType::PushReq => 2,
        MessageType::HeloReq => 3,
        MessageType::Other => 4,
    }
}

/// The message type that a byte stands for.
pub open spec fn type_of_code(code: u8) -> Option<MessageType> {
    if code == 0 {
        Some(MessageType::SendReq)
    } else if code == 1 {
        Some(MessageType::FreeReq)
    } else if code == 2 {
        Some(MessageType::PushReq)
    } else if code == 3 {
        Some(MessageType::HeloReq)
    } else if code == 4 {
        Some(MessageType::Other)
    } else {
        None
    }
}

/// The length of an encoded header.
pub const HEADER_LEN: usize = 13;

/// The encoding of a message: the type, the sender, the receiver and the number,
/// then the payload.
pub open spec fn encoded(message: MessageView) -> Seq<u8> {
    seq![type_code(message.header.msg_type)] + crate::bytes::be_bytes(
        message.header.saddr as nat,
        4,
    ) + crate::bytes::be_bytes(message.header.daddr as nat, 4) + crate::bytes::be_bytes(
        message.header.id as nat,
        4,
    ) + message.payload
}

/// The message that bytes encode.
pub open spec fn decoded(bytes: Seq<u8>) -> Option<MessageView> {
    if bytes.len() < HEADER_LEN {
        None
    } else {
        match type_of_code(bytes[0]) {
            Some(msg_type) => Some(
                MessageView {
                    header: Header {
                        msg_type,
                        saddr: crate::bytes::be_value(bytes.subrange(1, 5)) as u32,
                        daddr: crate::bytes::be_value(bytes.subrange(5, 9)) as u32,
                        id: crate::bytes::be_value(bytes.subrange(9, 13)) as u32,
                    },
                    payload: bytes.skip(13),
                },
            ),
            None => None,
        }
    }
}

/// What is proposed is what is applied: decoding gives back the message that was
/// encoded, and no encoding is empty.
pub proof fn decoding_inverts_encoding(message: MessageView)
    ensures
        decoded(encoded(message)) == Some(message),
        encoded(message).len() == HEADER_LEN + message.payload.len(),
{
    let h = message.header;
    crate::bytes::be_bytes_length(h.saddr as nat, 4);
    crate::bytes::be_bytes_length(h.daddr as nat, 4);
    crate::bytes::be_bytes_length(h.id as nat, 4);
    crate::bytes::integers_fit(h.saddr, 0);
    crate::bytes::integers_fit(h.daddr, 0);
    crate::bytes::integers_fit(h.id, 0);
    crate::bytes::be_decode_inverts_encode(h.saddr as nat, 4);
    crate::bytes::be_decode_inverts_encode(h.daddr as nat, 4);
    crate::bytes::be_decode_inverts_encode(h.id as nat, 4);
    let bytes = encoded(message);
    assert(bytes[0] == type_code(h.msg_type));
    assert(bytes.subrange(1, 5) =~= crate::bytes::be_bytes(h.saddr as nat, 4));
    assert(bytes.subrange(5, 9) =~= crate::bytes::be_bytes(h.daddr as nat, 4));
    assert(bytes.subrange(9, 13) =~= crate::bytes::be_bytes(h.id as nat, 4));
    assert(bytes.skip(13) =~= message.payload);
}

/// Bytes that decode are the encoding of the message they decode to, so no two
/// byte strings decode to the same message.
pub proof fn encoding_inverts_decoding(bytes: Seq<u8>)
    requires
        decoded(bytes) is Some,
    ensures
        encoded(decoded(bytes)->0) == bytes,
{
    crate::bytes::be_encode_inverts_decode(bytes.subrange(1, 5));
    crate::bytes::be_encode_inverts_decode(bytes.subrange(5, 9));
    crate::bytes::be_encode_inverts_decode(bytes.subrange(9, 13));
    crate::bytes::pow256_values();
    assert(encoded(decoded(bytes)->0) =~= seq![bytes[0]] + bytes.subrange(1, 5) + bytes.subrange(
        5,
        9,
    ) + bytes.subrange(9, 13) + bytes.skip(13));
    assert(encoded(decoded(bytes)->0) =~= bytes);
}

impl MessageType {
    /// The byte that stands for the type.
    pub fn code(self) -> (code: u8)
        ensures
            code == type_code(self),
    {
        match self {
            MessageType::SendReq => 0,
            MessageType::FreeReq => 1,
            MessageType::PushReq => 2,
            MessageType::HeloReq => 3,
            MessageType::Other => 4,
        }
    }

    /// The type that a byte stands for.
    pub fn of_code(code: u8) -> (msg_type: Option<MessageType>)
        ensures
            msg_type == type_of_code(code),
    {
        match code {
            0 => Some(MessageType::SendReq),
            1 => Some(MessageType::FreeReq),
            2 => Some(MessageType::PushReq),
            3 => Some(MessageType::HeloReq),
            4 => Some(MessageType::Other),
            _ => None,
        }
    }
}

impl Header {
    /// The type of the message.
    pub fn msg_type(&self) -> (msg_type: MessageType)
        ensures
            msg_type == self.msg_type,
    {
        self.msg_type
    }

    /// Replaces the type of the message.
    pub fn change_msg_type(&mut self, msg_type: MessageType)
        ensures
            *final(self) == (Header { msg_type, ..*old(self) }),
    {
        self.msg_type = msg_type;
    }
}

impl Clone for Message {
    fn clone(&self) -> (copy: Self)
        ensures
            copy@ == self@,
    {
        Message { header: self.header, payload: self.payload.clone() }
    }
}

impl Message {
    /// Encodes the message as the data of a log entry.
    pub fn to_bytes(&self) -> (bytes: Vec<u8>)
        ensures
            bytes@ == encoded(self@),
    {
        let mut bytes: Vec<u8> = Vec::new();
        bytes.push(self.header.msg_type.code());
        let mut saddr = encode_be(self.header.saddr as u64, 4);
        bytes.append(&mut saddr);
        let mut daddr = encode_be(self.header.daddr as u64, 4);
        bytes.append(&mut daddr);
        let mut id = encode_be(self.header.id as u64, 4);
        bytes.append(&mut id);
        let mut payload = self.payload.clone();
        assert(payload@ =~= self.payload@);
        bytes.append(&mut payload);
        assert(bytes@ =~= encoded(self@));
        bytes
    }

    /// Decodes the data of a log entry. Bytes that are shorter than a header or
    /// name no known type decode to nothing.
    pub fn from_bytes(bytes: &[u8]) -> (message: Option<Message>)
        ensures
            opt_message_view(message) == decoded(bytes@),
    {
        if bytes.len() < HEADER_LEN {
            return None;
        }
        let msg_type = match MessageType::of_code(bytes[0]) {
            Some(msg_type) => msg_type,
            None => {
                return None;
            },
        };
        proof {
            crate::bytes::be_encode_inverts_decode(bytes@.subrange(1, 5));
            crate::bytes::be_encode_inverts_decode(bytes@.subrange(5, 9));
            crate::bytes::be_encode_inverts_decode(bytes@.subrange(9, 13));
            crate::bytes::pow256_values();
        }
        let saddr = decode_be(bytes, 1, 5) as u32;
        let daddr = decode_be(bytes, 5, 9) as u32;
        let id = decode_be(bytes, 9, 13) as u32;
        let mut payload: Vec<u8> = Vec::new();
        let mut i: usize = HEADER_LEN;
        while i < bytes.len()
            invariant
                HEADER_LEN <= i <= bytes@.len(),
                payload@ == bytes@.subrange(HEADER_LEN as int, i as int),
            decreases bytes@.len() - i,
        {
            payload.push(bytes[i]);
            i = i + 1;
            assert(payload@ =~= bytes@.subrange(HEADER_LEN as int, i as int));
        }
        assert(payload@ =~= bytes@.skip(13));
        Some(Message { header: Header { msg_type, saddr, daddr, id }, payload })
    }
}

} // verus!
