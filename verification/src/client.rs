//! The command-line client: its arguments and the requests that it sends.

use crate::message::MessageType;
use crate::text::write_decimal;
use vstd::prelude::*;
use vstd::string::*;

verus! {

/// The number of bytes in which every request travels.
pub const REQUEST_LEN: usize = 1024;

/// The command-line arguments of the client.
#[derive(Debug)]
pub struct Args {
    /// The name of the type that the requests have.
    pub msg_type: String,
    /// The client that the requests come from.
    pub saddr: u32,
    /// The client that the requests are for.
    pub daddr: u32,
    /// The number of the first request.
    pub id: u32,
    /// The address of the broker.
    pub baddr: String,
    /// How many requests are sent.
    pub loop_times: u32,
}

/// A request to the broker.
#[derive(Debug)]
pub struct Request {
    pub msg_type: MessageType,
    pub saddr: i32,
    pub daddr: i32,
    pub id: i32,
    pub content: String,
}

/// The message type with a name.
pub open spec fn type_named(name: Seq<char>) -> Option<MessageType> {
    if name == "MSG_SEND_REQ"@ {
        Some(MessageType::SendReq)
    } else if name == "MSG_FREE_REQ"@ {
        Some(MessageType::FreeReq)
    } else if name == "MSG_PUSH_REQ"@ {
        Some(MessageType::PushReq)
    } else if name == "MSG_HELO_REQ"@ {
        Some(MessageType::HeloReq)
    } else {
        None
    }
}

/// The signed number with the same bits.
pub open spec fn signed(word: u32) -> int {
    if word <= i32::MAX {
        word as int
    } else {
        word - 0x1_0000_0000
    }
}

/// The unsigned number with the same bits.
pub open spec fn unsigned(word: i32) -> nat {
    if word >= 0 {
        word as nat
    } else {
        (word + 0x1_0000_0000) as nat
    }
}

/// The lowest `n` bytes of a number, the lowest first.
pub open spec fn le_bytes(value: nat, n: nat) -> Seq<u8> {
    crate::bytes::be_bytes(value, n).reverse()
}

/// The encoding of five values: each number in little-endian order, and the text
/// in UTF-8 after the number of its bytes.
pub open spec fn serialized(
    kind: u32,
    saddr: i32,
    daddr: i32,
    id: i32,
    content: Seq<char>,
) -> Seq<u8> {
    let text = vstd::utf8::encode_utf8(content);
    le_bytes(kind as nat, 4) + le_bytes(unsigned(saddr), 4) + le_bytes(unsigned(daddr), 4)
        + le_bytes(unsigned(id), 4) + le_bytes(text.len(), 8) + text
}

/// The encoding of a request.
pub open spec fn request_bytes(request: Request) -> Seq<u8> {
    serialized(
        crate::message::type_code(request.msg_type) as u32,
        request.saddr,
        request.daddr,
        request.id,
        request.content@,
    )
}

/// Bytes followed by zeros up to the length of a request.
pub open spec fn padded(bytes: Seq<u8>) -> Seq<u8> {
    bytes + Seq::new((REQUEST_LEN - bytes.len()) as nat, |i: int| 0u8)
}

/// The arguments, each on a line of its own behind its name.
pub open spec fn args_text(args: Args) -> Seq<char> {
    "msg_type: "@ + args.msg_type@ + "\n"@ + "saddr: "@ + crate::text::decimal(args.saddr as nat)
        + "\n"@ + "daddr: "@ + crate::text::decimal(args.daddr as nat) + "\n"@ + "id: "@
        + crate::text::decimal(args.id as nat) + "\n"@ + "baddr: "@ + args.baddr@ + "\n"@
        + "loop_times: "@ + crate::text::decimal(args.loop_times as nat) + "\n"@
}

/// A request that greets is short enough to travel, whatever else it holds.
pub proof fn greeting_request_fits(request: Request)
    requires
        request.content@ == "hello"@,
    ensures
        request_bytes(request).len() == 29,
{
    reveal_strlit("hello");
    assert(vstd::string::is_ascii("hello"));
    vstd::string::is_ascii_spec_bytes("hello");
    crate::bytes::be_bytes_length(crate::message::type_code(request.msg_type) as nat, 4);
    crate::bytes::be_bytes_length(unsigned(request.saddr), 4);
    crate::bytes::be_bytes_length(unsigned(request.daddr), 4);
    crate::bytes::be_bytes_length(unsigned(request.id), 4);
    crate::bytes::be_bytes_length(5, 8);
}

/// Calls `bincode::serialize` on the tuple of these values.
#[verifier::external_body]
fn serialize_fields(kind: u32, saddr: i32, daddr: i32, id: i32, content: &String) -> (bytes: Vec<
    u8,
>)
    ensures
        bytes@ == serialized(kind, saddr, daddr, id, content@),
{
    bincode::serialize(&(kind, saddr, daddr, id, content)).unwrap()
}

/// Adds a line with a name and a value to a text.
fn add_line(text: &mut String, name: &str, value: &str)
    ensures
        final(text)@ == old(text)@ + name@ + value@ + "\n"@,
{
    text.append(name);
    text.append(value);
    text.append("\n");
}

impl Default for Args {
    /// The arguments of a client that is told nothing else.
    fn default() -> (args: Self)
        ensures
            args.msg_type@ == "MSG_SEND_REQ"@,
            args.saddr == 1,
            args.daddr == 100,
            args.id == 0,
            args.baddr@ == "127.0.0.1:21101"@,
            args.loop_times == 1,
    {
        Args {
            msg_type: "MSG_SEND_REQ".to_string(),
            saddr: 1,
            daddr: 100,
            id: 0,
            baddr: "127.0.0.1:21101".to_string(),
            loop_times: 1,
        }
    }
}

impl Args {
    /// Writes the arguments, each on a line of its own behind its name.
    pub fn to_string(&self) -> (text: String)
        ensures
            text@ == args_text(*self),
    {
        let mut text = String::new();
        add_line(&mut text, "msg_type: ", self.msg_type.as_str());
        add_line(&mut text, "saddr: ", write_decimal(self.saddr as u64).as_str());
        add_line(&mut text, "daddr: ", write_decimal(self.daddr as u64).as_str());
        add_line(&mut text, "id: ", write_decimal(self.id as u64).as_str());
        add_line(&mut text, "baddr: ", self.baddr.as_str());
        add_line(&mut text, "loop_times: ", write_decimal(self.loop_times as u64).as_str());
        assert(text@ =~= args_text(*self));
        text
    }

    /// The number after that of the last request, if it fits.
    pub fn end_of_ids(&self) -> (end: Option<u32>)
        ensures
            end == if self.id + self.loop_times <= u32::MAX {
                Some((self.id + self.loop_times) as u32)
            } else {
                None
            },
    {
        self.id.checked_add(self.loop_times)
    }

    /// The request with a number, if there is a message type of the name in the
    /// arguments. Addresses and number keep their bits.
    pub fn request(&self, id: u32) -> (request: Option<Request>)
        ensures
            request is Some <==> type_named(self.msg_type@) is Some,
            request matches Some(r) ==> {
                &&& type_named(self.msg_type@) == Some(r.msg_type)
                &&& r.saddr == signed(self.saddr)
                &&& r.daddr == signed(self.daddr)
                &&& r.id == signed(id)
                &&& r.content@ == "hello"@
            },
    {
        match parse_msg_type(self.msg_type.as_str()) {
            Some(msg_type) => Some(
                Request {
                    msg_type,
                    saddr: reinterpret(self.saddr),
                    daddr: reinterpret(self.daddr),
                    id: reinterpret(id),
                    content: "hello".to_string(),
                },
            ),
            None => None,
        }
    }
}

/// The signed number with the same bits.
fn reinterpret(word: u32) -> (number: i32)
    ensures
        number == signed(word),
{
    let number: i32 = #[verifier::truncate] (word as i32);
    assert(word <= 0x7fff_ffff ==> word as i32 == word) by (bit_vector);
    assert(word > 0x7fff_ffff ==> word as i32 == word - 0x1_0000_0000) by (bit_vector);
    number
}

/// The message type with a name.
pub fn parse_msg_type(name: &str) -> (msg_type: Option<MessageType>)
    ensures
        msg_type == type_named(name@),
{
    if same_text(name, "MSG_SEND_REQ") {
        Some(MessageType::SendReq)
    } else if same_text(name, "MSG_FREE_REQ") {
        Some(MessageType::FreeReq)
    } else if same_text(name, "MSG_PUSH_REQ") {
        Some(MessageType::PushReq)
    } else if same_text(name, "MSG_HELO_REQ") {
        Some(MessageType::HeloReq)
    } else {
        None
    }
}

/// Whether two texts hold the same characters.
fn same_text(left: &str, right: &str) -> (same: bool)
    ensures
        same == (left@ == right@),
{
    let len = left.unicode_len();
    if len != right.unicode_len() {
        return false;
    }
    let mut i: usize = 0;
    while i < len
        invariant
            i <= len,
            len == left@.len(),
            len == right@.len(),
            forall|k: int| 0 <= k < i ==> left@[k] == right@[k],
        decreases len - i,
    {
        if left.get_char(i) != right.get_char(i) {
            return false;
        }
        i = i + 1;
    }
    assert(left@ =~= right@);
    true
}

/// Encodes a request and fills it up to the length in which it travels. There is
/// no such form of a request whose encoding is longer.
pub fn format_request(request: &Request) -> (bytes: Option<Vec<u8>>)
    ensures
        match bytes {
            Some(b) => request_bytes(*request).len() <= REQUEST_LEN && b@ == padded(
                request_bytes(*request),
            ),
            None => request_bytes(*request).len() > REQUEST_LEN,
        },
{
    let mut bytes = serialize_fields(
        request.msg_type.code() as u32,
        request.saddr,
        request.daddr,
        request.id,
        &request.content,
    );
    let ghost raw = bytes@;
    if bytes.len() > REQUEST_LEN {
        return None;
    }
    while bytes.len() < REQUEST_LEN
        invariant
            raw.len() <= bytes@.len() <= REQUEST_LEN,
            bytes@.take(raw.len() as int) == raw,
            forall|k: int| raw.len() <= k < bytes@.len() ==> bytes@[k] == 0,
        decreases REQUEST_LEN - bytes@.len(),
    {
        let ghost before = bytes@;
        bytes.push(0);
        assert(bytes@.take(raw.len() as int) =~= before.take(raw.len() as int));
    }
    assert(bytes@ =~= padded(raw)) by {
        assert forall|k: int| 0 <= k < raw.len() implies bytes@[k] == raw[k] by {
            assert(bytes@.take(raw.len() as int)[k] == raw[k]);
        }
    }
    Some(bytes)
}

} // verus!
