//! The frame of a message on the wire: the message type and the payload
//! length as big-endian 32-bit integers, then the payload.

use vstd::prelude::*;

use crate::error::BbcprError;
use crate::identity::radix_string;

verus! {

/// Kinds of frame.
#[derive(Clone, Copy, Debug, PartialEq, Eq, Structural)]
pub enum MessageType {
    Handshake,
    FileInfo,
    DataChunk,
    Checksum,
    Complete,
    Error,
}

impl MessageType {
    /// The number that stands for the type on the wire.
    pub open spec fn spec_code(self) -> u32 {
        match self {
            MessageType::Handshake => 1,
            MessageType::FileInfo => 2,
            MessageType::DataChunk => 3,
            MessageType::Checksum => 4,
            MessageType::Complete => 5,
            MessageType::Error => 6,
        }
    }

    /// The type a number on the wire stands for, if any.
    pub open spec fn spec_from_code(code: u32) -> Option<MessageType> {
        if code == 1 {
            Some(MessageType::Handshake)
        } else if code == 2 {
            Some(MessageType::FileInfo)
        } else if code == 3 {
            Some(MessageType::DataChunk)
        } else if code == 4 {
            Some(MessageType::Checksum)
        } else if code == 5 {
            Some(MessageType::Complete)
        } else if code == 6 {
            Some(MessageType::Error)
        } else {
            None
        }
    }

    pub fn code(&self) -> (r: u32)
        ensures
            r == self.spec_code(),
    {
        match self {
            MessageType::Handshake => 1,
            MessageType::FileInfo => 2,
            MessageType::DataChunk => 3,
            MessageType::Checksum => 4,
            MessageType::Complete => 5,
            MessageType::Error => 6,
        }
    }

    pub fn from_code(code: u32) -> (r: Option<MessageType>)
        ensures
            r == Self::spec_from_code(code),
    {
        if code == 1 {
            Some(MessageType::Handshake)
        } else if code == 2 {
            Some(MessageType::FileInfo)
        } else if code == 3 {
            Some(MessageType::DataChunk)
        } else if code == 4 {
            Some(MessageType::Checksum)
        } else if code == 5 {
            Some(MessageType::Complete)
        } else if code == 6 {
            Some(MessageType::Error)
        } else {
            None
        }
    }
}

/// Every type reads back from its own code.
pub proof fn lemma_code_round_trip(t: MessageType)
    ensures
        MessageType::spec_from_code(t.spec_code()) == Some(t),
{
}

/// The four bytes of `x`, most significant first.
pub open spec fn be_bytes(x: u32) -> Seq<u8> {
    seq![
        (x >> 24u32) as u8,
        ((x >> 16u32) & 0xffu32) as u8,
        ((x >> 8u32) & 0xffu32) as u8,
        (x & 0xffu32) as u8,
    ]
}

/// The number that four bytes, most significant first, stand for.
pub open spec fn be_value(b0: u8, b1: u8, b2: u8, b3: u8) -> u32 {
    ((b0 as u32) << 24u32) | ((b1 as u32) << 16u32) | ((b2 as u32) << 8u32) | (b3 as u32)
}

/// The frame of a message of type code `code` carrying `payload`.
pub open spec fn frame(code: u32, payload: Seq<u8>) -> Seq<u8> {
    be_bytes(code) + be_bytes(payload.len() as u32) + payload
}

/// The type code in the header of `b`.
pub open spec fn header_type(b: Seq<u8>) -> u32 {
    be_value(b[0], b[1], b[2], b[3])
}

/// The payload length in the header of `b`.
pub open spec fn header_len(b: Seq<u8>) -> u32 {
    be_value(b[4], b[5], b[6], b[7])
}

/// What a frame holds: its type and its payload, or nothing when the header
/// is cut short, the payload is shorter than the header says, or the type is
/// unknown. Bytes past the payload are not part of the frame.
pub open spec fn parse_frame(b: Seq<u8>) -> Option<(MessageType, Seq<u8>)> {
    if b.len() < 8 {
        None
    } else if b.len() - 8 < header_len(b) {
        None
    } else {
        match MessageType::spec_from_code(header_type(b)) {
            Some(t) => Some((t, b.subrange(8, 8 + header_len(b)))),
            None => None,
        }
    }
}

proof fn lemma_be_round_trip(x: u32)
    ensures
        be_value(be_bytes(x)[0], be_bytes(x)[1], be_bytes(x)[2], be_bytes(x)[3]) == x,
{
    assert(((((x >> 24u32) as u8) as u32) << 24u32) | (((((x >> 16u32) & 0xffu32) as u8) as u32)
        << 16u32) | (((((x >> 8u32) & 0xffu32) as u8) as u32) << 8u32) | (((x & 0xffu32) as u8) as u32)
        == x) by (bit_vector);
}

/// Decoding the frame of a message gives back that message.
pub proof fn lemma_frame_round_trip(t: MessageType, payload: Seq<u8>)
    requires
        payload.len() <= u32::MAX,
    ensures
        parse_frame(frame(t.spec_code(), payload)) == Some((t, payload)),
{
    let b = frame(t.spec_code(), payload);
    lemma_be_round_trip(t.spec_code());
    lemma_be_round_trip(payload.len() as u32);
    assert(b[0] == be_bytes(t.spec_code())[0]);
    assert(b[1] == be_bytes(t.spec_code())[1]);
    assert(b[2] == be_bytes(t.spec_code())[2]);
    assert(b[3] == be_bytes(t.spec_code())[3]);
    assert(b[4] == be_bytes(payload.len() as u32)[0]);
    assert(b[5] == be_bytes(payload.len() as u32)[1]);
    assert(b[6] == be_bytes(payload.len() as u32)[2]);
    assert(b[7] == be_bytes(payload.len() as u32)[3]);
    assert(header_type(b) == t.spec_code());
    assert(header_len(b) == payload.len());
    assert(b.subrange(8, 8 + header_len(b)) =~= payload);
}

/// A typed payload, as it travels between two ends of a transfer.
pub struct ProtocolMessage {
    pub message_type: MessageType,
    pub data: Vec<u8>,
}

fn push_be_u32(out: &mut Vec<u8>, x: u32)
    ensures
        final(out)@ == old(out)@ + be_bytes(x),
{
    out.push((x >> 24u32) as u8);
    out.push(((x >> 16u32) & 0xffu32) as u8);
    out.push(((x >> 8u32) & 0xffu32) as u8);
    out.push((x & 0xffu32) as u8);
    proof {
        assert(final(out)@ =~= old(out)@ + be_bytes(x));
    }
}

fn read_be_u32(b: &[u8], at: usize) -> (r: u32)
    requires
        at + 4 <= b@.len(),
    ensures
        r == be_value(b@[at as int], b@[at + 1], b@[at + 2], b@[at + 3]),
{
    ((b[at] as u32) << 24u32) | ((b[at + 1] as u32) << 16u32) | ((b[at + 2] as u32) << 8u32) | (b[at
        + 3] as u32)
}

impl ProtocolMessage {
    pub fn new(message_type: MessageType, data: Vec<u8>) -> (r: Self)
        ensures
            r.message_type == message_type,
            r.data == data,
    {
        ProtocolMessage { message_type, data }
    }

    /// The frame of the message; the payload length must fit the 32-bit header field.
    pub fn encode(&self) -> (r: Vec<u8>)
        requires
            self.data@.len() <= u32::MAX,
        ensures
            r@ == frame(self.message_type.spec_code(), self.data@),
    {
        let mut out: Vec<u8> = Vec::new();
        push_be_u32(&mut out, self.message_type.code());
        push_be_u32(&mut out, self.data.len() as u32);
        let mut i: usize = 0;
        while i < self.data.len()
            invariant
                0 <= i <= self.data@.len(),
                self.data@.len() <= u32::MAX,
                out@ == be_bytes(self.message_type.spec_code()) + be_bytes(self.data@.len() as u32)
                    + self.data@.subrange(0, i as int),
            decreases self.data.len() - i,
        {
            out.push(self.data[i]);
            i = i + 1;
            proof {
                assert(self.data@.subrange(0, i as int) =~= self.data@.subrange(0, i - 1).push(
                    self.data@[i - 1],
                ));
            }
        }
        proof {
            assert(self.data@.subrange(0, self.data@.len() as int) =~= self.data@);
        }
        out
    }

    /// The message a frame holds. A frame cut short, a payload shorter than
    /// the header says, or an unknown type is a protocol error; bytes past
    /// the payload are ignored.
    pub fn decode(data: &[u8]) -> (r: Result<Self, BbcprError>)
        ensures
            match parse_frame(data@) {
                Some((t, payload)) => r matches Ok(m) && m.message_type == t && m.data@ == payload,
                None => r matches Err(e) && e is Protocol,
            },
    {
        if data.len() < 8 {
            return Err(BbcprError::Protocol(String::from_str("Invalid message: too short")));
        }
        let msg_type = read_be_u32(data, 0);
        let data_len = read_be_u32(data, 4);
        if ((data.len() - 8) as u64) < data_len as u64 {
            return Err(
                BbcprError::Protocol(String::from_str("Invalid message: data length mismatch")),
            );
        }
        let message_type = match MessageType::from_code(msg_type) {
            Some(t) => t,
            None => {
                let mut text = String::from_str("Unknown message type: ");
                let number = radix_string(msg_type as u64, 10);
                text.append(number.as_str());
                return Err(BbcprError::Protocol(text));
            },
        };
        let end: usize = 8 + data_len as usize;
        let mut payload: Vec<u8> = Vec::new();
        let mut i: usize = 8;
        while i < end
            invariant
                8 <= i <= end,
                end <= data@.len(),
                payload@ == data@.subrange(8, i as int),
            decreases end - i,
        {
            payload.push(data[i]);
            i = i + 1;
            proof {
                assert(data@.subrange(8, i as int) =~= data@.subrange(8, i - 1).push(data@[i - 1]));
            }
        }
        Ok(ProtocolMessage { message_type, data: payload })
    }
}

} // verus!
