use crate::types::{copy_questions, decimal, decimal_string, empty_message, DnsMessage, MessageV};
use crate::wire::{decode_message, encode_message, wire_bytes, wire_message};
use vstd::prelude::*;

verus! {

/// An error reading or writing a message.
#[derive(Debug)]
pub enum MessageError {
    /// The bytes are not a DNS message (hickory-proto's error text).
    Parse(String),
    /// A query must hold exactly one question.
    InvalidQueryCount(u16),
    /// The message does not fit the size limit.
    TooLarge { size: usize, limit: usize },
}

impl MessageError {
    pub open spec fn spec_message(&self) -> Seq<char> {
        match self {
            MessageError::Parse(e) => "failed to parse DNS message: "@ + e@,
            MessageError::InvalidQueryCount(n) => "invalid query count: expected 1, got "@ + decimal(*n as nat),
            MessageError::TooLarge { size, limit } =>
                "message too large: "@ + decimal(*size as nat) + " bytes exceeds limit of "@ + decimal(*limit as nat),
        }
    }

    /// The message that describes the error.
    pub fn message(&self) -> (r: String)
        ensures
            r@ == self.spec_message(),
    {
        match self {
            MessageError::Parse(e) => {
                let mut s = "failed to parse DNS message: ".to_owned();
                s.append(e.as_str());
                s
            },
            MessageError::InvalidQueryCount(n) => {
                let mut s = "invalid query count: expected 1, got ".to_owned();
                s.append(decimal_string(*n as u64).as_str());
                s
            },
            MessageError::TooLarge { size, limit } => {
                let mut s = "message too large: ".to_owned();
                s.append(decimal_string(*size as u64).as_str());
                s.append(" bytes exceeds limit of ");
                s.append(decimal_string(*limit as u64).as_str());
                s
            },
        }
    }
}

/// Read a query from wire format: it must decode and hold exactly one
/// question (QDCOUNT == 1).
pub fn parse_message(bytes: &[u8]) -> (r: Result<DnsMessage, MessageError>)
    ensures
        match wire_message(bytes@) {
            None => r matches Err(MessageError::Parse(_)),
            Some(m) => if m.queries.len() == 1 {
                r matches Ok(x) && x@ == m
            } else {
                r matches Err(MessageError::InvalidQueryCount(c)) && c == m.queries.len() as u16
            },
        },
{
    match decode_message(bytes) {
        Err(e) => Err(MessageError::Parse(e)),
        Ok(msg) => {
            let n = msg.queries.len();
            if n != 1 {
                Err(MessageError::InvalidQueryCount(n as u16))
            } else {
                Ok(msg)
            }
        },
    }
}

/// Write a message in wire format.
pub fn serialize_message(msg: &DnsMessage) -> (r: Result<Vec<u8>, MessageError>)
    ensures
        r is Ok <==> wire_bytes(msg@) is Some,
        r matches Ok(b) ==> wire_bytes(msg@) == Some(b@),
{
    match encode_message(msg) {
        Ok(b) => Ok(b),
        Err(e) => Err(MessageError::Parse(e)),
    }
}

/// What is sent in place of a message too large for the limit: its header
/// with TC set, and its questions only.
pub open spec fn truncated_form(m: MessageV) -> MessageV {
    MessageV {
        id: m.id,
        message_type: m.message_type,
        op_code: m.op_code,
        authoritative: m.authoritative,
        truncated: true,
        recursion_desired: m.recursion_desired,
        recursion_available: m.recursion_available,
        response_code: m.response_code,
        queries: m.queries,
        ..empty_message()
    }
}

/// Write a message in wire format within `max_size` bytes: when it does not
/// fit, its truncated form (header with TC set and the questions) is written
/// instead.
pub fn serialize_with_limit(msg: &DnsMessage, max_size: usize) -> (r: Result<Vec<u8>, MessageError>)
    ensures
        match wire_bytes(msg@) {
            None => r is Err,
            Some(b) => if b.len() <= max_size {
                r matches Ok(x) && x@ == b
            } else {
                match wire_bytes(truncated_form(msg@)) {
                    Some(t) => r matches Ok(x) && x@ == t,
                    None => r is Err,
                }
            },
        },
{
    let bytes = match encode_message(msg) {
        Ok(b) => b,
        Err(e) => {
            return Err(MessageError::Parse(e));
        },
    };
    if bytes.len() <= max_size {
        return Ok(bytes);
    }
    let mut truncated = DnsMessage::new();
    truncated.id = msg.id;
    truncated.message_type = msg.message_type;
    truncated.op_code = msg.op_code;
    truncated.authoritative = msg.authoritative;
    truncated.truncated = true;
    truncated.recursion_desired = msg.recursion_desired;
    truncated.recursion_available = msg.recursion_available;
    truncated.response_code = msg.response_code;
    truncated.queries = copy_questions(&msg.queries);
    assert(truncated@ == truncated_form(msg@));
    match encode_message(&truncated) {
        Ok(b) => Ok(b),
        Err(e) => Err(MessageError::Parse(e)),
    }
}

/// An error converting a message to or from wire format (hickory-proto's
/// error text).
#[derive(Debug)]
pub enum SerializeError {
    Proto(String),
}

impl SerializeError {
    /// The message that describes the error.
    pub fn message(&self) -> (r: String)
        ensures
            r@ == (match self {
                SerializeError::Proto(e) => "serialization error: "@ + e@,
            }),
    {
        match self {
            SerializeError::Proto(e) => {
                let mut s = "serialization error: ".to_owned();
                s.append(e.as_str());
                s
            },
        }
    }
}

/// Values that have a DNS wire format.
pub trait WireFormat: Sized {
    fn to_wire(&self) -> Result<Vec<u8>, SerializeError>;

    fn from_wire(data: &[u8]) -> Result<Self, SerializeError>;
}

impl WireFormat for DnsMessage {
    /// The message in wire format.
    fn to_wire(&self) -> (r: Result<Vec<u8>, SerializeError>)
        ensures
            r is Ok <==> wire_bytes(self@) is Some,
            r matches Ok(b) ==> wire_bytes(self@) == Some(b@),
    {
        match encode_message(self) {
            Ok(b) => Ok(b),
            Err(e) => Err(SerializeError::Proto(e)),
        }
    }

    /// The message these bytes hold, whatever its number of questions.
    fn from_wire(data: &[u8]) -> (r: Result<DnsMessage, SerializeError>)
        ensures
            r is Ok <==> wire_message(data@) is Some,
            r matches Ok(m) ==> wire_message(data@) == Some(m@),
    {
        match decode_message(data) {
            Ok(m) => Ok(m),
            Err(e) => Err(SerializeError::Proto(e)),
        }
    }
}

} // verus!
