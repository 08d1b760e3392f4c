//! WebSocket frame opcodes as defined in RFC 6455.

use vstd::prelude::*;

use crate::error::Error;

verus! {

/// WebSocket frame opcode.
///
/// Defines the interpretation of the payload data.
#[derive(Debug, Clone, Copy, PartialEq, Eq, Hash, Structural)]
#[non_exhaustive]
pub enum OpCode {
    /// Continuation frame (0x0), used after the initial frame of a
    /// fragmented message.
    Continuation,
    /// Text frame (0x1); the payload must be valid UTF-8.
    Text,
    /// Binary frame (0x2); the payload is arbitrary bytes.
    Binary,
    /// Close frame (0x8); may carry a status code and reason.
    Close,
    /// Ping frame (0x9); the receiver must answer with a Pong.
    Ping,
    /// Pong frame (0xA); answers a Ping, or an unsolicited heartbeat.
    Pong,
}

/// The 4-bit wire value of an opcode.
pub open spec fn opcode_value(op: OpCode) -> u8 {
    match op {
        OpCode::Continuation => 0x0,
        OpCode::Text => 0x1,
        OpCode::Binary => 0x2,
        OpCode::Close => 0x8,
        OpCode::Ping => 0x9,
        OpCode::Pong => 0xA,
    }
}

/// How a 4-bit wire value decodes: the opcode it names, if any.
pub open spec fn opcode_of_value(byte: u8) -> Option<OpCode> {
    if byte == 0x0 {
        Some(OpCode::Continuation)
    } else if byte == 0x1 {
        Some(OpCode::Text)
    } else if byte == 0x2 {
        Some(OpCode::Binary)
    } else if byte == 0x8 {
        Some(OpCode::Close)
    } else if byte == 0x9 {
        Some(OpCode::Ping)
    } else if byte == 0xA {
        Some(OpCode::Pong)
    } else {
        None
    }
}

impl OpCode {
    /// Create an opcode from its raw wire value.
    ///
    /// Values 0x3-0x7 and 0xB-0xF are reserved by RFC 6455 and are
    /// rejected with [`Error::ReservedOpcode`]; values above 0xF cannot
    /// appear in the 4-bit field and yield [`Error::InvalidOpcode`].
    pub fn from_u8(byte: u8) -> (r: Result<Self, Error>)
        ensures
            r is Ok <==> opcode_of_value(byte) is Some,
            r is Ok ==> r->Ok_0 == opcode_of_value(byte)->0,
            r is Err && byte <= 0xF ==> r->Err_0 == Error::ReservedOpcode(byte),
            r is Err && byte > 0xF ==> r->Err_0 == Error::InvalidOpcode(byte),
    {
        if byte == 0x0 {
            Ok(OpCode::Continuation)
        } else if byte == 0x1 {
            Ok(OpCode::Text)
        } else if byte == 0x2 {
            Ok(OpCode::Binary)
        } else if byte == 0x8 {
            Ok(OpCode::Close)
        } else if byte == 0x9 {
            Ok(OpCode::Ping)
        } else if byte == 0xA {
            Ok(OpCode::Pong)
        } else if byte <= 0xF {
            Err(Error::ReservedOpcode(byte))
        } else {
            Err(Error::InvalidOpcode(byte))
        }
    }

    /// The raw 4-bit wire value of this opcode.
    pub fn as_u8(self) -> (r: u8)
        ensures
            r == opcode_value(self),
    {
        match self {
            OpCode::Continuation => 0x0,
            OpCode::Text => 0x1,
            OpCode::Binary => 0x2,
            OpCode::Close => 0x8,
            OpCode::Ping => 0x9,
            OpCode::Pong => 0xA,
        }
    }

    /// Whether this is a control opcode: Close, Ping or Pong.
    pub fn is_control(self) -> (r: bool)
        ensures
            r == self.spec_is_control(),
    {
        match self {
            OpCode::Close | OpCode::Ping | OpCode::Pong => true,
            _ => false,
        }
    }

    /// Whether this is a data opcode: Continuation, Text or Binary.
    pub fn is_data(self) -> (r: bool)
        ensures
            r == self.spec_is_data(),
    {
        match self {
            OpCode::Continuation | OpCode::Text | OpCode::Binary => true,
            _ => false,
        }
    }

    /// Whether this opcode is a control opcode, as a predicate.
    pub open spec fn spec_is_control(self) -> bool {
        self is Close || self is Ping || self is Pong
    }

    /// Whether this opcode is a data opcode, as a predicate.
    pub open spec fn spec_is_data(self) -> bool {
        self is Continuation || self is Text || self is Binary
    }

    /// A human-readable name for this opcode.
    pub fn name(self) -> (r: &'static str)
        ensures
            self is Continuation ==> r@ == "Continuation"@,
            self is Text ==> r@ == "Text"@,
            self is Binary ==> r@ == "Binary"@,
            self is Close ==> r@ == "Close"@,
            self is Ping ==> r@ == "Ping"@,
            self is Pong ==> r@ == "Pong"@,
    {
        match self {
            OpCode::Continuation => "Continuation",
            OpCode::Text => "Text",
            OpCode::Binary => "Binary",
            OpCode::Close => "Close",
            OpCode::Ping => "Ping",
            OpCode::Pong => "Pong",
        }
    }
}

/// Encoding then decoding a 4-bit opcode value is the identity, and the
/// wire values the decoder accepts are exactly the six of RFC 6455.
pub proof fn lemma_opcode_value_roundtrip(op: OpCode)
    ensures
        opcode_of_value(opcode_value(op)) == Some(op),
{
}

} // verus!
