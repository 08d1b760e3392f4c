//! WebSocket message types and close codes (RFC 6455).

use vstd::prelude::*;

verus! {

/// WebSocket close status code per RFC 6455 section 7.4.
#[derive(Debug, Clone, Copy, PartialEq, Eq, Hash, Structural)]
#[non_exhaustive]
pub enum CloseCode {
    /// Normal closure (1000).
    Normal,
    /// Going away (1001): server shutdown or navigation away.
    GoingAway,
    /// Protocol error (1002): malformed frame or protocol violation.
    ProtocolError,
    /// Unsupported data (1003): a data type the endpoint cannot handle.
    UnsupportedData,
    /// Invalid payload (1007): for example non-UTF-8 in a text message.
    InvalidPayload,
    /// Policy violation (1008).
    PolicyViolation,
    /// Message too big (1009).
    MessageTooBig,
    /// Mandatory extension (1010).
    MandatoryExtension,
    /// Internal error (1011).
    InternalError,
    /// Any other code: registered codes 1012-1014, reserved values, and
    /// the application range 3000-4999.
    Other(u16),
}

/// The code a numeric value names; every value outside the nine named
/// codes maps to `Other`.
pub open spec fn close_code_of(code: u16) -> CloseCode {
    if code == 1000 {
        CloseCode::Normal
    } else if code == 1001 {
        CloseCode::GoingAway
    } else if code == 1002 {
        CloseCode::ProtocolError
    } else if code == 1003 {
        CloseCode::UnsupportedData
    } else if code == 1007 {
        CloseCode::InvalidPayload
    } else if code == 1008 {
        CloseCode::PolicyViolation
    } else if code == 1009 {
        CloseCode::MessageTooBig
    } else if code == 1010 {
        CloseCode::MandatoryExtension
    } else if code == 1011 {
        CloseCode::InternalError
    } else {
        CloseCode::Other(code)
    }
}

/// The numeric value of a close code.
pub open spec fn close_code_value(c: CloseCode) -> u16 {
    match c {
        CloseCode::Normal => 1000,
        CloseCode::GoingAway => 1001,
        CloseCode::ProtocolError => 1002,
        CloseCode::UnsupportedData => 1003,
        CloseCode::InvalidPayload => 1007,
        CloseCode::PolicyViolation => 1008,
        CloseCode::MessageTooBig => 1009,
        CloseCode::MandatoryExtension => 1010,
        CloseCode::InternalError => 1011,
        CloseCode::Other(code) => code,
    }
}

/// The close-code values an endpoint may send: 1000-1003, 1007-1014 and
/// 3000-4999 (RFC 6455 section 7.4.1).
pub open spec fn close_code_valid(code: u16) -> bool {
    (1000 <= code <= 1003) || (1007 <= code <= 1014) || (3000 <= code <= 4999)
}

/// The reserved close-code values that must not appear on the wire:
/// 1004, 1005, 1006 and 1015.
pub open spec fn close_code_reserved(code: u16) -> bool {
    (1004 <= code <= 1006) || code == 1015
}

impl CloseCode {
    /// Create a close code from its numeric value.
    pub fn from_u16(code: u16) -> (r: Self)
        ensures
            r == close_code_of(code),
    {
        if code == 1000 {
            CloseCode::Normal
        } else if code == 1001 {
            CloseCode::GoingAway
        } else if code == 1002 {
            CloseCode::ProtocolError
        } else if code == 1003 {
            CloseCode::UnsupportedData
        } else if code == 1007 {
            CloseCode::InvalidPayload
        } else if code == 1008 {
            CloseCode::PolicyViolation
        } else if code == 1009 {
            CloseCode::MessageTooBig
        } else if code == 1010 {
            CloseCode::MandatoryExtension
        } else if code == 1011 {
            CloseCode::InternalError
        } else {
            CloseCode::Other(code)
        }
    }

    /// The numeric value of this close code.
    pub fn as_u16(&self) -> (r: u16)
        ensures
            r == close_code_value(*self),
    {
        match self {
            CloseCode::Normal => 1000,
            CloseCode::GoingAway => 1001,
            CloseCode::ProtocolError => 1002,
            CloseCode::UnsupportedData => 1003,
            CloseCode::InvalidPayload => 1007,
            CloseCode::PolicyViolation => 1008,
            CloseCode::MessageTooBig => 1009,
            CloseCode::MandatoryExtension => 1010,
            CloseCode::InternalError => 1011,
            CloseCode::Other(code) => *code,
        }
    }

    /// Whether this code may be sent in a close frame.
    pub fn is_valid(&self) -> (r: bool)
        ensures
            r == close_code_valid(close_code_value(*self)),
    {
        let code = self.as_u16();
        (1000 <= code && code <= 1003) || (1007 <= code && code <= 1014) || (3000 <= code
            && code <= 4999)
    }

    /// Whether this code is reserved and must not be sent.
    pub fn is_reserved(&self) -> (r: bool)
        ensures
            r == close_code_reserved(close_code_value(*self)),
    {
        let code = self.as_u16();
        (1004 <= code && code <= 1006) || code == 1015
    }
}

impl Default for CloseCode {
    /// The default close code is `Normal` (1000).
    fn default() -> (r: Self)
        ensures
            r is Normal,
    {
        CloseCode::Normal
    }
}

/// Numbering close codes round-trips: reading a value back from the
/// code it names gives the value, and decoding any named code's value
/// gives the code back.
pub proof fn lemma_close_code_roundtrip(code: u16)
    ensures
        close_code_value(close_code_of(code)) == code,
{
}

/// A close frame's content: status code and a human-readable reason.
#[derive(Debug, Clone, PartialEq, Eq)]
pub struct CloseFrame {
    /// The close status code.
    pub code: CloseCode,
    /// Reason for closing: UTF-8, at most 123 bytes on the wire.
    pub reason: String,
}

impl CloseFrame {
    /// Create a new close frame with the given code and reason.
    pub fn new(code: CloseCode, reason: String) -> (r: Self)
        ensures
            r.code == code,
            r.reason@ == reason@,
    {
        CloseFrame { code, reason }
    }
}

/// A WebSocket message: the unit a caller sends and receives.
#[derive(Debug, Clone, PartialEq, Eq)]
#[non_exhaustive]
pub enum Message {
    /// A text message; guaranteed valid UTF-8.
    Text(String),
    /// A binary message of arbitrary bytes.
    Binary(Vec<u8>),
    /// A ping control message, payload at most 125 bytes on the wire.
    Ping(Vec<u8>),
    /// A pong control message, payload at most 125 bytes on the wire.
    Pong(Vec<u8>),
    /// A close control message with an optional code and reason.
    Close(Option<CloseFrame>),
}

impl Message {
    /// Create a text message.
    pub fn text(s: String) -> (r: Self)
        ensures
            r matches Message::Text(t) && t@ == s@,
    {
        Message::Text(s)
    }

    /// Create a binary message.
    pub fn binary(data: Vec<u8>) -> (r: Self)
        ensures
            r matches Message::Binary(d) && d@ == data@,
    {
        Message::Binary(data)
    }

    /// Create a ping message.
    pub fn ping(data: Vec<u8>) -> (r: Self)
        ensures
            r matches Message::Ping(d) && d@ == data@,
    {
        Message::Ping(data)
    }

    /// Create a pong message.
    pub fn pong(data: Vec<u8>) -> (r: Self)
        ensures
            r matches Message::Pong(d) && d@ == data@,
    {
        Message::Pong(data)
    }

    /// Create a close message with a status code and reason.
    pub fn close(code: CloseCode, reason: String) -> (r: Self)
        ensures
            r matches Message::Close(f) && f matches Some(cf) && cf.code == code && cf.reason@
                == reason@,
    {
        Message::Close(Some(CloseFrame::new(code, reason)))
    }

    /// Whether this is a text message.
    pub fn is_text(&self) -> (r: bool)
        ensures
            r == (self is Text),
    {
        match self {
            Message::Text(_) => true,
            _ => false,
        }
    }

    /// Whether this is a binary message.
    pub fn is_binary(&self) -> (r: bool)
        ensures
            r == (self is Binary),
    {
        match self {
            Message::Binary(_) => true,
            _ => false,
        }
    }

    /// Whether this is a data message: text or binary.
    pub fn is_data(&self) -> (r: bool)
        ensures
            r == (self is Text || self is Binary),
    {
        match self {
            Message::Text(_) | Message::Binary(_) => true,
            _ => false,
        }
    }

    /// Whether this is a control message: ping, pong or close.
    pub fn is_control(&self) -> (r: bool)
        ensures
            r == (self is Ping || self is Pong || self is Close),
    {
        match self {
            Message::Ping(_) | Message::Pong(_) | Message::Close(_) => true,
            _ => false,
        }
    }

    /// The text content, if this is a text message.
    pub fn into_text(self) -> (r: Option<String>)
        ensures
            self matches Message::Text(s) ==> r matches Some(t) && t@ == s@,
            !(self is Text) ==> r is None,
    {
        match self {
            Message::Text(s) => Some(s),
            _ => None,
        }
    }

    /// The binary content, if this is a binary message.
    pub fn into_binary(self) -> (r: Option<Vec<u8>>)
        ensures
            self matches Message::Binary(d) ==> r matches Some(v) && v@ == d@,
            !(self is Binary) ==> r is None,
    {
        match self {
            Message::Binary(data) => Some(data),
            _ => None,
        }
    }

    /// Borrow the text content, if this is a text message.
    pub fn as_text(&self) -> (r: Option<&str>)
        ensures
            self matches Message::Text(s) ==> r matches Some(t) && t@ == s@,
            !(self is Text) ==> r is None,
    {
        match self {
            Message::Text(s) => Some(s.as_str()),
            _ => None,
        }
    }

    /// Borrow the binary content, if this is a binary message.
    pub fn as_binary(&self) -> (r: Option<&Vec<u8>>)
        ensures
            self matches Message::Binary(d) ==> r matches Some(v) && v@ == d@,
            !(self is Binary) ==> r is None,
    {
        match self {
            Message::Binary(data) => Some(data),
            _ => None,
        }
    }
}

} // verus!
