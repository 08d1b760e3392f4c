//! Error values for WebSocket operations.
//!
//! Every failure the engine can report is a value of [`Error`]; nothing
//! here panics. Parsing reports missing input through
//! [`Error::IncompleteFrame`] so that callers can read more bytes and
//! retry; every other variant is either fatal to the connection or
//! recoverable locally.

use vstd::prelude::*;
use vstd::string::StringExecFns;

verus! {

/// Errors that can occur during WebSocket operations.
#[derive(Debug, Clone, PartialEq, Eq)]
#[non_exhaustive]
pub enum Error {
    /// Invalid frame structure or header.
    InvalidFrame(String),
    /// Protocol violation detected.
    ProtocolViolation(String),
    /// Invalid UTF-8 in a text frame or close reason.
    InvalidUtf8,
    /// Frame size exceeds the configured maximum.
    FrameTooLarge { size: usize, max: usize },
    /// Message size exceeds the configured maximum.
    MessageTooLarge { size: usize, max: usize },
    /// Too many fragments in a single message.
    TooManyFragments { count: usize, max: usize },
    /// The connection has been closed, with the close code if one was seen.
    ConnectionClosed(Option<u16>),
    /// Invalid WebSocket handshake.
    InvalidHandshake(String),
    /// I/O error reported by the transport.
    Io(String),
    /// Extension processing error.
    Extension(String),
    /// A reserved close code that must not be sent on the wire.
    InvalidCloseCode(u16),
    /// A reserved opcode value appeared on the wire.
    ReservedOpcode(u8),
    /// A control frame arrived with the final flag clear.
    FragmentedControlFrame,
    /// A control frame payload exceeded 125 bytes.
    ControlFrameTooLarge(usize),
    /// A server received an unmasked frame from a client.
    UnmaskedClientFrame,
    /// A client received a masked frame from a server.
    MaskedServerFrame,
    /// Reserved header bits were set without a negotiated extension.
    ReservedBitsSet,
    /// Not enough bytes for a whole frame; `needed` more are required.
    IncompleteFrame { needed: usize },
    /// An opcode value outside the 4-bit range.
    InvalidOpcode(u8),
    /// Invalid extension configuration or negotiation.
    InvalidExtension(String),
    /// A 64-bit payload length that does not fit the host word width.
    PayloadTooLargeForPlatform { size: u64, max: u64 },
    /// A response header value that would break the header line.
    InvalidHeaderValue { header: String, reason: String },
    /// The request's Origin is not on the allow-list.
    OriginNotAllowed { origin: String },
    /// Handshake bytes exceed the configured maximum.
    HandshakeTooLarge { size: usize, max: usize },
}

/// The decimal digits of a number, most significant first.
pub open spec fn dec_chars(n: nat) -> Seq<char>
    decreases n,
{
    if n < 10 {
        seq![digit_char(n)]
    } else {
        dec_chars(n / 10) + seq![digit_char(n % 10)]
    }
}

/// The character for one decimal digit.
pub open spec fn digit_char(d: nat) -> char {
    if d == 0 {
        '0'
    } else if d == 1 {
        '1'
    } else if d == 2 {
        '2'
    } else if d == 3 {
        '3'
    } else if d == 4 {
        '4'
    } else if d == 5 {
        '5'
    } else if d == 6 {
        '6'
    } else if d == 7 {
        '7'
    } else if d == 8 {
        '8'
    } else {
        '9'
    }
}

/// Relies on the standard formatter: the decimal text of a number,
/// most significant digit first, no sign, no leading zeros.
#[verifier::external_body]
fn usize_text(n: usize) -> (r: String)
    ensures
        r@ == dec_chars(n as nat),
{
    format!("{}", n)
}

impl Error {
    /// A human-readable description of the error, exactly as
    /// [`spec_message`] lays it out.
    pub fn message(&self) -> (r: String)
        ensures
            r@ == spec_message(self),
    {
        match self {
            Error::InvalidFrame(s) => concat2("Invalid frame: ", s.as_str()),
            Error::ProtocolViolation(s) => concat2("Protocol violation: ", s.as_str()),
            Error::InvalidUtf8 => String::from_str("Invalid UTF-8 in text frame"),
            Error::FrameTooLarge { size, max } => size_max_text("Frame too large: ", *size, *max),
            Error::MessageTooLarge { size, max } => size_max_text(
                "Message too large: ",
                *size,
                *max,
            ),
            Error::TooManyFragments { count, max } => {
                let mut out = String::from_str("Too many fragments: ");
                let c = usize_text(*count);
                out.append(c.as_str());
                out.append(" (max: ");
                let m = usize_text(*max);
                out.append(m.as_str());
                out.append(")");
                out
            },
            Error::ConnectionClosed(_) => String::from_str("Connection closed"),
            Error::InvalidHandshake(s) => concat2("Invalid handshake: ", s.as_str()),
            Error::Io(s) => concat2("I/O error: ", s.as_str()),
            Error::Extension(s) => concat2("Extension error: ", s.as_str()),
            Error::InvalidCloseCode(code) => {
                let mut out = String::from_str("Invalid close code: ");
                let c = usize_text(*code as usize);
                out.append(c.as_str());
                out
            },
            Error::ReservedOpcode(_) => String::from_str("Reserved opcode"),
            Error::FragmentedControlFrame => String::from_str(
                "Control frames cannot be fragmented",
            ),
            Error::ControlFrameTooLarge(size) => {
                let mut out = String::from_str("Control frame payload too large: ");
                let c = usize_text(*size);
                out.append(c.as_str());
                out.append(" bytes (max: 125)");
                out
            },
            Error::UnmaskedClientFrame => String::from_str("Client frame must be masked"),
            Error::MaskedServerFrame => String::from_str("Server frame must not be masked"),
            Error::ReservedBitsSet => String::from_str(
                "Reserved bits set without negotiated extension",
            ),
            Error::IncompleteFrame { needed } => {
                let mut out = String::from_str("Incomplete frame: need ");
                let c = usize_text(*needed);
                out.append(c.as_str());
                out.append(" more bytes");
                out
            },
            Error::InvalidOpcode(_) => String::from_str("Invalid opcode"),
            Error::InvalidExtension(s) => concat2("Invalid extension: ", s.as_str()),
            Error::PayloadTooLargeForPlatform { .. } => String::from_str(
                "Payload too large for this platform",
            ),
            Error::InvalidHeaderValue { header, reason } => {
                let mut out = String::from_str("Invalid header value in ");
                out.append(header.as_str());
                out.append(": ");
                out.append(reason.as_str());
                out
            },
            Error::OriginNotAllowed { origin } => concat2("Origin not allowed: ", origin.as_str()),
            Error::HandshakeTooLarge { size, max } => size_max_text(
                "Handshake too large: ",
                *size,
                *max,
            ),
        }
    }
}

/// Two strings joined.
fn concat2(prefix: &str, rest: &str) -> (r: String)
    ensures
        r@ == prefix@ + rest@,
{
    let mut out = String::from_str(prefix);
    out.append(rest);
    out
}

/// A "<prefix><size> bytes (max: <max>)" line.
fn size_max_text(prefix: &str, size: usize, max: usize) -> (r: String)
    ensures
        r@ == prefix@ + dec_chars(size as nat) + " bytes (max: "@ + dec_chars(max as nat)
            + ")"@,
{
    let mut out = String::from_str(prefix);
    let s = usize_text(size);
    out.append(s.as_str());
    out.append(" bytes (max: ");
    let m = usize_text(max);
    out.append(m.as_str());
    out.append(")");
    out
}

/// What [`Error::message`] says for each error value.
pub open spec fn spec_message(e: &Error) -> Seq<char> {
    match e {
        Error::InvalidFrame(s) => "Invalid frame: "@ + s@,
        Error::ProtocolViolation(s) => "Protocol violation: "@ + s@,
        Error::InvalidUtf8 => "Invalid UTF-8 in text frame"@,
        Error::FrameTooLarge { size, max } => "Frame too large: "@ + dec_chars(*size as nat)
            + " bytes (max: "@ + dec_chars(*max as nat) + ")"@,
        Error::MessageTooLarge { size, max } => "Message too large: "@ + dec_chars(
            *size as nat,
        ) + " bytes (max: "@ + dec_chars(*max as nat) + ")"@,
        Error::TooManyFragments { count, max } => "Too many fragments: "@ + dec_chars(
            *count as nat,
        ) + " (max: "@ + dec_chars(*max as nat) + ")"@,
        Error::ConnectionClosed(_) => "Connection closed"@,
        Error::InvalidHandshake(s) => "Invalid handshake: "@ + s@,
        Error::Io(s) => "I/O error: "@ + s@,
        Error::Extension(s) => "Extension error: "@ + s@,
        Error::InvalidCloseCode(code) => "Invalid close code: "@ + dec_chars(*code as nat),
        Error::ReservedOpcode(_) => "Reserved opcode"@,
        Error::FragmentedControlFrame => "Control frames cannot be fragmented"@,
        Error::ControlFrameTooLarge(size) => "Control frame payload too large: "@ + dec_chars(
            *size as nat,
        ) + " bytes (max: 125)"@,
        Error::UnmaskedClientFrame => "Client frame must be masked"@,
        Error::MaskedServerFrame => "Server frame must not be masked"@,
        Error::ReservedBitsSet => "Reserved bits set without negotiated extension"@,
        Error::IncompleteFrame { needed } => "Incomplete frame: need "@ + dec_chars(
            *needed as nat,
        ) + " more bytes"@,
        Error::InvalidOpcode(_) => "Invalid opcode"@,
        Error::InvalidExtension(s) => "Invalid extension: "@ + s@,
        Error::PayloadTooLargeForPlatform { .. } => "Payload too large for this platform"@,
        Error::InvalidHeaderValue { header, reason } => "Invalid header value in "@ + header@
            + ": "@ + reason@,
        Error::OriginNotAllowed { origin } => "Origin not allowed: "@ + origin@,
        Error::HandshakeTooLarge { size, max } => "Handshake too large: "@ + dec_chars(
            *size as nat,
        ) + " bytes (max: "@ + dec_chars(*max as nat) + ")"@,
    }
}

#[verifier::external_type_specification]
#[verifier::external_body]
pub struct ExUtf8Error(core::str::Utf8Error);

impl From<core::str::Utf8Error> for Error {
    /// A UTF-8 decoding failure is the invalid-UTF-8 error.
    fn from(_e: core::str::Utf8Error) -> (r: Self) {
        Error::InvalidUtf8
    }
}

impl vstd::std_specs::convert::FromSpecImpl<core::str::Utf8Error> for Error {
    open spec fn obeys_from_spec() -> bool {
        true
    }

    open spec fn from_spec(e: core::str::Utf8Error) -> Error {
        Error::InvalidUtf8
    }
}

#[verifier::external_type_specification]
#[verifier::external_body]
pub struct ExIoError(std::io::Error);

/// Relies on the standard library: an I/O error's display text.
#[verifier::external_body]
fn io_error_text(e: &std::io::Error) -> String {
    e.to_string()
}

impl From<std::io::Error> for Error {
    /// An I/O failure carries the transport's own description.
    fn from(e: std::io::Error) -> (r: Self) {
        Error::Io(io_error_text(&e))
    }
}

impl vstd::std_specs::convert::FromSpecImpl<std::io::Error> for Error {
    open spec fn obeys_from_spec() -> bool {
        false
    }

    open spec fn from_spec(e: std::io::Error) -> Error {
        Error::InvalidUtf8
    }
}

} // verus!
