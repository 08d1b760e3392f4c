//! WebSocket connection lifecycle states (RFC 6455).

use vstd::prelude::*;

verus! {

/// Lifecycle state of a WebSocket connection. Only `Open` permits
/// sending; `Open` and `Closing` permit receiving; `Closed` is terminal.
#[derive(Debug, Clone, Copy, PartialEq, Eq, Hash, Structural)]
#[non_exhaustive]
pub enum ConnectionState {
    /// Handshake in progress.
    Connecting,
    /// Open for data transfer.
    Open,
    /// Close handshake initiated, waiting for the peer's close frame.
    Closing,
    /// Fully closed.
    Closed,
}

impl ConnectionState {
    /// Whether the connection is still active: every state but `Closed`.
    pub fn is_active(&self) -> (r: bool)
        ensures
            r == !(self is Closed),
    {
        match self {
            ConnectionState::Closed => false,
            _ => true,
        }
    }

    /// Whether sending is allowed: only in `Open`.
    pub fn can_send(&self) -> (r: bool)
        ensures
            r == (self is Open),
    {
        match self {
            ConnectionState::Open => true,
            _ => false,
        }
    }

    /// Whether receiving is allowed: in `Open` or `Closing`.
    pub fn can_receive(&self) -> (r: bool)
        ensures
            r == (self is Open || self is Closing),
    {
        match self {
            ConnectionState::Open | ConnectionState::Closing => true,
            _ => false,
        }
    }

    /// The state's name.
    pub fn name(&self) -> (r: &'static str)
        ensures
            self is Connecting ==> r@ == "Connecting"@,
            self is Open ==> r@ == "Open"@,
            self is Closing ==> r@ == "Closing"@,
            self is Closed ==> r@ == "Closed"@,
    {
        match self {
            ConnectionState::Connecting => "Connecting",
            ConnectionState::Open => "Open",
            ConnectionState::Closing => "Closing",
            ConnectionState::Closed => "Closed",
        }
    }
}

impl Default for ConnectionState {
    /// A connection starts in `Connecting`.
    fn default() -> (r: Self)
        ensures
            r is Connecting,
    {
        ConnectionState::Connecting
    }
}

} // verus!
