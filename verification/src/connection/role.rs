//! WebSocket connection role (client or server).

use vstd::prelude::*;

verus! {

/// WebSocket connection role; determines the masking direction per
/// RFC 6455 section 5.1.
#[derive(Debug, Clone, Copy, PartialEq, Eq, Hash, Structural)]
pub enum Role {
    /// Client role: must mask every outgoing frame.
    Client,
    /// Server role: must not mask outgoing frames.
    Server,
}

impl Role {
    /// Whether this role must mask outgoing frames: true exactly for
    /// clients.
    pub fn must_mask(&self) -> (r: bool)
        ensures
            r == (self is Client),
    {
        match self {
            Role::Client => true,
            Role::Server => false,
        }
    }

    /// Whether this role expects incoming frames to be masked: true
    /// exactly for servers.
    pub fn expects_masked(&self) -> (r: bool)
        ensures
            r == (self is Server),
    {
        match self {
            Role::Server => true,
            Role::Client => false,
        }
    }

    /// The role's name.
    pub fn name(&self) -> (r: &'static str)
        ensures
            self is Client ==> r@ == "Client"@,
            self is Server ==> r@ == "Server"@,
    {
        match self {
            Role::Client => "Client",
            Role::Server => "Server",
        }
    }
}

} // verus!
