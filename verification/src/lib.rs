//! Core of an RFC 6455 WebSocket protocol engine: frame codec, message
//! state machine, fragmentation and reassembly, masking, the RFC 7692
//! permessage-deflate extension, and the handshake parser.
//!
//! The crate is transport-agnostic: it works on byte buffers and leaves
//! all I/O to its callers.

pub mod config;
pub mod connection;
pub mod error;
pub mod extensions;
pub mod message;
pub mod protocol;

pub use config::Config;
pub use config::Limits;
pub use connection::Connection;
pub use connection::ConnectionState;
pub use connection::Role;
pub use error::Error;
pub use message::CloseCode;
pub use message::CloseFrame;
pub use message::Message;
pub use protocol::compute_accept_key;
pub use protocol::HandshakeRequest;
pub use protocol::HandshakeResponse;
pub use protocol::OpCode;
pub use protocol::WS_GUID;
