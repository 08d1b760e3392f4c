//! Connection management: role, state machine, outgoing fragmentation,
//! and the transport-free connection engine.

pub mod fragmenter;
pub mod machine;
pub mod role;
pub mod state;

pub use fragmenter::MessageFragmenter;
pub use machine::Connection;
pub use machine::RecvStatus;
pub use role::Role;
pub use state::ConnectionState;
