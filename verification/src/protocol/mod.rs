//! WebSocket protocol core (RFC 6455): opcodes, masking, frames.

pub mod assembler;
pub mod frame;
pub mod handshake;
pub mod mask;
pub mod opcode;
pub mod textparse;
pub mod utf8;
pub mod validation;

pub use assembler::AssembledMessage;
pub use assembler::MessageAssembler;
pub use frame::Frame;
pub use handshake::compute_accept_key;
pub use handshake::HandshakeRequest;
pub use handshake::HandshakeResponse;
pub use handshake::validate_origin;
pub use handshake::WS_GUID;
pub use mask::apply_mask;
pub use mask::apply_mask_fast;
pub use opcode::OpCode;
pub use utf8::validate_utf8;
pub use utf8::Utf8Validator;
pub use validation::FrameValidator;
