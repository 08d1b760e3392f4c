//! Frame validation against role and limits (RFC 6455).
//!
//! Applied between header decoding and payload unmasking. The checks
//! run in a fixed order so that security violations fail fast: masking
//! first, then reserved bits, then the frame size limit.

use vstd::prelude::*;

use crate::config::Limits;
use crate::connection::Role;
use crate::error::Error;

verus! {

/// Validator for incoming frame headers, configured with the
/// connection's role and limits.
#[derive(Debug, Clone)]
pub struct FrameValidator {
    /// Connection role (client or server).
    pub role: Role,
    /// Size limits for frames.
    pub limits: Limits,
    /// Whether to accept unmasked client frames (non-compliant).
    pub accept_unmasked_frames: bool,
}

/// The masking rule of RFC 6455 section 5.1: a server rejects unmasked
/// frames unless configured to accept them; a client rejects masked
/// frames.
pub open spec fn masking_ok(role: Role, accept_unmasked: bool, is_masked: bool) -> bool {
    match role {
        Role::Server => is_masked || accept_unmasked,
        Role::Client => !is_masked,
    }
}

impl FrameValidator {
    /// Create a new validator; unmasked client frames are rejected.
    pub fn new(role: Role, limits: Limits) -> (r: Self)
        ensures
            r == (FrameValidator { role, limits, accept_unmasked_frames: false }),
    {
        FrameValidator { role, limits, accept_unmasked_frames: false }
    }

    /// Configure acceptance of unmasked client frames (non-compliant;
    /// for testing).
    pub fn with_accept_unmasked(self, accept: bool) -> (r: Self)
        ensures
            r == (FrameValidator { accept_unmasked_frames: accept, ..self }),
    {
        FrameValidator { accept_unmasked_frames: accept, ..self }
    }

    /// Validate an incoming frame header. Accepts exactly when the
    /// masking rule holds, every reserved bit is clear, and the payload
    /// length is within `max_frame_size`; the first broken rule, in
    /// that order, decides the error.
    pub fn validate_incoming(
        &self,
        is_masked: bool,
        rsv1: bool,
        rsv2: bool,
        rsv3: bool,
        payload_len: usize,
    ) -> (r: Result<(), Error>)
        ensures
            r is Ok <==> masking_ok(self.role, self.accept_unmasked_frames, is_masked) && !rsv1
                && !rsv2 && !rsv3 && payload_len <= self.limits.max_frame_size,
            !masking_ok(self.role, self.accept_unmasked_frames, is_masked) ==> r
                == Err::<(), Error>(
                if self.role is Server {
                    Error::UnmaskedClientFrame
                } else {
                    Error::MaskedServerFrame
                },
            ),
            masking_ok(self.role, self.accept_unmasked_frames, is_masked) && (rsv1 || rsv2
                || rsv3) ==> r == Err::<(), Error>(Error::ReservedBitsSet),
            masking_ok(self.role, self.accept_unmasked_frames, is_masked) && !rsv1 && !rsv2
                && !rsv3 && payload_len > self.limits.max_frame_size ==> r == Err::<(), Error>(
                Error::FrameTooLarge { size: payload_len, max: self.limits.max_frame_size },
            ),
    {
        match self.role {
            Role::Server => {
                if !is_masked && !self.accept_unmasked_frames {
                    return Err(Error::UnmaskedClientFrame);
                }
            },
            Role::Client => {
                if is_masked {
                    return Err(Error::MaskedServerFrame);
                }
            },
        }
        if rsv1 || rsv2 || rsv3 {
            return Err(Error::ReservedBitsSet);
        }
        self.limits.check_frame_size(payload_len)
    }
}

} // verus!
