//! Configuration and limits for WebSocket connections.
//!
//! Limits bound every user-facing length before an allocation grows;
//! they are immutable per connection and may be shared by value.

use vstd::prelude::*;

use crate::error::Error;

verus! {

/// Resource limits for a WebSocket connection. Each check returns the
/// matching error exactly when its size exceeds the limit.
#[derive(Debug, Clone, PartialEq, Eq)]
pub struct Limits {
    /// Maximum size of a single frame's payload in bytes.
    pub max_frame_size: usize,
    /// Maximum size of a complete message after reassembly.
    pub max_message_size: usize,
    /// Maximum number of fragments in a single message.
    pub max_fragment_count: usize,
    /// Maximum size of handshake data in bytes.
    pub max_handshake_size: usize,
}

impl Limits {
    /// Create new limits with custom values.
    pub fn new(
        max_frame_size: usize,
        max_message_size: usize,
        max_fragment_count: usize,
        max_handshake_size: usize,
    ) -> (r: Self)
        ensures
            r == (Limits { max_frame_size, max_message_size, max_fragment_count, max_handshake_size }),
    {
        Limits { max_frame_size, max_message_size, max_fragment_count, max_handshake_size }
    }

    /// Limits suitable for small embedded systems: 64 KiB frames,
    /// 256 KiB messages, 16 fragments, 4 KiB handshakes.
    pub fn embedded() -> (r: Self)
        ensures
            r.max_frame_size == 65536,
            r.max_message_size == 262144,
            r.max_fragment_count == 16,
            r.max_handshake_size == 4096,
    {
        Limits {
            max_frame_size: 64 * 1024,
            max_message_size: 256 * 1024,
            max_fragment_count: 16,
            max_handshake_size: 4096,
        }
    }

    /// Limits for trusted environments: 1 GiB frames and 4 GiB
    /// messages, capped at the platform word size where they do not
    /// fit; 1024 fragments; 64 KiB handshakes.
    pub fn unrestricted() -> (r: Self)
        ensures
            r.max_frame_size == 0x40000000,
            r.max_message_size as u64 == if 0x100000000u64 <= usize::MAX as u64 {
                0x100000000u64
            } else {
                usize::MAX as u64
            },
            r.max_fragment_count == 1024,
            r.max_handshake_size == 65536,
    {
        let four_gib: u64 = 0x100000000;
        let max_message_size: usize = if four_gib <= usize::MAX as u64 {
            four_gib as usize
        } else {
            usize::MAX
        };
        Limits {
            max_frame_size: 1024 * 1024 * 1024,
            max_message_size,
            max_fragment_count: 1024,
            max_handshake_size: 64 * 1024,
        }
    }

    /// Accept a message size, or report [`Error::MessageTooLarge`]
    /// exactly when it exceeds `max_message_size`.
    pub fn check_message_size(&self, size: usize) -> (r: Result<(), Error>)
        ensures
            r is Ok <==> size <= self.max_message_size,
            r is Err ==> r->Err_0 == (Error::MessageTooLarge {
                size,
                max: self.max_message_size,
            }),
    {
        if size > self.max_message_size {
            Err(Error::MessageTooLarge { size, max: self.max_message_size })
        } else {
            Ok(())
        }
    }

    /// Accept a frame payload size, or report [`Error::FrameTooLarge`]
    /// exactly when it exceeds `max_frame_size`.
    pub fn check_frame_size(&self, size: usize) -> (r: Result<(), Error>)
        ensures
            r is Ok <==> size <= self.max_frame_size,
            r is Err ==> r->Err_0 == (Error::FrameTooLarge { size, max: self.max_frame_size }),
    {
        if size > self.max_frame_size {
            Err(Error::FrameTooLarge { size, max: self.max_frame_size })
        } else {
            Ok(())
        }
    }

    /// Accept a fragment count, or report [`Error::TooManyFragments`]
    /// exactly when it exceeds `max_fragment_count`.
    pub fn check_fragment_count(&self, count: usize) -> (r: Result<(), Error>)
        ensures
            r is Ok <==> count <= self.max_fragment_count,
            r is Err ==> r->Err_0 == (Error::TooManyFragments {
                count,
                max: self.max_fragment_count,
            }),
    {
        if count > self.max_fragment_count {
            Err(Error::TooManyFragments { count, max: self.max_fragment_count })
        } else {
            Ok(())
        }
    }

    /// Accept a handshake size, or report [`Error::HandshakeTooLarge`]
    /// exactly when it exceeds `max_handshake_size`.
    pub fn check_handshake_size(&self, size: usize) -> (r: Result<(), Error>)
        ensures
            r is Ok <==> size <= self.max_handshake_size,
            r is Err ==> r->Err_0 == (Error::HandshakeTooLarge {
                size,
                max: self.max_handshake_size,
            }),
    {
        if size > self.max_handshake_size {
            Err(Error::HandshakeTooLarge { size, max: self.max_handshake_size })
        } else {
            Ok(())
        }
    }
}

impl Default for Limits {
    /// Default limits: 16 MiB frames, 64 MiB messages, 128 fragments,
    /// 8 KiB handshakes.
    fn default() -> (r: Self)
        ensures
            r.max_frame_size == 0x1000000,
            r.max_message_size == 0x4000000,
            r.max_fragment_count == 128,
            r.max_handshake_size == 8192,
    {
        Limits {
            max_frame_size: 16 * 1024 * 1024,
            max_message_size: 64 * 1024 * 1024,
            max_fragment_count: 128,
            max_handshake_size: 8192,
        }
    }
}

/// Timeout configuration. The engine exposes no timers of its own;
/// these are held for the caller, which composes timeouts around its
/// reads and writes.
#[derive(Debug, Clone, PartialEq, Eq)]
pub struct Timeouts {
    /// Maximum time to complete the handshake.
    pub handshake: core::time::Duration,
    /// Maximum time to wait for incoming data.
    pub read: core::time::Duration,
    /// Maximum time to wait for outgoing data to be sent.
    pub write: core::time::Duration,
    /// Maximum time a connection may remain idle.
    pub idle: core::time::Duration,
}

/// Relied on from the standard library: `Duration::from_secs` builds a
/// duration of that many whole seconds. Durations are opaque here; the
/// contracts of this crate say nothing about their values.
pub assume_specification[ core::time::Duration::from_secs ](secs: u64) -> core::time::Duration;

/// Relied on from the standard library: `Duration` is a plain `Copy`
/// value, and cloning one returns the same value.
pub assume_specification[ <core::time::Duration as Clone>::clone ](d: &core::time::Duration) -> (r:
    core::time::Duration)
    ensures
        r == *d,
;

impl Timeouts {
    /// Create new timeouts with custom values.
    pub fn new(
        handshake: core::time::Duration,
        read: core::time::Duration,
        write: core::time::Duration,
        idle: core::time::Duration,
    ) -> (r: Self)
        ensures
            r == (Timeouts { handshake, read, write, idle }),
    {
        Timeouts { handshake, read, write, idle }
    }
}

impl Default for Timeouts {
    /// Default timeouts: 30 s handshake, 60 s read and write, 300 s idle.
    fn default() -> Self {
        Timeouts {
            handshake: core::time::Duration::from_secs(30),
            read: core::time::Duration::from_secs(60),
            write: core::time::Duration::from_secs(60),
            idle: core::time::Duration::from_secs(300),
        }
    }
}

/// WebSocket connection configuration.
#[derive(Debug, Clone)]
pub struct Config {
    /// Resource limits.
    pub limits: Limits,
    /// Fragment size for outgoing messages, in bytes; larger messages
    /// are split into multiple frames.
    pub fragment_size: usize,
    /// Accept unmasked frames from clients (server only; violates the
    /// RFC if true).
    pub accept_unmasked_frames: bool,
    /// Mask frames when sending (client only; must be true for a
    /// client).
    pub mask_frames: bool,
    /// Initial read buffer capacity in bytes.
    pub read_buffer_size: usize,
    /// Initial write buffer capacity in bytes.
    pub write_buffer_size: usize,
    /// Timeout configuration, if the caller wants one recorded.
    pub timeouts: Option<Timeouts>,
    /// Origin allow-list; `None` disables the check.
    pub allowed_origins: Option<Vec<String>>,
}

/// What every fresh configuration holds before role-specific fields
/// are set: default limits, 16 KiB fragments, 8 KiB buffers, no
/// timeouts, no origin list.
pub open spec fn config_base_defaults(c: Config) -> bool {
    &&& c.limits.max_frame_size == 0x1000000
    &&& c.limits.max_message_size == 0x4000000
    &&& c.limits.max_fragment_count == 128
    &&& c.limits.max_handshake_size == 8192
    &&& c.fragment_size == 16384
    &&& c.read_buffer_size == 8192
    &&& c.write_buffer_size == 8192
    &&& c.timeouts is None
    &&& c.allowed_origins is None
}

impl Default for Config {
    /// The default configuration: default limits, 16 KiB fragments,
    /// masking on, unmasked frames refused, 8 KiB buffers, no timeouts,
    /// no origin list.
    fn default() -> (r: Self)
        ensures
            config_base_defaults(r),
            r.mask_frames,
            !r.accept_unmasked_frames,
    {
        Config {
            limits: Limits::default(),
            fragment_size: 16 * 1024,
            accept_unmasked_frames: false,
            mask_frames: true,
            read_buffer_size: 8192,
            write_buffer_size: 8192,
            timeouts: None,
            allowed_origins: None,
        }
    }
}

impl Config {
    /// Create a new configuration with default values.
    pub fn new() -> (r: Self)
        ensures
            config_base_defaults(r),
            r.mask_frames,
            !r.accept_unmasked_frames,
    {
        Config::default()
    }

    /// Replace the limits.
    pub fn with_limits(self, limits: Limits) -> (r: Self)
        ensures
            r == (Config { limits, ..self }),
    {
        Config { limits, ..self }
    }

    /// Replace the outgoing fragment size.
    pub fn with_fragment_size(self, size: usize) -> (r: Self)
        ensures
            r == (Config { fragment_size: size, ..self }),
    {
        Config { fragment_size: size, ..self }
    }

    /// Replace the read buffer capacity.
    pub fn with_read_buffer_size(self, size: usize) -> (r: Self)
        ensures
            r == (Config { read_buffer_size: size, ..self }),
    {
        Config { read_buffer_size: size, ..self }
    }

    /// Replace the write buffer capacity.
    pub fn with_write_buffer_size(self, size: usize) -> (r: Self)
        ensures
            r == (Config { write_buffer_size: size, ..self }),
    {
        Config { write_buffer_size: size, ..self }
    }

    /// Record a timeout configuration.
    pub fn with_timeouts(self, timeouts: Timeouts) -> (r: Self)
        ensures
            r == (Config { timeouts: Some(timeouts), ..self }),
    {
        Config { timeouts: Some(timeouts), ..self }
    }

    /// Set the origin allow-list. An empty list requires an Origin
    /// header but accepts any value.
    pub fn with_allowed_origins(self, origins: Vec<String>) -> (r: Self)
        ensures
            r == (Config { allowed_origins: Some(origins), ..self }),
    {
        Config { allowed_origins: Some(origins), ..self }
    }

    /// Configuration for the server role: no outgoing masking, and
    /// unmasked client frames refused.
    pub fn server() -> (r: Self)
        ensures
            config_base_defaults(r),
            !r.mask_frames,
            !r.accept_unmasked_frames,
    {
        Config { mask_frames: false, accept_unmasked_frames: false, ..Config::default() }
    }

    /// Configuration for the client role: every outgoing frame masked.
    pub fn client() -> (r: Self)
        ensures
            config_base_defaults(r),
            r.mask_frames,
            !r.accept_unmasked_frames,
    {
        Config { mask_frames: true, accept_unmasked_frames: false, ..Config::default() }
    }
}

} // verus!
