//! WebSocket frame parsing and serialization (RFC 6455).
//!
//! A frame is parsed from and written to plain byte buffers. The wire
//! layout is: one byte of final-flag, reserved bits and opcode; one byte
//! of mask-flag and 7-bit initial length; an optional 16- or 64-bit
//! big-endian extended length; an optional 4-byte mask key; the payload.
//! [`spec_parse`] and [`frame_bytes`] state that layout mathematically,
//! and the executable parser and writer are proved against them.

use vstd::prelude::*;
use vstd::slice::{slice_subrange, slice_to_vec};
use vstd::string::{StringExecFns, StringSliceAdditionalSpecFns};

use crate::error::Error;
use crate::protocol::mask::{apply_mask, masked};
use crate::protocol::opcode::{opcode_of_value, opcode_value, OpCode};

verus! {

/// Maximum payload size for control frames (RFC 6455).
pub const MAX_CONTROL_FRAME_PAYLOAD: usize = 125;

/// The mathematical content of a frame: flags, opcode and payload bytes.
#[verifier::ext_equal]
pub ghost struct FrameSpec {
    pub fin: bool,
    pub rsv1: bool,
    pub rsv2: bool,
    pub rsv3: bool,
    pub opcode: OpCode,
    pub payload: Seq<u8>,
}

/// A WebSocket frame as defined in RFC 6455: the basic unit of
/// communication. Supports both parsing incoming frames and building
/// outgoing ones.
#[derive(Debug, Clone, PartialEq, Eq)]
pub struct Frame {
    /// Final fragment flag. True if this is the last fragment of a message.
    pub fin: bool,
    /// Reserved bit 1. Must be 0 unless an extension is negotiated.
    pub rsv1: bool,
    /// Reserved bit 2. Must be 0 unless an extension is negotiated.
    pub rsv2: bool,
    /// Reserved bit 3. Must be 0 unless an extension is negotiated.
    pub rsv3: bool,
    /// Frame opcode defining the interpretation of the payload.
    pub opcode: OpCode,
    /// Frame payload data.
    pub payload: Vec<u8>,
}

impl View for Frame {
    type V = FrameSpec;

    open spec fn view(&self) -> FrameSpec {
        FrameSpec {
            fin: self.fin,
            rsv1: self.rsv1,
            rsv2: self.rsv2,
            rsv3: self.rsv3,
            opcode: self.opcode,
            payload: self.payload@,
        }
    }
}

/// The value of a big-endian 16-bit length.
pub open spec fn be16_val(b0: u8, b1: u8) -> int {
    256 * (b0 as int) + (b1 as int)
}

/// The value of a big-endian 64-bit length given as 8 bytes.
pub open spec fn be64_val(s: Seq<u8>) -> int
    recommends
        s.len() == 8,
{
    be64_prefix_val(s, 8)
}

/// The header size implied by the initial 7-bit length field, before the
/// mask key: 2, 4 or 10 bytes.
pub open spec fn spec_header_size(len7: u8) -> int {
    if len7 <= 125 {
        2int
    } else if len7 == 126 {
        4int
    } else {
        10int
    }
}

/// The payload length read from a buffer whose first `spec_header_size`
/// bytes are present.
pub open spec fn spec_payload_len(buf: Seq<u8>) -> int {
    let len7 = buf[1] & 0x7f;
    if len7 <= 125 {
        len7 as int
    } else if len7 == 126 {
        be16_val(buf[2], buf[3])
    } else {
        be64_val(buf.subrange(2, 10))
    }
}

/// What parsing a buffer yields: a frame and the bytes consumed, or the
/// error that exactly describes why no frame can be read. This is the
/// reference model for [`Frame::parse`] and [`Frame::parse_zero_copy`].
pub open spec fn spec_parse(buf: Seq<u8>) -> Result<(FrameSpec, int), Error> {
    if buf.len() < 2 {
        Err(Error::IncompleteFrame { needed: (2 - buf.len()) as usize })
    } else {
        let b0 = buf[0];
        let b1 = buf[1];
        match opcode_of_value(b0 & 0x0f) {
            None => Err(Error::ReservedOpcode(b0 & 0x0f)),
            Some(op) => {
                let masked_flag = (b1 & 0x80) != 0;
                let len7 = b1 & 0x7f;
                let hs = spec_header_size(len7);
                if buf.len() < hs {
                    Err(Error::IncompleteFrame { needed: (hs - buf.len()) as usize })
                } else {
                    let plen = spec_payload_len(buf);
                    if plen > usize::MAX {
                        Err(
                            Error::PayloadTooLargeForPlatform {
                                size: plen as u64,
                                max: usize::MAX as u64,
                            },
                        )
                    } else {
                        let th = hs + if masked_flag {
                            4int
                        } else {
                            0int
                        };
                        if masked_flag && buf.len() < th {
                            Err(Error::IncompleteFrame { needed: (th - buf.len()) as usize })
                        } else if th + plen > usize::MAX {
                            Err(
                                Error::PayloadTooLargeForPlatform {
                                    size: plen as u64,
                                    max: usize::MAX as u64,
                                },
                            )
                        } else if buf.len() < th + plen {
                            Err(
                                Error::IncompleteFrame {
                                    needed: (th + plen - buf.len()) as usize,
                                },
                            )
                        } else {
                            let raw = buf.subrange(th, th + plen);
                            let payload = if masked_flag {
                                masked(raw, buf.subrange(hs, hs + 4))
                            } else {
                                raw
                            };
                            Ok(
                                (
                                    FrameSpec {
                                        fin: (b0 & 0x80) != 0,
                                        rsv1: (b0 & 0x40) != 0,
                                        rsv2: (b0 & 0x20) != 0,
                                        rsv3: (b0 & 0x10) != 0,
                                        opcode: op,
                                        payload: payload,
                                    },
                                    th + plen,
                                ),
                            )
                        }
                    }
                }
            },
        }
    }
}

impl Frame {
    /// Create a new frame with the given final flag, opcode and payload;
    /// the reserved bits start clear.
    pub fn new(fin: bool, opcode: OpCode, payload: Vec<u8>) -> (r: Self)
        ensures
            r@ == (FrameSpec {
                fin: fin,
                rsv1: false,
                rsv2: false,
                rsv3: false,
                opcode: opcode,
                payload: payload@,
            }),
    {
        Frame { fin, rsv1: false, rsv2: false, rsv3: false, opcode, payload }
    }

    /// Create a final text frame.
    pub fn text(data: Vec<u8>) -> (r: Self)
        ensures
            r@ == (FrameSpec {
                fin: true,
                rsv1: false,
                rsv2: false,
                rsv3: false,
                opcode: OpCode::Text,
                payload: data@,
            }),
    {
        Frame::new(true, OpCode::Text, data)
    }

    /// Create a final binary frame.
    pub fn binary(data: Vec<u8>) -> (r: Self)
        ensures
            r@ == (FrameSpec {
                fin: true,
                rsv1: false,
                rsv2: false,
                rsv3: false,
                opcode: OpCode::Binary,
                payload: data@,
            }),
    {
        Frame::new(true, OpCode::Binary, data)
    }

    /// Create a close frame. With a code, the payload is the big-endian
    /// code followed by the reason's UTF-8 bytes; without one it is empty.
    pub fn close(code: Option<u16>, reason: &str) -> (r: Self)
        ensures
            r@.fin && r@.opcode is Close && !r@.rsv1 && !r@.rsv2 && !r@.rsv3,
            match code {
                Some(c) => r@.payload == seq![(c / 256) as u8, (c % 256) as u8]
                    + reason.spec_bytes(),
                None => r@.payload == Seq::<u8>::empty(),
            },
    {
        let payload: Vec<u8> = match code {
            Some(c) => {
                let mut data: Vec<u8> = Vec::new();
                data.push((c / 256) as u8);
                data.push((c % 256) as u8);
                data.extend_from_slice(reason.as_bytes());
                proof {
                    assert(data@ =~= seq![(c / 256) as u8, (c % 256) as u8]
                        + reason.spec_bytes());
                }
                data
            },
            None => Vec::new(),
        };
        Frame::new(true, OpCode::Close, payload)
    }

    /// Create a final ping frame.
    pub fn ping(data: Vec<u8>) -> (r: Self)
        ensures
            r@ == (FrameSpec {
                fin: true,
                rsv1: false,
                rsv2: false,
                rsv3: false,
                opcode: OpCode::Ping,
                payload: data@,
            }),
    {
        Frame::new(true, OpCode::Ping, data)
    }

    /// Create a final pong frame.
    pub fn pong(data: Vec<u8>) -> (r: Self)
        ensures
            r@ == (FrameSpec {
                fin: true,
                rsv1: false,
                rsv2: false,
                rsv3: false,
                opcode: OpCode::Pong,
                payload: data@,
            }),
    {
        Frame::new(true, OpCode::Pong, data)
    }

    /// The payload bytes.
    pub fn payload(&self) -> (r: &Vec<u8>)
        ensures
            r@ == self@.payload,
    {
        &self.payload
    }

    /// Take ownership of the payload.
    pub fn into_payload(self) -> (r: Vec<u8>)
        ensures
            r@ == self@.payload,
    {
        self.payload
    }

    /// Replace the payload, keeping flags and opcode.
    pub fn set_payload(&mut self, payload: Vec<u8>)
        ensures
            final(self)@ == (FrameSpec { payload: payload@, ..old(self)@ }),
    {
        self.payload = payload;
    }

    /// Parse a frame from a buffer.
    ///
    /// Returns the parsed frame, already unmasked, and the number of
    /// bytes consumed, exactly as [`spec_parse`] describes; when too few
    /// bytes are present the error carries the additional count needed,
    /// so callers can drive buffered reads with it.
    pub fn parse(buf: &[u8]) -> (r: Result<(Self, usize), Error>)
        ensures
            r is Ok <==> spec_parse(buf@) is Ok,
            r is Ok ==> r->Ok_0.0@ == spec_parse(buf@)->Ok_0.0 && r->Ok_0.1 == spec_parse(
                buf@,
            )->Ok_0.1,
            r is Err ==> r->Err_0 == spec_parse(buf@)->Err_0,
    {
        let n = buf.len();
        if n < 2 {
            return Err(Error::IncompleteFrame { needed: 2 - n });
        }
        let b0 = buf[0];
        let b1 = buf[1];
        proof {
            lemma_low_bits_bounds(b0);
            lemma_low_bits_bounds(b1);
        }
        let opcode = match OpCode::from_u8(b0 & 0x0f) {
            Ok(op) => op,
            Err(e) => {
                return Err(e);
            },
        };
        let masked_flag = (b1 & 0x80) != 0;
        let len7 = b1 & 0x7f;
        let hs: usize = if len7 <= 125 {
            2
        } else if len7 == 126 {
            4
        } else {
            10
        };
        if n < hs {
            return Err(Error::IncompleteFrame { needed: hs - n });
        }
        let plen: usize = if len7 <= 125 {
            len7 as usize
        } else if len7 == 126 {
            256 * (buf[2] as usize) + (buf[3] as usize)
        } else {
            let mut v: u64 = 0;
            let mut k: usize = 2;
            while k < 10
                invariant
                    2 <= k <= 10,
                    buf@.len() >= 10,
                    v == be64_prefix_val(buf@.subrange(2, 10), k - 2),
                    v <= pow256((k - 2) as nat) - 1,
                decreases 10 - k,
            {
                let b = buf[k];
                proof {
                    lemma_pow256_vals();
                    assert(buf@.subrange(2, 10)[k - 2] == buf@[k as int]);
                    assert(pow256((k - 1) as nat) == 256 * pow256((k - 2) as nat));
                    assert(256 * v + b <= 256 * (pow256((k - 2) as nat) - 1) + 255);
                }
                v = 256 * v + (b as u64);
                k = k + 1;
            }
            proof {
                assert(v == be64_val(buf@.subrange(2, 10)));
            }
            if v > usize::MAX as u64 {
                return Err(
                    Error::PayloadTooLargeForPlatform { size: v, max: usize::MAX as u64 },
                );
            }
            v as usize
        };
        let th: usize = if masked_flag {
            hs + 4
        } else {
            hs
        };
        if masked_flag && n < th {
            return Err(Error::IncompleteFrame { needed: th - n });
        }
        let total: usize = match th.checked_add(plen) {
            Some(t) => t,
            None => {
                return Err(
                    Error::PayloadTooLargeForPlatform {
                        size: plen as u64,
                        max: usize::MAX as u64,
                    },
                );
            },
        };
        if n < total {
            return Err(Error::IncompleteFrame { needed: total - n });
        }
        let mut data: Vec<u8> = slice_to_vec(slice_subrange(buf, th, total));
        if masked_flag {
            let mask: [u8; 4] = [buf[hs], buf[hs + 1], buf[hs + 2], buf[hs + 3]];
            proof {
                assert(mask@ =~= buf@.subrange(hs as int, hs + 4));
            }
            apply_mask(&mut data, mask);
        }
        let frame = Frame {
            fin: (b0 & 0x80) != 0,
            rsv1: (b0 & 0x40) != 0,
            rsv2: (b0 & 0x20) != 0,
            rsv3: (b0 & 0x10) != 0,
            opcode,
            payload: data,
        };
        Ok((frame, total))
    }

    /// Parse a frame from an owned buffer. Same behaviour and model as
    /// [`Frame::parse`]; here the payload is always an owned copy.
    pub fn parse_zero_copy(buf: &Vec<u8>) -> (r: Result<(Self, usize), Error>)
        ensures
            r is Ok <==> spec_parse(buf@) is Ok,
            r is Ok ==> r->Ok_0.0@ == spec_parse(buf@)->Ok_0.0 && r->Ok_0.1 == spec_parse(
                buf@,
            )->Ok_0.1,
            r is Err ==> r->Err_0 == spec_parse(buf@)->Err_0,
    {
        Frame::parse(buf.as_slice())
    }

    /// Validate the frame's own invariants from RFC 6455: reserved bits
    /// must be clear, and control frames must be final with a payload of
    /// at most 125 bytes. The first broken rule decides the error.
    pub fn validate(&self) -> (r: Result<(), Error>)
        ensures
            r is Ok <==> !self@.rsv1 && !self@.rsv2 && !self@.rsv3 && (self@.opcode.spec_is_control()
                ==> self@.fin && self@.payload.len() <= 125),
            self@.rsv1 || self@.rsv2 || self@.rsv3 ==> r == Err::<(), Error>(
                Error::ReservedBitsSet,
            ),
            !(self@.rsv1 || self@.rsv2 || self@.rsv3) && self@.opcode.spec_is_control()
                && !self@.fin ==> r == Err::<(), Error>(Error::FragmentedControlFrame),
            !(self@.rsv1 || self@.rsv2 || self@.rsv3) && self@.opcode.spec_is_control()
                && self@.fin && self@.payload.len() > 125 ==> r == Err::<(), Error>(
                Error::ControlFrameTooLarge(self@.payload.len() as usize),
            ),
    {
        if self.rsv1 || self.rsv2 || self.rsv3 {
            return Err(Error::ReservedBitsSet);
        }
        if self.opcode.is_control() {
            if !self.fin {
                return Err(Error::FragmentedControlFrame);
            }
            if self.payload.len() > MAX_CONTROL_FRAME_PAYLOAD {
                return Err(Error::ControlFrameTooLarge(self.payload.len()));
            }
        }
        Ok(())
    }

    /// The exact number of bytes [`Frame::write`] produces for this
    /// frame, masked or not.
    pub fn wire_size(&self, is_masked: bool) -> (r: usize)
        requires
            self@.payload.len() + 14 <= usize::MAX,
        ensures
            r == spec_wire_size(self@, is_masked),
    {
        let payload_len = self.payload.len();
        let extended_len_size: usize = if payload_len <= 125 {
            0
        } else if payload_len <= 65535 {
            2
        } else {
            8
        };
        let mask_size: usize = if is_masked {
            4
        } else {
            0
        };
        2 + extended_len_size + mask_size + payload_len
    }

    /// Serialize the frame into the front of `buf`, using the shortest
    /// valid length encoding; with a key, the mask is written and the
    /// payload masked. Returns the bytes written, exactly
    /// [`frame_bytes`]; `buf` beyond them is untouched, and a buffer
    /// shorter than the frame's wire size is refused.
    pub fn write(&self, buf: &mut Vec<u8>, mask: Option<[u8; 4]>) -> (r: Result<usize, Error>)
        requires
            self@.payload.len() + 14 <= usize::MAX,
        ensures
            r is Ok <==> old(buf)@.len() >= spec_wire_size(self@, mask is Some),
            r is Err ==> final(buf)@ == old(buf)@ && (r->Err_0 matches Error::InvalidFrame(_)),
            r is Ok ==> {
                let target = frame_bytes(self@, spec_mask_of(mask));
                &&& r->Ok_0 == target.len()
                &&& final(buf)@ == target + old(buf)@.skip(target.len() as int)
            },
    {
        let payload_len = self.payload.len();
        let total = self.wire_size(mask.is_some());
        if buf.len() < total {
            return Err(Error::InvalidFrame(String::from_str("buffer too small")));
        }
        let ghost target = frame_bytes(self@, spec_mask_of(mask));
        proof {
            lemma_pow256_vals();
        }

        let mut byte0: u8 = self.opcode.as_u8();
        if self.fin {
            byte0 = byte0 | 0x80;
        }
        if self.rsv1 {
            byte0 = byte0 | 0x40;
        }
        if self.rsv2 {
            byte0 = byte0 | 0x20;
        }
        if self.rsv3 {
            byte0 = byte0 | 0x10;
        }
        assert(byte0 == byte0_of(self@));
        let len7: u8 = if payload_len <= 125 {
            payload_len as u8
        } else if payload_len <= 65535 {
            126
        } else {
            127
        };
        let byte1: u8 = if mask.is_some() {
            len7 | 0x80
        } else {
            len7
        };
        assert(byte1 == byte1_of(self@, mask is Some));
        buf[0] = byte0;
        buf[1] = byte1;
        let mut offset: usize = 2;
        if payload_len > 125 && payload_len <= 65535 {
            buf[2] = (payload_len / 256) as u8;
            buf[3] = (payload_len % 256) as u8;
            offset = 4;
            assert(buf@[2] == frame_byte_at(self@, spec_mask_of(mask), 2));
            assert(buf@[3] == frame_byte_at(self@, spec_mask_of(mask), 3));
        } else if payload_len > 65535 {
            let mut k: usize = 0;
            while k < 8
                invariant
                    k <= 8,
                    buf@.len() == old(buf)@.len() >= spec_wire_size(self@, mask is Some),
                    payload_len == self@.payload.len(),
                    65535 < payload_len,
                    self@.payload.len() + 14 <= usize::MAX,
                    buf@[0] == frame_byte_at(self@, spec_mask_of(mask), 0),
                    buf@[1] == frame_byte_at(self@, spec_mask_of(mask), 1),
                    forall|j: int| 2 <= j < 2 + k ==> buf@[j] == frame_byte_at(
                        self@,
                        spec_mask_of(mask),
                        j,
                    ),
                    forall|j: int| 2 + k <= j < buf@.len() ==> buf@[j] == old(buf)@[j],
                decreases 8 - k,
            {
                let d: u64 = pow256_u64(7 - k);
                proof {
                    lemma_pow256_vals();
                }
                let digit: u8 = (((payload_len as u64) / d) % 256) as u8;
                assert(digit == frame_byte_at(self@, spec_mask_of(mask), 2 + k));
                buf[2 + k] = digit;
                k = k + 1;
            }
            offset = 10;
        }
        assert(offset == header_size_of(self@));
        assert forall|j: int| 0 <= j < offset implies buf@[j] == frame_byte_at(
            self@,
            spec_mask_of(mask),
            j,
        ) by {}
        if let Some(mask_key) = mask {
            buf[offset] = mask_key[0];
            buf[offset + 1] = mask_key[1];
            buf[offset + 2] = mask_key[2];
            buf[offset + 3] = mask_key[3];
            let mut i: usize = 0;
            while i < payload_len
                invariant
                    i <= payload_len,
                    payload_len == self@.payload.len(),
                    self@.payload.len() + 14 <= usize::MAX,
                    mask == Some(mask_key),
                    offset == header_size_of(self@),
                    offset + 4 + payload_len == spec_wire_size(self@, true) <= buf@.len(),
                    buf@.len() == old(buf)@.len(),
                    forall|j: int| 0 <= j < offset + 4 + i ==> buf@[j] == frame_byte_at(
                        self@,
                        spec_mask_of(mask),
                        j,
                    ),
                    forall|j: int| offset + 4 + i <= j < buf@.len() ==> buf@[j] == old(buf)@[j],
                decreases payload_len - i,
            {
                let b = self.payload[i];
                let m = mask_key[i % 4];
                buf[offset + 4 + i] = b ^ m;
                i = i + 1;
            }
            proof {
                assert(final(buf)@ =~= target + old(buf)@.skip(target.len() as int));
            }
            Ok(total)
        } else {
            let mut i: usize = 0;
            while i < payload_len
                invariant
                    i <= payload_len,
                    payload_len == self@.payload.len(),
                    self@.payload.len() + 14 <= usize::MAX,
                    mask is None,
                    offset == header_size_of(self@),
                    offset + payload_len == spec_wire_size(self@, false) <= buf@.len(),
                    buf@.len() == old(buf)@.len(),
                    forall|j: int| 0 <= j < offset + i ==> buf@[j] == frame_byte_at(
                        self@,
                        spec_mask_of(mask),
                        j,
                    ),
                    forall|j: int| offset + i <= j < buf@.len() ==> buf@[j] == old(buf)@[j],
                decreases payload_len - i,
            {
                let b = self.payload[i];
                buf[offset + i] = b;
                i = i + 1;
            }
            proof {
                assert(final(buf)@ =~= target + old(buf)@.skip(target.len() as int));
            }
            Ok(total)
        }
    }
}

/// A frame header, read before the payload is touched: callers hold
/// the flags and announced length against the connection's rules before
/// any payload byte is buffered or copied.
pub struct FrameHeader {
    /// Final fragment flag.
    pub fin: bool,
    /// Reserved bit 1.
    pub rsv1: bool,
    /// Reserved bit 2.
    pub rsv2: bool,
    /// Reserved bit 3.
    pub rsv3: bool,
    /// The frame's opcode.
    pub opcode: OpCode,
    /// Whether a mask key follows the length.
    pub masked: bool,
    /// The announced payload length.
    pub payload_len: usize,
    /// Header bytes before the payload, mask key included.
    pub header_len: usize,
}

impl Frame {
    /// Read a frame's header without touching its payload.
    ///
    /// Succeeds once the fixed and extended length bytes are present
    /// and announce a length the platform can hold; the mask key and
    /// payload need not have arrived. The fields are exactly the
    /// quantities [`spec_parse`] reads, so a successful parse of the
    /// same buffer agrees with them.
    pub fn peek_header(buf: &[u8]) -> (r: Result<FrameHeader, Error>)
        ensures
            buf@.len() < 2 ==> r == Err::<FrameHeader, Error>(
                Error::IncompleteFrame { needed: (2 - buf@.len()) as usize },
            ),
            buf@.len() >= 2 ==> ({
                let b0 = buf@[0];
                let b1 = buf@[1];
                let len7 = b1 & 0x7f;
                let hs = spec_header_size(len7);
                match opcode_of_value(b0 & 0x0f) {
                    None => r == Err::<FrameHeader, Error>(Error::ReservedOpcode(b0 & 0x0f)),
                    Some(op) => {
                        if buf@.len() < hs {
                            r == Err::<FrameHeader, Error>(
                                Error::IncompleteFrame { needed: (hs - buf@.len()) as usize },
                            )
                        } else if spec_payload_len(buf@) > usize::MAX {
                            r == Err::<FrameHeader, Error>(
                                Error::PayloadTooLargeForPlatform {
                                    size: spec_payload_len(buf@) as u64,
                                    max: usize::MAX as u64,
                                },
                            )
                        } else {
                            r matches Ok(h) && h.fin == ((b0 & 0x80) != 0) && h.rsv1 == ((b0
                                & 0x40) != 0) && h.rsv2 == ((b0 & 0x20) != 0) && h.rsv3 == ((b0
                                & 0x10) != 0) && h.opcode == op && h.masked == ((b1 & 0x80)
                                != 0) && h.payload_len == spec_payload_len(buf@) && h.header_len
                                == hs + (if (b1 & 0x80) != 0 {
                                4int
                            } else {
                                0int
                            })
                        }
                    },
                }
            }),
    {
        let n = buf.len();
        if n < 2 {
            return Err(Error::IncompleteFrame { needed: 2 - n });
        }
        let b0 = buf[0];
        let b1 = buf[1];
        proof {
            lemma_low_bits_bounds(b0);
            lemma_low_bits_bounds(b1);
        }
        let opcode = match OpCode::from_u8(b0 & 0x0f) {
            Ok(op) => op,
            Err(_) => {
                return Err(Error::ReservedOpcode(b0 & 0x0f));
            },
        };
        let masked = (b1 & 0x80) != 0;
        let len7 = b1 & 0x7f;
        let hs: usize = if len7 <= 125 {
            2
        } else if len7 == 126 {
            4
        } else {
            10
        };
        if n < hs {
            return Err(Error::IncompleteFrame { needed: hs - n });
        }
        let payload_len: usize = if len7 <= 125 {
            len7 as usize
        } else if len7 == 126 {
            256 * (buf[2] as usize) + (buf[3] as usize)
        } else {
            let mut v: u64 = 0;
            let mut k: usize = 2;
            while k < 10
                invariant
                    2 <= k <= 10,
                    buf@.len() >= 10,
                    v == be64_prefix_val(buf@.subrange(2, 10), k - 2),
                    v <= pow256((k - 2) as nat) - 1,
                decreases 10 - k,
            {
                let b = buf[k];
                proof {
                    lemma_pow256_vals();
                    assert(buf@.subrange(2, 10)[k - 2] == buf@[k as int]);
                    assert(pow256((k - 1) as nat) == 256 * pow256((k - 2) as nat));
                    assert(256 * v + b <= 256 * (pow256((k - 2) as nat) - 1) + 255);
                }
                v = 256 * v + (b as u64);
                k = k + 1;
            }
            proof {
                assert(v == be64_val(buf@.subrange(2, 10)));
            }
            if v > usize::MAX as u64 {
                return Err(
                    Error::PayloadTooLargeForPlatform { size: v, max: usize::MAX as u64 },
                );
            }
            v as usize
        };
        let header_len: usize = if masked {
            hs + 4
        } else {
            hs
        };
        Ok(
            FrameHeader {
                fin: (b0 & 0x80) != 0,
                rsv1: (b0 & 0x40) != 0,
                rsv2: (b0 & 0x20) != 0,
                rsv3: (b0 & 0x10) != 0,
                opcode,
                masked,
                payload_len,
                header_len,
            },
        )
    }
}

/// Size in bytes of the extended length field for a payload length:
/// none up to 125, two up to 65535, eight beyond.
pub open spec fn ext_len_size(plen: int) -> int {
    if plen <= 125 {
        0int
    } else if plen <= 65535 {
        2int
    } else {
        8int
    }
}

/// Size of a frame's header before any mask key.
pub open spec fn header_size_of(f: FrameSpec) -> int {
    2 + ext_len_size(f.payload.len() as int)
}

/// The exact wire size of a frame: header, extended length, mask key if
/// masked, payload.
pub open spec fn spec_wire_size(f: FrameSpec, is_masked: bool) -> int {
    header_size_of(f) + (if is_masked {
        4int
    } else {
        0int
    }) + f.payload.len()
}

/// The mask key as a byte sequence, if one is given.
pub open spec fn spec_mask_of(m: Option<[u8; 4]>) -> Option<Seq<u8>> {
    match m {
        Some(a) => Some(a@),
        None => None,
    }
}

/// 256 to the power `k`.
pub open spec fn pow256(k: nat) -> int
    decreases k,
{
    if k == 0 {
        1int
    } else {
        256 * pow256((k - 1) as nat)
    }
}

/// The value of the first `k` bytes of `s` read as a big-endian number.
pub open spec fn be64_prefix_val(s: Seq<u8>, k: int) -> int
    decreases k,
{
    if k <= 0 {
        0int
    } else {
        256 * be64_prefix_val(s, k - 1) + s[k - 1]
    }
}

/// The concrete values of the powers of 256 up to the eighth.
pub proof fn lemma_pow256_vals()
    ensures
        pow256(0) == 1,
        pow256(1) == 0x100,
        pow256(2) == 0x10000,
        pow256(3) == 0x1000000,
        pow256(4) == 0x100000000,
        pow256(5) == 0x10000000000,
        pow256(6) == 0x1000000000000,
        pow256(7) == 0x100000000000000,
        pow256(8) == 0x10000000000000000,
{
    reveal_with_fuel(pow256, 9);
}

/// The low four and seven bits of a byte are bounded by their masks.
pub proof fn lemma_low_bits_bounds(b: u8)
    by (bit_vector)
    ensures
        b & 0x0f <= 0xf,
        b & 0x7f <= 0x7f,
{
}

/// 256 to the power `shift`, for shifts up to 7.
fn pow256_u64(shift: usize) -> (r: u64)
    requires
        shift <= 7,
    ensures
        r == pow256(shift as nat),
{
    proof {
        lemma_pow256_vals();
    }
    match shift {
        0 => 1,
        1 => 0x100,
        2 => 0x10000,
        3 => 0x1000000,
        4 => 0x100000000,
        5 => 0x10000000000,
        6 => 0x1000000000000,
        _ => 0x100000000000000,
    }
}

/// The first header byte: final flag, reserved bits and opcode.
pub open spec fn byte0_of(f: FrameSpec) -> u8 {
    let a = opcode_value(f.opcode);
    let b = if f.fin {
        a | 0x80
    } else {
        a
    };
    let c = if f.rsv1 {
        b | 0x40
    } else {
        b
    };
    let d = if f.rsv2 {
        c | 0x20
    } else {
        c
    };
    if f.rsv3 {
        d | 0x10
    } else {
        d
    }
}

/// The 7-bit initial length field for a payload length.
pub open spec fn len7_of(plen: int) -> u8 {
    if plen <= 125 {
        plen as u8
    } else if plen <= 65535 {
        126u8
    } else {
        127u8
    }
}

/// The second header byte: mask flag and 7-bit initial length.
pub open spec fn byte1_of(f: FrameSpec, is_masked: bool) -> u8 {
    let l = len7_of(f.payload.len() as int);
    if is_masked {
        l | 0x80
    } else {
        l
    }
}

/// The byte at position `i` of a frame's wire encoding.
pub open spec fn frame_byte_at(f: FrameSpec, mask: Option<Seq<u8>>, i: int) -> u8 {
    let plen = f.payload.len() as int;
    let hdr = header_size_of(f);
    let body0 = hdr + if mask is Some {
        4int
    } else {
        0int
    };
    if i == 0 {
        byte0_of(f)
    } else if i == 1 {
        byte1_of(f, mask is Some)
    } else if i < hdr {
        ((plen / pow256((hdr - 1 - i) as nat)) % 256) as u8
    } else if mask is Some && i < hdr + 4 {
        mask->0[i - hdr]
    } else if mask is Some {
        f.payload[i - body0] ^ mask->0[(i - body0) % 4]
    } else {
        f.payload[i - body0]
    }
}

/// The full wire encoding of a frame, masked with the given key if one
/// is present: the reference model for [`Frame::write`].
pub open spec fn frame_bytes(f: FrameSpec, mask: Option<Seq<u8>>) -> Seq<u8> {
    Seq::new(spec_wire_size(f, mask is Some) as nat, |i: int| frame_byte_at(f, mask, i))
}

/// The wire encoding is exactly as long as [`Frame::wire_size`] says:
/// the byte count `write` produces equals `wire_size` for every frame,
/// masked or not.
pub proof fn lemma_wire_size_exact(f: FrameSpec, mask: Option<Seq<u8>>)
    ensures
        frame_bytes(f, mask).len() == spec_wire_size(f, mask is Some),
{
}

proof fn lemma_or_zero(x: u8)
    by (bit_vector)
    ensures
        x | 0 == x,
{
}

proof fn lemma_byte0_decompose(o: u8, fin: u8, r1: u8, r2: u8, r3: u8)
    by (bit_vector)
    requires
        o <= 0xa,
        fin == 0 || fin == 0x80,
        r1 == 0 || r1 == 0x40,
        r2 == 0 || r2 == 0x20,
        r3 == 0 || r3 == 0x10,
    ensures
        ((((o | fin) | r1) | r2) | r3) & 0x0f == o,
        (((((o | fin) | r1) | r2) | r3) & 0x80 != 0) == (fin == 0x80),
        (((((o | fin) | r1) | r2) | r3) & 0x40 != 0) == (r1 == 0x40),
        (((((o | fin) | r1) | r2) | r3) & 0x20 != 0) == (r2 == 0x20),
        (((((o | fin) | r1) | r2) | r3) & 0x10 != 0) == (r3 == 0x10),
{
}

proof fn lemma_byte1_decompose(l: u8, m: u8)
    by (bit_vector)
    requires
        l <= 0x7f,
        m == 0 || m == 0x80,
    ensures
        ((l | m) & 0x80 != 0) == (m == 0x80),
        (l | m) & 0x7f == l,
{
}

/// The header bytes of an encoding decompose back into the frame's
/// flags, opcode and initial length field.
proof fn lemma_header_bytes_decompose(f: FrameSpec, is_masked: bool)
    ensures
        byte0_of(f) & 0x0f == opcode_value(f.opcode),
        (byte0_of(f) & 0x80 != 0) == f.fin,
        (byte0_of(f) & 0x40 != 0) == f.rsv1,
        (byte0_of(f) & 0x20 != 0) == f.rsv2,
        (byte0_of(f) & 0x10 != 0) == f.rsv3,
        (byte1_of(f, is_masked) & 0x80 != 0) == is_masked,
        byte1_of(f, is_masked) & 0x7f == len7_of(f.payload.len() as int),
{
    let o = opcode_value(f.opcode);
    let finv: u8 = if f.fin { 0x80 } else { 0 };
    let r1v: u8 = if f.rsv1 { 0x40 } else { 0 };
    let r2v: u8 = if f.rsv2 { 0x20 } else { 0 };
    let r3v: u8 = if f.rsv3 { 0x10 } else { 0 };
    lemma_or_zero(o);
    lemma_or_zero(o | finv);
    lemma_or_zero((o | finv) | r1v);
    lemma_or_zero(((o | finv) | r1v) | r2v);
    assert(byte0_of(f) == ((((o | finv) | r1v) | r2v) | r3v));
    lemma_byte0_decompose(o, finv, r1v, r2v, r3v);
    let l = len7_of(f.payload.len() as int);
    let mv: u8 = if is_masked { 0x80 } else { 0 };
    lemma_or_zero(l);
    assert(byte1_of(f, is_masked) == (l | mv));
    lemma_byte1_decompose(l, mv);
}

/// The big-endian digits of a payload length read back as that length:
/// the first `k` extended-length bytes of an encoding with a 10-byte
/// header hold the top `k` digits of the length.
proof fn lemma_be64_digits(plen: int, digits: Seq<u8>, k: int)
    requires
        0 <= plen < pow256(8),
        digits.len() == 8,
        forall|j: int| 0 <= j < 8 ==> digits[j] == ((plen / pow256((7 - j) as nat)) % 256) as u8,
        0 <= k <= 8,
    ensures
        be64_prefix_val(digits, k) == (plen / pow256((8 - k) as nat)) % pow256(k as nat),
    decreases k,
{
    lemma_pow256_pos((8 - k) as nat);
    vstd::arithmetic::div_mod::lemma_div_pos_is_pos(plen, pow256((8 - k) as nat));
    if k == 0 {
        assert((plen / pow256(8nat)) % pow256(0nat) == 0) by {
            lemma_pow256_vals();
        }
    } else {
        lemma_be64_digits(plen, digits, k - 1);
        let q = plen / pow256((8 - k) as nat);
        assert(pow256((9 - k) as nat) == pow256((8 - k) as nat) * 256) by {
            lemma_pow256_pos((8 - k) as nat);
        }
        assert(plen / pow256((9 - k) as nat) == q / 256) by {
            lemma_pow256_pos((8 - k) as nat);
            vstd::arithmetic::div_mod::lemma_div_denominator(
                plen,
                pow256((8 - k) as nat),
                256,
            );
        }
        assert(digits[k - 1] == (q % 256) as u8);
        assert(pow256(k as nat) == 256 * pow256((k - 1) as nat)) by {
            lemma_pow256_pos((k - 1) as nat);
        }
        assert(q % (256 * pow256((k - 1) as nat)) == 256 * ((q / 256) % pow256((k - 1) as nat))
            + q % 256) by {
            lemma_pow256_pos((k - 1) as nat);
            vstd::arithmetic::div_mod::lemma_mod_breakdown(q, 256, pow256((k - 1) as nat));
        }
    }
}

/// A big-endian digit value is never negative.
proof fn lemma_be64_nonneg(s: Seq<u8>, k: int)
    ensures
        be64_prefix_val(s, k) >= 0,
    decreases k,
{
    if k > 0 {
        lemma_be64_nonneg(s, k - 1);
    }
}

/// Every power of 256 is positive.
proof fn lemma_pow256_pos(k: nat)
    ensures
        pow256(k) >= 1,
    decreases k,
{
    if k > 0 {
        lemma_pow256_pos((k - 1) as nat);
    }
}

/// Parsing recovers what writing produced, byte-identically: for every
/// frame and optional 4-byte mask key, parsing the frame's wire
/// encoding yields the same flags, opcode and payload, and consumes
/// exactly the encoding's length.
pub proof fn lemma_parse_write_roundtrip(f: FrameSpec, mask: Option<Seq<u8>>)
    requires
        mask matches Some(m) ==> m.len() == 4,
        f.payload.len() + 14 <= usize::MAX,
    ensures
        spec_parse(frame_bytes(f, mask)) == Ok::<(FrameSpec, int), Error>(
            (f, spec_wire_size(f, mask is Some)),
        ),
{
    let buf = frame_bytes(f, mask);
    let plen = f.payload.len() as int;
    let hdr = header_size_of(f);
    let is_masked = mask is Some;
    let total = spec_wire_size(f, is_masked);
    lemma_header_bytes_decompose(f, is_masked);
    lemma_pow256_vals();
    assert(buf[0] == byte0_of(f));
    assert(buf[1] == byte1_of(f, is_masked));
    crate::protocol::opcode::lemma_opcode_value_roundtrip(f.opcode);
    let len7 = len7_of(plen);
    assert(spec_header_size(len7) == hdr);
    // The extended length field reads back as the payload length.
    if plen <= 125 {
        assert(spec_payload_len(buf) == plen);
    } else if plen <= 65535 {
        assert(buf[2] == ((plen / 256) % 256) as u8);
        assert(buf[3] == ((plen / 1) % 256) as u8);
        assert((plen / 256) % 256 == plen / 256) by {
            vstd::arithmetic::div_mod::lemma_small_mod((plen / 256) as nat, 256nat);
        }
        assert(256 * (plen / 256) + plen % 256 == plen) by {
            vstd::arithmetic::div_mod::lemma_fundamental_div_mod(plen, 256);
        }
        assert(spec_payload_len(buf) == plen);
    } else {
        let digits = buf.subrange(2, 10);
        assert forall|j: int| 0 <= j < 8 implies digits[j] == ((plen / pow256((7 - j) as nat))
            % 256) as u8 by {
            assert(digits[j] == frame_byte_at(f, mask, 2 + j));
        }
        lemma_be64_digits(plen, digits, 8);
        assert(plen / pow256(0nat) == plen);
        assert(plen % pow256(8nat) == plen) by {
            vstd::arithmetic::div_mod::lemma_small_mod(plen as nat, pow256(8nat) as nat);
        }
        assert(spec_payload_len(buf) == plen);
    }
    // The payload region reads back as the payload, unmasked if a key
    // was applied.
    match mask {
        Some(m) => {
            let th = hdr + 4;
            assert(buf.subrange(hdr, hdr + 4) =~= m);
            assert(buf.subrange(th, th + plen) =~= masked(f.payload, m));
            crate::protocol::mask::lemma_mask_involution(f.payload, m);
            assert(masked(masked(f.payload, m), m) == f.payload);
            assert(spec_parse(buf) is Ok);
            let parsed = spec_parse(buf)->Ok_0.0;
            assert(parsed =~= f);
            assert(spec_parse(buf)->Ok_0.1 == total);
        },
        None => {
            assert(buf.subrange(hdr, hdr + plen) =~= f.payload);
            assert(spec_parse(buf) is Ok);
            let parsed = spec_parse(buf)->Ok_0.0;
            assert(parsed =~= f);
            assert(spec_parse(buf)->Ok_0.1 == total);
        },
    }
}

/// No truncation of a wire encoding parses as a frame: cutting the
/// encoding anywhere short yields an incomplete-frame error asking for
/// at least one more byte, never a false-positive success.
pub proof fn lemma_truncated_parse_incomplete(f: FrameSpec, mask: Option<Seq<u8>>, n: int)
    requires
        mask matches Some(m) ==> m.len() == 4,
        f.payload.len() + 14 <= usize::MAX,
        0 <= n < spec_wire_size(f, mask is Some),
    ensures
        spec_parse(frame_bytes(f, mask).take(n)) matches Err(Error::IncompleteFrame {
            needed,
        }) && needed > 0,
{
    let full = frame_bytes(f, mask);
    let buf = full.take(n);
    let plen = f.payload.len() as int;
    let hdr = header_size_of(f);
    let is_masked = mask is Some;
    let total = spec_wire_size(f, is_masked);
    if n < 2 {
        assert(spec_parse(buf) == Err::<(FrameSpec, int), Error>(
            Error::IncompleteFrame { needed: (2 - n) as usize },
        ));
    } else {
        lemma_header_bytes_decompose(f, is_masked);
        lemma_pow256_vals();
        assert(buf[0] == byte0_of(f));
        assert(buf[1] == byte1_of(f, is_masked));
        crate::protocol::opcode::lemma_opcode_value_roundtrip(f.opcode);
        let len7 = len7_of(plen);
        assert(spec_header_size(len7) == hdr);
        if n < hdr {
        } else {
            assert(buf.subrange(2, hdr) =~= full.subrange(2, hdr));
            if plen <= 125 {
                assert(spec_payload_len(buf) == plen);
            } else if plen <= 65535 {
                assert((plen / 256) % 256 == plen / 256) by {
                    vstd::arithmetic::div_mod::lemma_small_mod((plen / 256) as nat, 256nat);
                }
                assert(256 * (plen / 256) + plen % 256 == plen) by {
                    vstd::arithmetic::div_mod::lemma_fundamental_div_mod(plen, 256);
                }
                assert(spec_payload_len(buf) == plen);
            } else {
                let digits = buf.subrange(2, 10);
                assert forall|j: int| 0 <= j < 8 implies digits[j] == ((plen / pow256(
                    (7 - j) as nat,
                )) % 256) as u8 by {
                    assert(digits[j] == frame_byte_at(f, mask, 2 + j));
                }
                lemma_be64_digits(plen, digits, 8);
                assert(plen / pow256(0nat) == plen);
                assert(plen % pow256(8nat) == plen) by {
                    vstd::arithmetic::div_mod::lemma_small_mod(
                        plen as nat,
                        pow256(8nat) as nat,
                    );
                }
                assert(spec_payload_len(buf) == plen);
            }
        }
    }
}

/// A frame's encoding parses the same with anything after it: the
/// parser returns the frame and consumes exactly its wire size, so
/// concatenated encodings parse back in order and their consumed counts
/// sum to the total length.
pub proof fn lemma_parse_concatenation(f: FrameSpec, mask: Option<Seq<u8>>, rest: Seq<u8>)
    requires
        mask matches Some(m) ==> m.len() == 4,
        f.payload.len() + 14 <= usize::MAX,
    ensures
        spec_parse(frame_bytes(f, mask) + rest) == Ok::<(FrameSpec, int), Error>(
            (f, spec_wire_size(f, mask is Some)),
        ),
{
    lemma_parse_write_roundtrip(f, mask);
    lemma_parse_extend(frame_bytes(f, mask), rest);
}

/// Parsing looks only at the frame it consumes: appending more bytes
/// after a parseable buffer changes neither the frame nor the consumed
/// count. Concatenated frame encodings therefore parse back in order,
/// and the consumed counts sum to the total length.
pub proof fn lemma_parse_extend(buf: Seq<u8>, rest: Seq<u8>)
    requires
        spec_parse(buf) is Ok,
    ensures
        spec_parse(buf + rest) == spec_parse(buf),
{
    let c = buf + rest;
    let consumed = spec_parse(buf)->Ok_0.1;
    assert(c[0] == buf[0]);
    assert(c[1] == buf[1]);
    let b1 = buf[1];
    let len7 = b1 & 0x7f;
    let hs = spec_header_size(len7);
    assert(buf.len() >= hs);
    if len7 > 126 {
        assert(c.subrange(2, 10) =~= buf.subrange(2, 10));
    } else if len7 == 126 {
        assert(c[2] == buf[2] && c[3] == buf[3]);
    }
    assert(spec_payload_len(c) == spec_payload_len(buf));
    let masked_flag = (b1 & 0x80) != 0;
    let plen = spec_payload_len(buf);
    assert(plen >= 0) by {
        lemma_be64_nonneg(buf.subrange(2, 10), 8);
    }
    let th = hs + if masked_flag { 4int } else { 0int };
    assert(buf.len() >= th + plen);
    if masked_flag {
        assert(c.subrange(hs, hs + 4) =~= buf.subrange(hs, hs + 4));
    }
    assert(c.subrange(th, th + plen) =~= buf.subrange(th, th + plen));
    assert(spec_parse(c)->Ok_0.0 =~= spec_parse(buf)->Ok_0.0);
}

/// A parsed frame consumes at least its two header bytes and never
/// more than the buffer holds.
pub proof fn lemma_parse_consumed_bounds(buf: Seq<u8>)
    requires
        spec_parse(buf) is Ok,
    ensures
        2 <= spec_parse(buf)->Ok_0.1 <= buf.len(),
{
    let b1 = buf[1];
    let len7 = b1 & 0x7f;
    let hs = spec_header_size(len7);
    let masked_flag = (b1 & 0x80) != 0;
    let plen = spec_payload_len(buf);
    assert(plen >= 0) by {
        lemma_be64_nonneg(buf.subrange(2, 10), 8);
    }
}

} // verus!
