//! Reassembly of fragmented WebSocket messages (RFC 6455).
//!
//! Frames of one data message arrive as a first frame carrying the
//! opcode and zero or more Continuation frames; control frames may be
//! interleaved between them and pass straight through. The assembler
//! enforces the opcode-sequencing rules, the fragment-count and
//! message-size limits, and incremental UTF-8 validity of text
//! messages; a completed text message is guaranteed valid UTF-8.

use vstd::prelude::*;
use vstd::string::StringExecFns;
use vstd::utf8::valid_utf8;

use crate::config::Config;
use crate::error::Error;
use crate::protocol::frame::{Frame, FrameSpec};
use crate::protocol::opcode::OpCode;
use crate::protocol::utf8::{
    is_partial_scalar, lemma_ok_upto_bounds, lemma_ok_upto_concat_valid,
    lemma_ok_upto_prefix_valid, lemma_valid_utf8_iff_no_tail, utf8_ok_upto, utf8_tail,
    utf8_to_string, Utf8Validator,
};

verus! {

/// A fully reassembled data message.
pub struct AssembledMessage {
    /// The message's opcode: Text or Binary.
    pub opcode: OpCode,
    /// The joined payload of all fragments.
    pub payload: Vec<u8>,
    /// Whether the first fragment carried the RSV1 bit: set by an
    /// extension that transformed the message.
    pub rsv1: bool,
}

impl AssembledMessage {
    /// The payload as text. Accepts exactly when the payload is valid
    /// UTF-8 — which the assembler guarantees for Text messages — and
    /// returns the string those bytes encode.
    pub fn into_text(self) -> (r: Result<String, Error>)
        ensures
            r is Ok <==> valid_utf8(self.payload@),
            r is Ok ==> r->Ok_0@ == vstd::utf8::decode_utf8(self.payload@),
            r is Err ==> r->Err_0 == Error::InvalidUtf8,
    {
        utf8_to_string(self.payload)
    }

    /// The payload as bytes.
    pub fn into_binary(self) -> (r: Vec<u8>)
        ensures
            r@ == self.payload@,
    {
        self.payload
    }
}

/// An integer clamped into the machine word range.
pub open spec fn sat_usize(x: int) -> usize
    recommends
        x >= 0,
{
    if x <= usize::MAX {
        x as usize
    } else {
        usize::MAX
    }
}

/// Whether an incremental UTF-8 check of `all` accepts, given whether
/// this is the message's final fragment: everything must be whole valid
/// characters, except that a non-final fragment may end in the strict
/// prefix of one.
pub open spec fn utf8_accepts(all: Seq<u8>, is_final: bool) -> bool {
    utf8_tail(all).len() == 0 || (!is_final && is_partial_scalar(utf8_tail(all)))
}

/// Reassembles a possibly-fragmented data message.
pub struct MessageAssembler {
    buffer: Vec<u8>,
    fragment_count: usize,
    opcode: Option<OpCode>,
    first_rsv1: bool,
    utf8_validator: Option<Utf8Validator>,
    config: Config,
}

impl MessageAssembler {
    /// Whether a message is in progress.
    pub closed spec fn assembling(&self) -> bool {
        self.opcode is Some
    }

    /// The bytes gathered so far.
    pub closed spec fn buf(&self) -> Seq<u8> {
        self.buffer@
    }

    /// Fragments accepted so far.
    pub closed spec fn count(&self) -> int {
        self.fragment_count as int
    }

    /// The opcode of the message in progress.
    pub closed spec fn msg_opcode(&self) -> Option<OpCode> {
        self.opcode
    }

    /// Whether the first fragment carried RSV1.
    pub closed spec fn msg_rsv1(&self) -> bool {
        self.first_rsv1
    }

    /// The UTF-8 bytes carried over a fragment boundary, for a text
    /// message.
    pub closed spec fn text_buffered(&self) -> Seq<u8> {
        self.utf8_validator->0.buffered()
    }

    /// The configured limits.
    pub closed spec fn spec_config(&self) -> Config {
        self.config
    }

    /// Idle: nothing gathered, no message in progress.
    pub open spec fn is_reset(&self) -> bool {
        &&& !self.assembling()
        &&& self.buf().len() == 0
        &&& self.count() == 0
    }

    /// The assembler's internal consistency: a validator exists exactly
    /// for a text message in progress, and it holds exactly the bytes
    /// after the gathered buffer's last whole character, everything
    /// before them being valid UTF-8.
    pub closed spec fn wf(&self) -> bool {
        &&& (self.opcode is None ==> self.buffer@.len() == 0 && self.fragment_count == 0
            && self.utf8_validator is None)
        &&& self.fragment_count <= self.config.limits.max_fragment_count
        &&& self.buffer@.len() <= self.config.limits.max_message_size
        &&& (self.utf8_validator is Some <==> self.opcode == Some(OpCode::Text))
        &&& (self.opcode == Some(OpCode::Text) ==> utf8_ok_upto(self.buffer@) == self.buffer@.len()
            - self.text_buffered().len() && self.text_buffered() == utf8_tail(self.buffer@))
    }

    /// Create an idle assembler with the given configuration.
    pub fn new(config: Config) -> (r: Self)
        ensures
            r.wf(),
            r.is_reset(),
            r.spec_config() == config,
    {
        MessageAssembler {
            buffer: Vec::new(),
            fragment_count: 0,
            opcode: None,
            first_rsv1: false,
            utf8_validator: None,
            config,
        }
    }

    /// Whether a message is currently being assembled.
    pub fn is_assembling(&self) -> (r: bool)
        ensures
            r == self.assembling(),
    {
        self.opcode.is_some()
    }

    /// Drop any message in progress and return to idle.
    pub fn reset(&mut self)
        ensures
            final(self).wf(),
            final(self).is_reset(),
            final(self).spec_config() == old(self).spec_config(),
    {
        self.buffer.clear();
        self.fragment_count = 0;
        self.opcode = None;
        self.first_rsv1 = false;
        self.utf8_validator = None;
    }

    /// Feed one frame to the assembler.
    ///
    /// Control frames pass through untouched (`Ok(None)`), even between
    /// fragments. A Continuation frame is accepted only while a message
    /// is in progress, and a Text or Binary frame only while none is;
    /// otherwise the push is a protocol violation. An accepted fragment
    /// must keep the fragment count within `max_fragment_count` and the
    /// gathered size within `max_message_size`, and on a text message
    /// its bytes must stay valid UTF-8 across fragment boundaries. The
    /// final fragment completes the message: a Text result is valid
    /// UTF-8, and the payload is the concatenation of all fragments.
    /// After any error the assembler is idle again.
    pub fn push(&mut self, frame: Frame) -> (r: Result<Option<AssembledMessage>, Error>)
        requires
            old(self).wf(),
        ensures
            final(self).wf(),
            push_spec(*old(self), frame@, *final(self), r),
    {
        if frame.opcode.is_control() {
            return Ok(None);
        }

        let fin = frame.fin;
        let frame_rsv1 = frame.rsv1;
        let is_continuation = match frame.opcode {
            OpCode::Continuation => true,
            _ => false,
        };
        if is_continuation {
            if self.opcode.is_none() {
                self.reset();
                return Err(
                    Error::ProtocolViolation(String::from_str("unexpected continuation frame")),
                );
            }
        } else {
            if self.opcode.is_some() {
                self.reset();
                return Err(
                    Error::ProtocolViolation(String::from_str("expected continuation frame")),
                );
            }
            self.opcode = Some(frame.opcode);
            self.first_rsv1 = frame_rsv1;
            let is_text = match frame.opcode {
                OpCode::Text => true,
                _ => false,
            };
            if is_text {
                self.utf8_validator = Some(Utf8Validator::new());
            }
        }

        if self.fragment_count >= self.config.limits.max_fragment_count {
            let max = self.config.limits.max_fragment_count;
            let reported: usize = if self.fragment_count == usize::MAX {
                usize::MAX
            } else {
                self.fragment_count + 1
            };
            self.reset();
            return Err(Error::TooManyFragments { count: reported, max });
        }
        let next_count = self.fragment_count + 1;

        let payload = frame.into_payload();
        let new_size = match self.buffer.len().checked_add(payload.len()) {
            Some(s) => s,
            None => {
                let max = self.config.limits.max_message_size;
                self.reset();
                return Err(Error::MessageTooLarge { size: usize::MAX, max });
            },
        };
        if new_size > self.config.limits.max_message_size {
            let max = self.config.limits.max_message_size;
            self.reset();
            return Err(Error::MessageTooLarge { size: new_size, max });
        }

        let ghost buf_before = self.buffer@;
        let ghost carried = if self.utf8_validator is Some {
            self.utf8_validator->0.buffered()
        } else {
            Seq::<u8>::empty()
        };
        let mut text_ok = true;
        if let Some(validator) = &mut self.utf8_validator {
            match validator.validate(payload.as_slice(), fin) {
                Ok(()) => {},
                Err(_) => {
                    text_ok = false;
                },
            }
        }
        if !text_ok {
            self.reset();
            return Err(Error::InvalidUtf8);
        }

        proof {
            if self.opcode == Some(OpCode::Text) {
                lemma_ok_upto_bounds(buf_before);
                lemma_ok_upto_prefix_valid(buf_before);
                lemma_ok_upto_concat_valid(
                    buf_before.take(utf8_ok_upto(buf_before)),
                    carried + payload@,
                );
                assert(buf_before.take(utf8_ok_upto(buf_before)) + (carried + payload@)
                    =~= buf_before + payload@);
                lemma_valid_utf8_iff_no_tail(buf_before.take(utf8_ok_upto(buf_before)));
                lemma_ok_upto_bounds(carried + payload@);
            }
        }
        self.buffer.extend_from_slice(payload.as_slice());
        self.fragment_count = next_count;
        proof {
            assert(self.buffer@ == buf_before + payload@);
        }
        proof {
            if self.opcode == Some(OpCode::Text) {
                assert(self.buffer@ == buf_before + payload@);
                assert(utf8_ok_upto(self.buffer@) == buf_before.len() - carried.len()
                    + utf8_ok_upto(carried + payload@));
                assert(utf8_tail(self.buffer@) == utf8_tail(carried + payload@));
                assert(self.utf8_validator->0.buffered() == utf8_tail(carried + payload@));
            }
        }

        if fin {
            proof {
                if self.opcode == Some(OpCode::Text) {
                    lemma_valid_utf8_iff_no_tail(self.buffer@);
                }
            }
            let mut done: Vec<u8> = Vec::new();
            done.append(&mut self.buffer);
            let opcode = match self.opcode {
                Some(op) => op,
                None => OpCode::Binary,
            };
            let rsv1 = self.first_rsv1;
            self.fragment_count = 0;
            self.opcode = None;
            self.first_rsv1 = false;
            self.utf8_validator = None;
            Ok(Some(AssembledMessage { opcode, payload: done, rsv1 }))
        } else {
            Ok(None)
        }
    }
}

/// Whether the assembler takes this opcode as a fragment: Continuation
/// while assembling, or Text and Binary while idle.
pub open spec fn accepted_fragment(a: MessageAssembler, op: OpCode) -> bool {
    if op is Continuation {
        a.assembling()
    } else {
        (op is Text || op is Binary) && !a.assembling()
    }
}

/// The opcode the message in progress will carry after this fragment.
pub open spec fn message_opcode(a: MessageAssembler, op: OpCode) -> OpCode {
    if op is Continuation {
        a.msg_opcode()->0
    } else {
        op
    }
}

/// Everything [`MessageAssembler::push`] promises, as one relation
/// between the assembler before, the frame, the assembler after and the
/// result: control frames pass through; misordered opcodes are protocol
/// violations; an accepted fragment is held to the fragment count, the
/// message size and — for text — incremental UTF-8 validity, with the
/// carried tail updated; the final fragment completes the message.
pub open spec fn push_spec(
    pre: MessageAssembler,
    frame: FrameSpec,
    post: MessageAssembler,
    r: Result<Option<AssembledMessage>, Error>,
) -> bool {
    &&& post.spec_config() == pre.spec_config()
    &&& (frame.opcode.spec_is_control() ==> (r matches Ok(m) && m is None) && post == pre)
    &&& (frame.opcode is Continuation && !pre.assembling() ==> (r matches Err(e)
        && e matches Error::ProtocolViolation(_)) && post.is_reset())
    &&& ((frame.opcode is Text || frame.opcode is Binary) && pre.assembling() ==> (
    r matches Err(e) && e matches Error::ProtocolViolation(_)) && post.is_reset())
    &&& (accepted_fragment(pre, frame.opcode) ==> {
        let op = message_opcode(pre, frame.opcode);
        let rsv1 = if frame.opcode is Continuation {
            pre.msg_rsv1()
        } else {
            frame.rsv1
        };
        let cnt = pre.count() + 1;
        let size = pre.buf().len() + frame.payload.len();
        let carried = if frame.opcode is Continuation && op is Text {
            pre.text_buffered()
        } else {
            Seq::<u8>::empty()
        };
        if cnt > pre.spec_config().limits.max_fragment_count {
            (r matches Err(e) && e == (Error::TooManyFragments {
                count: sat_usize(cnt),
                max: pre.spec_config().limits.max_fragment_count,
            })) && post.is_reset()
        } else if size > pre.spec_config().limits.max_message_size {
            (r matches Err(e) && e == (Error::MessageTooLarge {
                size: sat_usize(size as int),
                max: pre.spec_config().limits.max_message_size,
            })) && post.is_reset()
        } else if op is Text && !utf8_accepts(carried + frame.payload, frame.fin) {
            (r matches Err(e) && e == Error::InvalidUtf8) && post.is_reset()
        } else if frame.fin {
            &&& r matches Ok(m)
            &&& m matches Some(msg)
            &&& msg.opcode == op
            &&& msg.rsv1 == rsv1
            &&& msg.payload@ == pre.buf() + frame.payload
            &&& (op is Text ==> valid_utf8(msg.payload@))
            &&& post.is_reset()
        } else {
            &&& r matches Ok(m)
            &&& m is None
            &&& post.assembling()
            &&& post.msg_opcode() == Some(op)
            &&& post.msg_rsv1() == rsv1
            &&& post.buf() == pre.buf() + frame.payload
            &&& post.count() == cnt
            &&& (op is Text ==> post.text_buffered() == utf8_tail(carried + frame.payload))
        }
    })
}

} // verus!
