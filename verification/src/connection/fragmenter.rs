//! Outgoing message fragmentation (RFC 6455).
//!
//! A fragmenter splits one message payload into a bounded sequence of
//! frames: the first carries the message's opcode, every later one
//! carries Continuation, and exactly the last has the final flag set.
//! An empty payload yields exactly one empty final frame.

use vstd::prelude::*;

use crate::protocol::frame::{Frame, FrameSpec};
use crate::protocol::opcode::OpCode;

verus! {

/// Produces the frames of one message, one call to [`MessageFragmenter::next`]
/// at a time.
pub struct MessageFragmenter {
    payload: Vec<u8>,
    opcode: OpCode,
    fragment_size: usize,
    offset: usize,
    is_first: bool,
}

/// The payload bytes of a sequence of frames, in order.
pub open spec fn frames_payload(frames: Seq<FrameSpec>) -> Seq<u8>
    decreases frames.len(),
{
    if frames.len() == 0 {
        Seq::empty()
    } else {
        frames[0].payload + frames_payload(frames.skip(1))
    }
}

/// A well-formed fragmentation of `payload` under `opcode`: at least
/// one frame; the first carries the opcode and the rest Continuation;
/// exactly the last is final; no reserved bits; and the payloads
/// concatenate back to `payload`.
pub open spec fn is_fragmentation(frames: Seq<FrameSpec>, payload: Seq<u8>, opcode: OpCode) -> bool {
    &&& frames.len() >= 1
    &&& frames[0].opcode == opcode
    &&& forall|i: int| 1 <= i < frames.len() ==> (#[trigger] frames[i]).opcode is Continuation
    &&& forall|i: int|
        0 <= i < frames.len() ==> ((#[trigger] frames[i]).fin <==> i == frames.len() - 1)
    &&& forall|i: int|
        0 <= i < frames.len() ==> !(#[trigger] frames[i]).rsv1 && !frames[i].rsv2
            && !frames[i].rsv3
    &&& frames_payload(frames) == payload
}

impl MessageFragmenter {
    /// The remaining bytes, as the model sees them.
    pub closed spec fn spec_remaining(&self) -> int {
        if self.payload@.len() >= self.offset {
            self.payload@.len() - self.offset
        } else {
            0int
        }
    }

    /// The fragmenter's configured fragment size (at least 1).
    pub closed spec fn spec_fragment_size(&self) -> int {
        self.fragment_size as int
    }

    /// Whether the next call to `next` yields a frame.
    pub closed spec fn has_next(&self) -> bool {
        self.offset < self.payload@.len() || (self.is_first && self.payload@.len() == 0)
    }

    /// The bytes not yet handed out.
    pub closed spec fn pending(&self) -> Seq<u8> {
        if self.offset <= self.payload@.len() {
            self.payload@.skip(self.offset as int)
        } else {
            Seq::empty()
        }
    }

    /// Whether no frame has been produced yet.
    pub closed spec fn at_start(&self) -> bool {
        self.is_first
    }

    /// The opcode the first frame will carry.
    pub closed spec fn spec_opcode(&self) -> OpCode {
        self.opcode
    }

    /// The whole payload's length.
    pub closed spec fn total_len(&self) -> int {
        self.payload@.len() as int
    }

    /// Create a fragmenter over the payload. A fragment size of zero is
    /// raised to one so every fragment carries at least one byte.
    pub fn new(payload: Vec<u8>, opcode: OpCode, fragment_size: usize) -> (r: Self)
        ensures
            r.pending() == payload@,
            r.at_start(),
            r.has_next(),
            r.spec_remaining() == payload@.len(),
            r.total_len() == payload@.len(),
            r.spec_opcode() == opcode,
            r.spec_fragment_size() == if fragment_size >= 1 {
                fragment_size as int
            } else {
                1int
            },
    {
        let fs = if fragment_size >= 1 {
            fragment_size
        } else {
            1
        };
        let r = MessageFragmenter { payload, opcode, fragment_size: fs, offset: 0, is_first: true };
        proof {
            assert(r.pending() =~= r.payload@);
        }
        r
    }

    /// Whether the payload will be split: true exactly when it is
    /// longer than the fragment size.
    pub fn needs_fragmentation(&self) -> (r: bool)
        ensures
            r == (self.total_len() > self.spec_fragment_size()),
    {
        self.payload.len() > self.fragment_size
    }

    /// How many payload bytes are still to be handed out.
    pub fn remaining(&self) -> (r: usize)
        ensures
            r == self.spec_remaining(),
    {
        if self.payload.len() >= self.offset {
            self.payload.len() - self.offset
        } else {
            0
        }
    }

    /// Produce the next frame, or nothing when the message is done.
    ///
    /// The frame carries the next `fragment_size` pending bytes (or all
    /// that remain, if fewer); the first frame carries the message's
    /// opcode and later ones Continuation; the final flag is set on
    /// exactly the frame that exhausts the payload. An empty payload
    /// yields one empty final frame.
    pub fn next(&mut self) -> (r: Option<Frame>)
        ensures
            r is Some <==> old(self).has_next(),
            old(self).has_next() && old(self).total_len() == 0 ==> {
                let f = r->0;
                &&& f@.payload == Seq::<u8>::empty()
                &&& f@.fin
                &&& f@.opcode == old(self).spec_opcode()
                &&& !f@.rsv1 && !f@.rsv2 && !f@.rsv3
                &&& !final(self).has_next()
                &&& !final(self).at_start()
                &&& final(self).pending() == Seq::<u8>::empty()
            },
            old(self).has_next() && old(self).total_len() > 0 ==> {
                let f = r->0;
                let chunk = if old(self).spec_remaining() <= old(self).spec_fragment_size() {
                    old(self).spec_remaining()
                } else {
                    old(self).spec_fragment_size()
                };
                &&& f@.payload == old(self).pending().take(chunk)
                &&& (f@.fin <==> chunk == old(self).spec_remaining())
                &&& f@.opcode == if old(self).at_start() {
                    old(self).spec_opcode()
                } else {
                    OpCode::Continuation
                }
                &&& !f@.rsv1 && !f@.rsv2 && !f@.rsv3
                &&& final(self).pending() == old(self).pending().skip(chunk)
                &&& !final(self).at_start()
                &&& (final(self).has_next() <==> !f@.fin)
            },
            final(self).spec_fragment_size() == old(self).spec_fragment_size(),
            final(self).spec_opcode() == old(self).spec_opcode(),
            final(self).total_len() == old(self).total_len(),
            r matches Some(f) ==> final(self).spec_remaining() == old(self).spec_remaining()
                - f@.payload.len(),
            r is None ==> *final(self) == *old(self),
    {
        let n = self.payload.len();
        if self.offset >= n {
            if self.is_first && n == 0 {
                self.is_first = false;
                proof {
                    assert(self.pending() =~= Seq::<u8>::empty());
                }
                return Some(Frame::new(true, self.opcode, Vec::new()));
            }
            return None;
        }
        let remaining = n - self.offset;
        let chunk_size = if remaining <= self.fragment_size {
            remaining
        } else {
            self.fragment_size
        };
        let is_final = chunk_size == remaining;
        let chunk: Vec<u8> = vstd::slice::slice_to_vec(
            vstd::slice::slice_subrange(self.payload.as_slice(), self.offset, self.offset
                + chunk_size),
        );
        let was_first = self.is_first;
        let opcode = if was_first {
            self.opcode
        } else {
            OpCode::Continuation
        };
        self.is_first = false;
        let ghost old_pending = self.payload@.skip(self.offset as int);
        self.offset = self.offset + chunk_size;
        proof {
            assert(chunk@ =~= old_pending.take(chunk_size as int));
            assert(self.payload@.skip(self.offset as int) =~= old_pending.skip(
                chunk_size as int,
            ));
        }
        Some(Frame::new(is_final, opcode, chunk))
    }
}

/// The byte count `remaining` reports is always the length of the
/// pending bytes: the two views of the fragmenter's progress agree.
pub proof fn lemma_remaining_is_pending(f: &MessageFragmenter)
    ensures
        f.spec_remaining() == f.pending().len(),
{
}

/// Split a payload into its full frame sequence at once. The result is
/// a well-formed fragmentation: the first frame carries `opcode`, later
/// frames Continuation, exactly the last is final, and the payloads
/// concatenate back to the input.
pub fn fragment_all(payload: Vec<u8>, opcode: OpCode, fragment_size: usize) -> (r: Vec<Frame>)
    ensures
        is_fragmentation(r@.map_values(|f: Frame| f@), payload@, opcode),
        forall|i: int|
            0 <= i < r@.len() ==> (#[trigger] r@[i])@.payload.len() <= payload@.len(),
{
    let ghost payload_seq = payload@;
    let mut fragmenter = MessageFragmenter::new(payload, opcode, fragment_size);
    let mut frames: Vec<Frame> = Vec::new();
    loop
        invariant
            fragmenter.spec_opcode() == opcode,
            fragmenter.spec_fragment_size() >= 1,
            frames@.len() == 0 ==> fragmenter.at_start() && fragmenter.pending() == payload_seq,
            frames@.len() == 0 ==> fragmenter.has_next(),
            frames@.len() > 0 ==> !fragmenter.at_start(),
            frames@.len() > 0 ==> frames@[0].view().opcode == opcode,
            forall|i: int|
                1 <= i < frames@.len() ==> (#[trigger] frames@[i]).view().opcode is Continuation,
            forall|i: int|
                0 <= i < frames@.len() ==> ((#[trigger] frames@[i]).view().fin <==> i
                    == frames@.len() - 1 && !fragmenter.has_next()),
            forall|i: int|
                0 <= i < frames@.len() ==> !(#[trigger] frames@[i]).view().rsv1
                    && !frames@[i].view().rsv2 && !frames@[i].view().rsv3,
            frames_payload(frames@.map_values(|f: Frame| f@)) + fragmenter.pending()
                =~= payload_seq,
            frames@.len() > 0 && fragmenter.has_next() ==> fragmenter.pending().len() > 0,
            fragmenter.pending().len() <= payload_seq.len(),
            forall|i: int|
                0 <= i < frames@.len() ==> (#[trigger] frames@[i])@.payload.len()
                    <= payload_seq.len(),
        ensures
            frames@.len() >= 1,
            is_fragmentation(frames@.map_values(|f: Frame| f@), payload_seq, opcode),
        decreases fragmenter.pending().len() + (if fragmenter.has_next() {
            1int
        } else {
            0int
        }),
    {
        let ghost frames_before = frames@;
        let ghost pending_before = fragmenter.pending();
        match fragmenter.next() {
            Some(f) => {
                let ghost fv = f@;
                frames.push(f);
                proof {
                    let mapped = frames@.map_values(|f: Frame| f@);
                    let mapped_before = frames_before.map_values(|f: Frame| f@);
                    assert(mapped =~= mapped_before.push(fv));
                    lemma_frames_payload_push(mapped_before, fv);
                    if pending_before.len() > 0 {
                        let chunk = if pending_before.len() <= fragmenter.spec_fragment_size() {
                            pending_before.len() as int
                        } else {
                            fragmenter.spec_fragment_size()
                        };
                        assert(pending_before.take(chunk) + pending_before.skip(chunk)
                            =~= pending_before);
                    }
                    assert(frames_payload(mapped) + fragmenter.pending() =~= payload_seq);
                }
            },
            None => {
                break ;
            },
        }
    }
    frames
}

/// Appending a frame appends its payload to the concatenation.
proof fn lemma_frames_payload_push(frames: Seq<FrameSpec>, f: FrameSpec)
    ensures
        frames_payload(frames.push(f)) == frames_payload(frames) + f.payload,
    decreases frames.len(),
{
    if frames.len() == 0 {
        assert(frames.push(f).skip(1) =~= Seq::<FrameSpec>::empty());
        assert(frames.push(f)[0] == f);
        assert(frames_payload(Seq::<FrameSpec>::empty()) == Seq::<u8>::empty());
        assert(frames_payload(frames.push(f)) == f.payload + Seq::<u8>::empty());
        assert(f.payload + Seq::<u8>::empty() =~= f.payload);
        assert(frames_payload(frames) + f.payload =~= f.payload);
    } else {
        assert(frames.push(f).skip(1) =~= frames.skip(1).push(f));
        lemma_frames_payload_push(frames.skip(1), f);
        assert(frames_payload(frames.push(f)) == frames[0].payload + (frames_payload(
            frames.skip(1),
        ) + f.payload));
        assert(frames[0].payload + (frames_payload(frames.skip(1)) + f.payload)
            =~= (frames[0].payload + frames_payload(frames.skip(1))) + f.payload);
    }
}

} // verus!
