//! The transport-free connection engine (RFC 6455 section 5.5 and 7).
//!
//! A [`Connection`] owns no socket: callers feed it received bytes and
//! drain the bytes it wants sent. `send` lowers a message to frames —
//! fragmenting data messages, masking as a client, running the
//! extension pipeline on the first frame — and appends their wire bytes
//! to the output. `recv` parses one frame from the input, validates it
//! against the role and limits, answers pings, mirrors close frames,
//! and reassembles data messages. Only `Open` permits sending; `Open`
//! or `Closing` permit receiving; `Closed` is terminal.

use vstd::prelude::*;
use vstd::string::StringExecFns;
use vstd::string::StringSliceAdditionalSpecFns;

use crate::config::Config;
use crate::connection::fragmenter::{fragment_all, is_fragmentation};
use crate::connection::role::Role;
use crate::connection::state::ConnectionState;
use crate::error::Error;
use crate::extensions::{Extension, ExtensionRegistry, RsvBits};
use crate::message::{close_code_reserved, close_code_value, CloseCode, CloseFrame, Message};
use crate::protocol::assembler::{push_spec, AssembledMessage, MessageAssembler};
use crate::protocol::frame::{
    be16_val, frame_bytes, spec_header_size, spec_mask_of, spec_parse, spec_payload_len, Frame,
    FrameHeader, FrameSpec,
};
use crate::protocol::opcode::{opcode_of_value, OpCode};
use crate::protocol::utf8::utf8_to_string;
use crate::protocol::validation::{masking_ok, FrameValidator};
use vstd::utf8::valid_utf8;

verus! {

/// One outcome of a receive step.
pub enum RecvStatus {
    /// A complete message arrived.
    Message(Message),
    /// One frame was consumed but no message completed yet (a fragment,
    /// say); call again before reading more bytes.
    Pending,
    /// The buffered bytes do not yet hold a whole frame; feed more.
    NeedMoreData,
    /// The connection is closed; nothing more will arrive.
    Closed,
}

/// A 32-bit product reduced to the word: the mixing primitive of the
/// mask generator.
#[verifier::opaque]
pub open spec fn mul32(a: u32, b: u32) -> u32 {
    ((a * b) % 0x100000000) as u32
}

/// The xor-shift-multiply mix that turns the mask counter into key
/// material.
#[verifier::opaque]
pub open spec fn mask_mix(a: u32) -> u32 {
    let b = mul32(a, 0x85EBCA6B);
    let c = b ^ (b >> 13u32);
    mul32(c, 0xC2B2AE35)
}

/// The counter after one advance: the golden-ratio increment, mod 2^32.
pub open spec fn counter_next(c: u32) -> u32 {
    ((c + 0x9E3779B9) % 0x100000000) as u32
}

/// The 4-byte key a mixed counter yields, little-endian.
pub open spec fn mask_key_of(d: u32) -> Seq<u8> {
    seq![
        (d & 0xff) as u8,
        ((d >> 8u32) & 0xff) as u8,
        ((d >> 16u32) & 0xff) as u8,
        ((d >> 24u32) & 0xff) as u8,
    ]
}

/// The single frame a message lowers to: final, reserved bits clear,
/// the message's opcode, and its payload bytes — for a close message,
/// the big-endian code followed by the reason's UTF-8 bytes.
pub open spec fn message_frame(m: Message) -> FrameSpec {
    FrameSpec {
        fin: true,
        rsv1: false,
        rsv2: false,
        rsv3: false,
        opcode: match m {
            Message::Text(_) => OpCode::Text,
            Message::Binary(_) => OpCode::Binary,
            Message::Ping(_) => OpCode::Ping,
            Message::Pong(_) => OpCode::Pong,
            Message::Close(_) => OpCode::Close,
        },
        payload: match m {
            Message::Text(s) => vstd::utf8::encode_utf8(s@),
            Message::Binary(d) => d@,
            Message::Ping(d) => d@,
            Message::Pong(d) => d@,
            Message::Close(cf) => match cf {
                Some(c) => seq![
                    (close_code_value(c.code) / 256) as u8,
                    (close_code_value(c.code) % 256) as u8,
                ] + vstd::utf8::encode_utf8(c.reason@),
                None => Seq::<u8>::empty(),
            },
        },
    }
}

/// The mask a frame written at this counter carries: the mixed advanced
/// counter's key for a client, none for a server.
pub open spec fn outgoing_mask(role: Role, counter: u32) -> Option<Seq<u8>> {
    if role is Client {
        Some(mask_key_of(mask_mix(counter_next(counter))))
    } else {
        None
    }
}

/// The counter after one frame is written: advanced for a client,
/// unchanged for a server.
pub open spec fn counter_after_write(role: Role, counter: u32) -> u32 {
    if role is Client {
        counter_next(counter)
    } else {
        counter
    }
}

/// The wire bytes of a run of frames written in order: each frame's
/// encoding under the mask its turn yields, the counter advancing by
/// one client write per frame.
pub open spec fn frames_wire(fs: Seq<FrameSpec>, role: Role, counter: u32) -> Seq<u8>
    decreases fs.len(),
{
    if fs.len() == 0 {
        Seq::empty()
    } else {
        frame_bytes(fs[0], outgoing_mask(role, counter)) + frames_wire(
            fs.skip(1),
            role,
            counter_after_write(role, counter),
        )
    }
}

/// Whether one message of a batch is owed success: its lowered payload
/// fits the platform word, and it is a control message or an
/// unfragmented, in-limit data message with no extension negotiated.
pub open spec fn batch_sendable(m: Message, c: Config, negotiated: int) -> bool {
    &&& message_frame(m).payload.len() <= usize::MAX - 14
    &&& (m is Ping || m is Pong || m is Close || (negotiated == 0 && message_frame(
        m,
    ).payload.len() <= c.fragment_size && message_frame(m).payload.len()
        <= c.limits.max_message_size))
}

/// Whether every message of a batch is owed success.
pub open spec fn all_batch_sendable(msgs: Seq<Message>, c: Config, negotiated: int) -> bool {
    forall|i: int| 0 <= i < msgs.len() ==> batch_sendable(#[trigger] msgs[i], c, negotiated)
}

/// The wire bytes of a run of messages each lowered to its single
/// frame, written in order, the counter advancing by one client write
/// per message.
pub open spec fn batch_wire(msgs: Seq<Message>, role: Role, counter: u32) -> Seq<u8>
    decreases msgs.len(),
{
    if msgs.len() == 0 {
        Seq::empty()
    } else {
        frame_bytes(message_frame(msgs[0]), outgoing_mask(role, counter)) + batch_wire(
            msgs.skip(1),
            role,
            counter_after_write(role, counter),
        )
    }
}

/// The close frame carrying a code and reason: final, opcode Close,
/// payload the big-endian code then the reason's UTF-8 bytes.
pub open spec fn close_frame_of(code: u16, reason: Seq<u8>) -> FrameSpec {
    FrameSpec {
        fin: true,
        rsv1: false,
        rsv2: false,
        rsv3: false,
        opcode: OpCode::Close,
        payload: seq![(code / 256) as u8, (code % 256) as u8] + reason,
    }
}

/// How a close frame's payload reads (RFC 6455 section 5.5.1): two or
/// more bytes are the big-endian code and a UTF-8 reason — a bad reason
/// becomes the invalid-payload code with an empty reason; one byte is a
/// protocol error; none is an absent close body. This is the reference
/// model for [`Connection::parse_close_frame`] and for what `recv`
/// returns on a close frame.
pub open spec fn close_frame_matches(payload: Seq<u8>, r: Option<CloseFrame>) -> bool {
    if payload.len() == 0 {
        r is None
    } else if payload.len() == 1 {
        r matches Some(cf) && cf.code == CloseCode::ProtocolError && cf.reason@.len() == 0
    } else {
        r matches Some(cf) && {
            let code = crate::message::close_code_of(be16_val(payload[0], payload[1]) as u16);
            if valid_utf8(payload.skip(2)) {
                cf.code == code && cf.reason@ == vstd::utf8::decode_utf8(payload.skip(2))
            } else {
                cf.code == CloseCode::InvalidPayload && cf.reason@.len() == 0
            }
        }
    }
}

/// Relies on `getrandom::u32`: a random value from the operating
/// system, or nothing when the source fails. Nothing can be promised of
/// the value.
#[verifier::external_body]
fn sys_random_u32() -> Option<u32> {
    match getrandom::u32() {
        Ok(v) => Some(v),
        Err(_) => None,
    }
}

/// Relies on `std::time::SystemTime`: a low bits-of-the-clock fallback
/// seed, or a fixed value if even the clock fails. Nothing can be
/// promised of the value.
#[verifier::external_body]
fn time_seed() -> u32 {
    match std::time::SystemTime::now().duration_since(std::time::UNIX_EPOCH) {
        Ok(d) => d.as_nanos() as u32,
        Err(_) => 0x12345678,
    }
}

/// A seed for the mask counter: system randomness, or the clock when
/// that fails.
fn random_mask_seed() -> u32 {
    match sys_random_u32() {
        Some(v) => v,
        None => time_seed(),
    }
}

/// The mixing function never sends two counters to the same key: the
/// multipliers are odd and the xor-shift is invertible, so distinct
/// counters always yield distinct mask keys.
pub proof fn lemma_mask_mix_injective(a: u32, b: u32)
    requires
        a != b,
    ensures
        mask_mix(a) != mask_mix(b),
{
    reveal(mask_mix);
    lemma_mul32_injective(a, b, 0x85EBCA6B);
    let x = mul32(a, 0x85EBCA6B);
    let y = mul32(b, 0x85EBCA6B);
    lemma_xorshift_injective(x, y);
    lemma_mul32_injective(x ^ (x >> 13u32), y ^ (y >> 13u32), 0xC2B2AE35);
}

proof fn lemma_mul32_injective(a: u32, b: u32, k: u32)
    requires
        a != b,
        k == 0x85EBCA6B || k == 0xC2B2AE35,
    ensures
        mul32(a, k) != mul32(b, k),
{
    reveal(mul32);
    let kinv: u32 = if k == 0x85EBCA6B {
        0xA5CB9243
    } else {
        0x7ED1B41D
    };
    assert((k * kinv) % 0x100000000 == 1);
    lemma_mul32_cancel(a, k, kinv);
    lemma_mul32_cancel(b, k, kinv);
}

/// Multiplying by a constant and then by its modular inverse restores
/// the value.
proof fn lemma_mul32_cancel(a: u32, k: u32, kinv: u32)
    requires
        (k * kinv) % 0x100000000 == 1,
    ensures
        mul32(mul32(a, k), kinv) == a,
{
    reveal(mul32);
    let m = 0x100000000int;
    vstd::arithmetic::div_mod::lemma_mul_mod_noop_left(a * k, kinv as int, m);
    assert((((a * k) % m) * kinv) % m == ((a * k) * kinv) % m);
    vstd::arithmetic::mul::lemma_mul_is_associative(a as int, k as int, kinv as int);
    vstd::arithmetic::div_mod::lemma_mul_mod_noop_right(a as int, k * kinv, m);
    assert(((a * (k * kinv)) % m) == (a * ((k * kinv) % m)) % m);
    assert(a * ((k * kinv) % m) == a);
    vstd::arithmetic::div_mod::lemma_small_mod(a as nat, m as nat);
}

/// Two consecutive frames of one connection never carry the same mask
/// key: the counter moves by a non-zero step and the mix is injective,
/// so the keys of two successive sends differ.
pub proof fn lemma_successive_masks_distinct(counter: u32)
    ensures
        mask_key_of(mask_mix(counter_next(counter))) != mask_key_of(
            mask_mix(counter_next(counter_next(counter))),
        ),
{
    let a = counter_next(counter);
    let b = counter_next(a);
    let m = 0x100000000int;
    let g = 0x9E3779B9int;
    assert(a != b) by {
        if a + g < m {
            vstd::arithmetic::div_mod::lemma_small_mod((a + g) as nat, m as nat);
        } else {
            let y = a + g - m;
            vstd::arithmetic::div_mod::lemma_small_mod(y as nat, m as nat);
            vstd::arithmetic::div_mod::lemma_mod_add_multiples_vanish(y, m);
        }
    }
    lemma_mask_mix_injective(a, b);
    lemma_mask_key_injective(mask_mix(a), mask_mix(b));
}

/// Distinct words yield distinct 4-byte keys: the key holds every bit
/// of the word.
proof fn lemma_mask_key_injective(x: u32, y: u32)
    requires
        x != y,
    ensures
        mask_key_of(x) != mask_key_of(y),
{
    if mask_key_of(x) == mask_key_of(y) {
        assert(mask_key_of(x)[0] == mask_key_of(y)[0]);
        assert(mask_key_of(x)[1] == mask_key_of(y)[1]);
        assert(mask_key_of(x)[2] == mask_key_of(y)[2]);
        assert(mask_key_of(x)[3] == mask_key_of(y)[3]);
        assert(false) by (bit_vector)
            requires
                x != y,
                (x & 0xff) as u8 == (y & 0xff) as u8,
                ((x >> 8u32) & 0xff) as u8 == ((y >> 8u32) & 0xff) as u8,
                ((x >> 16u32) & 0xff) as u8 == ((y >> 16u32) & 0xff) as u8,
                ((x >> 24u32) & 0xff) as u8 == ((y >> 24u32) & 0xff) as u8,
        ;
    }
}

proof fn lemma_xorshift_injective(x: u32, y: u32)
    by (bit_vector)
    requires
        x != y,
    ensures
        (x ^ (x >> 13u32)) != (y ^ (y >> 13u32)),
{
}

/// Whether a buffer holds enough bytes to read a frame's header fields:
/// flags, opcode, mask flag and announced length.
pub open spec fn header_ready(b: Seq<u8>) -> bool {
    &&& b.len() >= 2
    &&& opcode_of_value(b[0] & 0x0f) is Some
    &&& b.len() >= spec_header_size(b[1] & 0x7f)
    &&& spec_payload_len(b) <= usize::MAX
}

/// How a readable frame header is screened before its payload exists:
/// the masking rule, then the reserved bits the negotiated extensions
/// did not claim, then the frame size limit — the first broken rule's
/// error, or acceptance.
pub open spec fn header_screen<E: Extension>(c: Connection<E>, b: Seq<u8>) -> Result<(), Error> {
    let v = c.spec_validator();
    let is_masked = (b[1] & 0x80) != 0;
    let r1 = ((b[0] & 0x40) != 0) && !c.spec_claimed().rsv1;
    let r2 = ((b[0] & 0x20) != 0) && !c.spec_claimed().rsv2;
    let r3 = ((b[0] & 0x10) != 0) && !c.spec_claimed().rsv3;
    if !masking_ok(v.role, v.accept_unmasked_frames, is_masked) {
        Err(
            if v.role is Server {
                Error::UnmaskedClientFrame
            } else {
                Error::MaskedServerFrame
            },
        )
    } else if r1 || r2 || r3 {
        Err(Error::ReservedBitsSet)
    } else if spec_payload_len(b) > v.limits.max_frame_size {
        Err(
            Error::FrameTooLarge {
                size: spec_payload_len(b) as usize,
                max: v.limits.max_frame_size,
            },
        )
    } else {
        Ok(())
    }
}

/// The control-frame rules a dispatched frame is held to: no reserved
/// bit, final, at most 125 payload bytes — the first broken rule's
/// error, or acceptance.
pub open spec fn control_screen(f: FrameSpec) -> Result<(), Error> {
    if f.rsv1 || f.rsv2 || f.rsv3 {
        Err(Error::ReservedBitsSet)
    } else if !f.fin {
        Err(Error::FragmentedControlFrame)
    } else if f.payload.len() > 125 {
        Err(Error::ControlFrameTooLarge(f.payload.len() as usize))
    } else {
        Ok(())
    }
}

/// What dispatching one data frame promises, given the assembler's
/// result `pr` for it: the assembler moved per [`push_spec`]; Pending
/// until a message completes; the completed message converted exactly
/// when no extension transformed it; the assembler's error surfaced.
pub open spec fn data_dispatch<E: Extension>(
    pre: Connection<E>,
    post: Connection<E>,
    f: FrameSpec,
    r: Result<RecvStatus, Error>,
    pr: Result<Option<AssembledMessage>, Error>,
) -> bool {
    &&& push_spec(pre.spec_assembler(), f, post.spec_assembler(), pr)
    &&& post.spec_pending_pong() is None
    &&& post.spec_state() == pre.spec_state()
    &&& (match pr {
        Err(e) => r == Err::<RecvStatus, Error>(e),
        Ok(m_opt) => match m_opt {
            None => r == Ok::<RecvStatus, Error>(RecvStatus::Pending),
            Some(am) => {
                &&& (r matches Ok(s) && s matches RecvStatus::Message(m) && (m is Text
                    || m is Binary)) || r is Err
                &&& (!(am.rsv1 && pre.spec_negotiated() > 0) ==> {
                    &&& (am.opcode is Text ==> (valid_utf8(am.payload@) ==> (r matches Ok(s)
                        && s matches RecvStatus::Message(m) && m matches Message::Text(t) && t@
                        == vstd::utf8::decode_utf8(am.payload@))) && (!valid_utf8(am.payload@)
                        ==> r == Err::<RecvStatus, Error>(Error::InvalidUtf8)))
                    &&& (am.opcode is Binary ==> (r matches Ok(s)
                        && s matches RecvStatus::Message(m) && m matches Message::Binary(d)
                        && d@ == am.payload@))
                })
            },
        },
    })
}

/// Everything one receive step on a receiving connection promises.
///
/// The queued pong, if any, is written first (`out1`, `ctr1`). A header
/// that breaks [`header_screen`] is refused with input untouched, even
/// before the whole frame arrives; missing bytes ask for more; any
/// other header fault is surfaced. A whole, accepted frame is consumed
/// exactly and dispatched: Ping and Pong are surfaced per
/// [`control_screen`], the Ping's payload queued for a pong; Close is
/// read per [`close_frame_matches`], mirrored on the output while Open,
/// and closes the connection; a data frame moves the assembler per
/// [`push_spec`], surfacing Pending, the completed message, or the
/// assembler's error.
pub open spec fn recv_post<E: Extension>(
    pre: Connection<E>,
    post: Connection<E>,
    r: Result<RecvStatus, Error>,
) -> bool {
    let inp = pre.input();
    let out1 = pre.output() + (match pre.spec_pending_pong() {
        Some(p) => frame_bytes(
            FrameSpec {
                fin: true,
                rsv1: false,
                rsv2: false,
                rsv3: false,
                opcode: OpCode::Pong,
                payload: p,
            },
            outgoing_mask(pre.spec_role(), pre.spec_counter()),
        ),
        None => Seq::<u8>::empty(),
    });
    let ctr1 = if pre.spec_pending_pong() is Some {
        counter_after_write(pre.spec_role(), pre.spec_counter())
    } else {
        pre.spec_counter()
    };
    &&& post.spec_role() == pre.spec_role()
    &&& post.spec_config() == pre.spec_config()
    &&& post.spec_validator() == pre.spec_validator()
    &&& (match spec_parse(inp) {
        Err(e) => {
            &&& post.input() == inp
            &&& post.output() == out1
            &&& post.spec_state() == pre.spec_state()
            &&& post.spec_pending_pong() is None
            &&& post.spec_assembler() == pre.spec_assembler()
            &&& if header_ready(inp) && header_screen(pre, inp) is Err {
                r == Err::<RecvStatus, Error>(header_screen(pre, inp)->Err_0)
            } else if e is IncompleteFrame {
                r == Ok::<RecvStatus, Error>(RecvStatus::NeedMoreData)
            } else {
                r == Err::<RecvStatus, Error>(e)
            }
        },
        Ok((f, c)) => {
            if header_screen(pre, inp) is Err {
                &&& r == Err::<RecvStatus, Error>(header_screen(pre, inp)->Err_0)
                &&& post.input() == inp
                &&& post.output() == out1
                &&& post.spec_state() == pre.spec_state()
                &&& post.spec_pending_pong() is None
                &&& post.spec_assembler() == pre.spec_assembler()
            } else {
                &&& post.input() == inp.skip(c)
                &&& (if f.opcode.spec_is_control() {
                    &&& post.spec_assembler() == pre.spec_assembler()
                    &&& (match control_screen(f) {
                        Err(e) => r == Err::<RecvStatus, Error>(e) && post.output() == out1
                            && post.spec_state() == pre.spec_state()
                            && post.spec_pending_pong() is None,
                        Ok(()) => {
                            if f.opcode is Ping {
                                &&& (r matches Ok(s) && s matches RecvStatus::Message(m)
                                    && m matches Message::Ping(d) && d@ == f.payload)
                                &&& post.spec_pending_pong() == Some(f.payload)
                                &&& post.output() == out1
                                &&& post.spec_state() == pre.spec_state()
                            } else if f.opcode is Pong {
                                &&& (r matches Ok(s) && s matches RecvStatus::Message(m)
                                    && m matches Message::Pong(d) && d@ == f.payload)
                                &&& post.spec_pending_pong() is None
                                &&& post.output() == out1
                                &&& post.spec_state() == pre.spec_state()
                            } else {
                                &&& (r matches Ok(s) && s matches RecvStatus::Message(m)
                                    && m matches Message::Close(cf) && close_frame_matches(
                                    f.payload,
                                    cf,
                                ) && post.output() == (if pre.spec_state() is Open {
                                    out1 + frame_bytes(
                                        message_frame(Message::Close(cf)),
                                        outgoing_mask(pre.spec_role(), ctr1),
                                    )
                                } else {
                                    out1
                                }))
                                &&& post.spec_state() is Closed
                                &&& post.spec_pending_pong() is None
                            }
                        },
                    })
                } else {
                    exists|pr: Result<Option<AssembledMessage>, Error>|
                        #[trigger] data_dispatch(pre, post, f, r, pr) && post.output() == out1
                })
            }
        },
    })
}

/// A WebSocket connection engine, transport-free: callers feed input
/// bytes in and take output bytes away.
pub struct Connection<E: Extension> {
    role: Role,
    config: Config,
    state: ConnectionState,
    assembler: MessageAssembler,
    pending_pong: Option<Vec<u8>>,
    extensions: ExtensionRegistry<E>,
    validator: FrameValidator,
    read_buf: Vec<u8>,
    write_buf: Vec<u8>,
    mask_counter: u32,
}

impl<E: Extension> Connection<E> {
    /// The engine's internal consistency: the assembler and registry
    /// invariants, and a queued pong no larger than a control payload.
    pub closed spec fn wf(&self) -> bool {
        &&& self.assembler.wf()
        &&& self.extensions.wf()
        &&& (match self.pending_pong {
            Some(p) => p@.len() <= 125,
            None => true,
        })
    }

    /// The connection's state, as the model sees it.
    pub closed spec fn spec_state(&self) -> ConnectionState {
        self.state
    }

    /// The bytes waiting to be handed to the transport.
    pub closed spec fn output(&self) -> Seq<u8> {
        self.write_buf@
    }

    /// The received bytes not yet consumed.
    pub closed spec fn input(&self) -> Seq<u8> {
        self.read_buf@
    }

    /// The connection's role.
    pub closed spec fn spec_role(&self) -> Role {
        self.role
    }

    /// The mask counter, as the model sees it.
    pub closed spec fn spec_counter(&self) -> u32 {
        self.mask_counter
    }

    /// The configuration, as the model sees it.
    pub closed spec fn spec_config(&self) -> Config {
        self.config
    }

    /// How many extensions were negotiated.
    pub closed spec fn spec_negotiated(&self) -> int {
        self.extensions.spec_negotiated_count()
    }

    /// The payload queued for a pong answer, if a ping arrived.
    pub closed spec fn spec_pending_pong(&self) -> Option<Seq<u8>> {
        match self.pending_pong {
            Some(p) => Some(p@),
            None => None,
        }
    }

    /// The message assembler, as the model sees it.
    pub closed spec fn spec_assembler(&self) -> MessageAssembler {
        self.assembler
    }

    /// The reserved bits the negotiated extensions claim.
    pub closed spec fn spec_claimed(&self) -> RsvBits {
        self.extensions.spec_negotiated_bits()
    }

    /// The frame validator, as configured at construction.
    pub closed spec fn spec_validator(&self) -> FrameValidator {
        self.validator
    }

    /// Create a connection engine with no extensions registered. The
    /// mask counter is seeded from system randomness, with a clock
    /// fallback, so distinct connections get distinct mask streams.
    pub fn new(role: Role, config: Config) -> (r: Self)
        ensures
            r.wf(),
            r.spec_state() is Open,
            r.spec_role() == role,
            r.output() == Seq::<u8>::empty(),
            r.input() == Seq::<u8>::empty(),
            r.spec_config() == config,
            r.spec_validator() == (FrameValidator {
                role,
                limits: config.limits,
                accept_unmasked_frames: config.accept_unmasked_frames,
            }),
            r.spec_pending_pong() is None,
            r.spec_assembler().is_reset(),
            r.spec_assembler().spec_config().limits == config.limits,
            r.spec_negotiated() == 0,
            r.spec_claimed() == (RsvBits { rsv1: false, rsv2: false, rsv3: false }),
    {
        Connection::with_extensions(role, config, ExtensionRegistry::new())
    }

    /// Create a connection engine with pre-negotiated extensions.
    pub fn with_extensions(role: Role, config: Config, extensions: ExtensionRegistry<E>) -> (r:
        Self)
        requires
            extensions.wf(),
        ensures
            r.wf(),
            r.spec_state() is Open,
            r.spec_role() == role,
            r.output() == Seq::<u8>::empty(),
            r.input() == Seq::<u8>::empty(),
            r.spec_config() == config,
            r.spec_validator() == (FrameValidator {
                role,
                limits: config.limits,
                accept_unmasked_frames: config.accept_unmasked_frames,
            }),
            r.spec_pending_pong() is None,
            r.spec_assembler().is_reset(),
            r.spec_assembler().spec_config().limits == config.limits,
            r.spec_negotiated() == extensions.spec_negotiated_count(),
            r.spec_claimed() == extensions.spec_negotiated_bits(),
    {
        let validator = FrameValidator::new(
            role,
            limits_clone(&config.limits),
        ).with_accept_unmasked(config.accept_unmasked_frames);
        let assembler = MessageAssembler::new(config_clone(&config));
        Connection {
            role,
            config,
            state: ConnectionState::Open,
            assembler,
            pending_pong: None,
            extensions,
            validator,
            read_buf: Vec::new(),
            write_buf: Vec::new(),
            mask_counter: random_mask_seed(),
        }
    }

    /// The current connection state.
    pub fn state(&self) -> (r: ConnectionState)
        ensures
            r == self.spec_state(),
    {
        self.state
    }

    /// Whether the connection is open for both directions.
    pub fn is_open(&self) -> (r: bool)
        ensures
            r == (self.spec_state() is Open),
    {
        match self.state {
            ConnectionState::Open => true,
            _ => false,
        }
    }

    /// Hand received transport bytes to the engine.
    pub fn feed(&mut self, data: &[u8])
        ensures
            final(self).input() == old(self).input() + data@,
            final(self).output() == old(self).output(),
            final(self).spec_state() == old(self).spec_state(),
            old(self).wf() ==> final(self).wf(),
    {
        self.read_buf.extend_from_slice(data);
    }

    /// Take the bytes the engine wants written to the transport.
    pub fn take_output(&mut self) -> (r: Vec<u8>)
        ensures
            r@ == old(self).output(),
            final(self).output() == Seq::<u8>::empty(),
            final(self).input() == old(self).input(),
            final(self).spec_state() == old(self).spec_state(),
            old(self).wf() ==> final(self).wf(),
    {
        let mut out: Vec<u8> = Vec::new();
        out.append(&mut self.write_buf);
        out
    }

    /// Record that the transport reached end of input: the connection
    /// is closed.
    pub fn on_eof(&mut self)
        ensures
            final(self).spec_state() is Closed,
            final(self).output() == old(self).output(),
            old(self).wf() ==> final(self).wf(),
    {
        self.state = ConnectionState::Closed;
    }

    /// Advance the mask counter and produce the next 4-byte mask key,
    /// exactly the mix of the advanced counter.
    fn generate_mask(&mut self) -> (r: [u8; 4])
        ensures
            final(self).mask_counter == counter_next(old(self).mask_counter),
            r@ == mask_key_of(mask_mix(counter_next(old(self).mask_counter))),
            final(self).state == old(self).state,
            final(self).write_buf == old(self).write_buf,
            final(self).read_buf == old(self).read_buf,
            final(self).assembler == old(self).assembler,
            final(self).role == old(self).role,
            final(self).config == old(self).config,
            final(self).validator == old(self).validator,
            final(self).pending_pong == old(self).pending_pong,
            final(self).extensions == old(self).extensions,
    {
        let next: u32 = (((self.mask_counter as u64) + 0x9E3779B9u64) % 0x100000000) as u32;
        self.mask_counter = next;
        let b: u32 = (((next as u64) * 0x85EBCA6Bu64) % 0x100000000) as u32;
        let c: u32 = b ^ (b >> 13u32);
        let d: u32 = (((c as u64) * 0xC2B2AE35u64) % 0x100000000) as u32;
        let key: [u8; 4] = [
            (d & 0xff) as u8,
            ((d >> 8u32) & 0xff) as u8,
            ((d >> 16u32) & 0xff) as u8,
            ((d >> 24u32) & 0xff) as u8,
        ];
        proof {
            reveal(mul32);
            reveal(mask_mix);
            assert(d == mask_mix(counter_next(old(self).mask_counter)));
            assert(key@ =~= mask_key_of(mask_mix(counter_next(old(self).mask_counter))));
        }
        key
    }

    /// Serialize one frame to the output buffer, masked as a client,
    /// plain as a server: exactly the frame's wire bytes are appended,
    /// and only a payload beyond the platform word is refused.
    fn write_frame(&mut self, frame: &Frame) -> (r: Result<(), Error>)
        requires
            old(self).wf(),
        ensures
            final(self).wf(),
            final(self).spec_state() == old(self).spec_state(),
            final(self).input() == old(self).input(),
            final(self).spec_pending_pong() == old(self).spec_pending_pong(),
            final(self).spec_assembler() == old(self).spec_assembler(),
            final(self).spec_role() == old(self).spec_role(),
            final(self).spec_config() == old(self).spec_config(),
            final(self).spec_negotiated() == old(self).spec_negotiated(),
            final(self).spec_claimed() == old(self).spec_claimed(),
            final(self).spec_validator() == old(self).spec_validator(),
            r is Err <==> frame@.payload.len() > usize::MAX - 14,
            r is Ok ==> final(self).output() == old(self).output() + frame_bytes(
                frame@,
                outgoing_mask(old(self).spec_role(), old(self).spec_counter()),
            ) && final(self).spec_counter() == counter_after_write(
                old(self).spec_role(),
                old(self).spec_counter(),
            ),
            r is Err ==> *final(self) == *old(self) && (
            r->Err_0 matches Error::PayloadTooLargeForPlatform { .. }),
    {
        if frame.payload.len() > usize::MAX - 14 {
            return Err(
                Error::PayloadTooLargeForPlatform {
                    size: usize::MAX as u64,
                    max: usize::MAX as u64,
                },
            );
        }
        let mask: Option<[u8; 4]> = match self.role {
            Role::Client => Some(self.generate_mask()),
            Role::Server => None,
        };
        let total = frame.wire_size(mask.is_some());
        let mut tmp: Vec<u8> = Vec::new();
        let mut i: usize = 0;
        while i < total
            invariant
                tmp@.len() == i,
                i <= total,
            decreases total - i,
        {
            tmp.push(0);
            i = i + 1;
        }
        match frame.write(&mut tmp, mask) {
            Ok(written) => {
                proof {
                    assert(tmp@.skip(frame_bytes(frame@, spec_mask_of(mask)).len() as int)
                        =~= Seq::<u8>::empty());
                    assert(frame_bytes(frame@, spec_mask_of(mask)) + Seq::<u8>::empty()
                        =~= frame_bytes(frame@, spec_mask_of(mask)));
                }
                self.write_buf.append(&mut tmp);
                Ok(())
            },
            Err(e) => {
                // The scratch buffer was sized to the exact wire size,
                // so the writer cannot refuse it.
                proof {
                    assert(false);
                }
                Err(e)
            },
        }
    }

    /// Lower a message to its single control or data frame, exactly
    /// [`message_frame`].
    fn message_to_frame(message: Message) -> (r: Frame)
        ensures
            r@ == message_frame(message),
    {
        match message {
            Message::Text(s) => {
                let bytes = vstd::slice::slice_to_vec(s.as_str().as_bytes());
                Frame::text(bytes)
            },
            Message::Binary(d) => Frame::binary(d),
            Message::Ping(d) => Frame::ping(d),
            Message::Pong(d) => Frame::pong(d),
            Message::Close(cf) => match cf {
                Some(c) => Frame::close(Some(c.code.as_u16()), c.reason.as_str()),
                None => Frame::close(None, ""),
            },
        }
    }

    /// Queue a message's frames on the output, without any notion of
    /// flushing: the caller writes and flushes the taken output.
    ///
    /// Sending is allowed only while Open. A control message becomes
    /// one frame, never fragmented or compressed. A data message is
    /// checked against `max_message_size`; within the fragment size it
    /// is one frame run through the extension pipeline, beyond it the
    /// fragmenter splits it and only the first, opcode-bearing frame is
    /// run through the pipeline, as RFC 7692 asks.
    #[verifier::rlimit(60)]
    pub fn send_no_flush(&mut self, message: Message) -> (r: Result<(), Error>)
        requires
            old(self).wf(),
        ensures
            final(self).wf(),
            final(self).spec_state() == old(self).spec_state(),
            final(self).input() == old(self).input(),
            !(old(self).spec_state() is Open) ==> r == Err::<(), Error>(
                Error::ConnectionClosed(None),
            ) && final(self).output() == old(self).output(),
            r is Err ==> !(r->Err_0 is IncompleteFrame),
            old(self).spec_state() is Open && message_frame(message).payload.len() <= usize::MAX
                - 14 && ((message is Ping || message is Pong || message is Close) || ((message
                is Text || message is Binary) && old(self).spec_negotiated() == 0
                && message_frame(message).payload.len()
                <= old(self).spec_config().limits.max_message_size)) ==> r is Ok,
            old(self).spec_state() is Open && (message is Ping || message is Pong || message is Close
                || (old(self).spec_negotiated() == 0 && message_frame(message).payload.len()
                    <= old(self).spec_config().fragment_size && message_frame(
                    message,
                ).payload.len() <= old(self).spec_config().limits.max_message_size)) && r is Ok
                ==> (
            if old(self).spec_role() is Server {
                final(self).output() == old(self).output() + frame_bytes(
                    message_frame(message),
                    None,
                )
            } else {
                final(self).output() == old(self).output() + frame_bytes(
                    message_frame(message),
                    Some(mask_key_of(mask_mix(counter_next(old(self).spec_counter())))),
                )
            }),
            old(self).spec_state() is Open && old(self).spec_negotiated() == 0 && (message
                is Text || message is Binary) && message_frame(message).payload.len() > old(
                self,
            ).spec_config().fragment_size && r is Ok ==> exists|fs: Seq<FrameSpec>|
                #[trigger] is_fragmentation(
                    fs,
                    message_frame(message).payload,
                    message_frame(message).opcode,
                ) && final(self).output() == old(self).output() + frames_wire(
                    fs,
                    old(self).spec_role(),
                    old(self).spec_counter(),
                ),
            final(self).spec_role() == old(self).spec_role(),
            final(self).spec_config() == old(self).spec_config(),
            final(self).spec_negotiated() == old(self).spec_negotiated(),
            old(self).spec_state() is Open && (message is Ping || message is Pong || message
                is Close || (old(self).spec_negotiated() == 0 && message_frame(
                message,
            ).payload.len() <= old(self).spec_config().fragment_size)) && r is Ok
                ==> final(self).spec_counter() == counter_after_write(
                old(self).spec_role(),
                old(self).spec_counter(),
            ),
            old(self).spec_state() is Open && (message is Text || message is Binary)
                && message_frame(message).payload.len() <= old(self).spec_config().fragment_size
                && r is Ok ==> exists|f: FrameSpec|
                f.fin && f.opcode == message_frame(message).opcode && final(self).output() == old(
                    self,
                ).output() + #[trigger] frame_bytes(
                    f,
                    outgoing_mask(old(self).spec_role(), old(self).spec_counter()),
                ),
    {
        let ghost msg0 = message;
        if !self.state.can_send() {
            return Err(Error::ConnectionClosed(None));
        }
        if message.is_control() {
            let frame = Connection::<E>::message_to_frame(message);
            return self.write_frame(&frame);
        }
        let opcode = if message.is_text() {
            OpCode::Text
        } else {
            OpCode::Binary
        };
        let payload: Vec<u8> = match message {
            Message::Text(s) => vstd::slice::slice_to_vec(s.as_str().as_bytes()),
            Message::Binary(d) => d,
            _ => Vec::new(),
        };
        match self.config.limits.check_message_size(payload.len()) {
            Ok(()) => {},
            Err(e) => {
                return Err(e);
            },
        }
        if payload.len() <= self.config.fragment_size {
            let mut frame = Frame::new(true, opcode, payload);
            match self.extensions.encode(&mut frame) {
                Ok(()) => {},
                Err(e) => {
                    return Err(self.no_incomplete(e));
                },
            }
            let ghost fspec = frame@;
            let res = self.write_frame(&frame);
            proof {
                if res is Ok {
                    assert(fspec.fin && fspec.opcode == message_frame(msg0).opcode && (
                    *self).output() == old(self).output() + frame_bytes(
                        fspec,
                        outgoing_mask(old(self).spec_role(), old(self).spec_counter()),
                    ));
                }
            }
            return res;
        }
        let frames = fragment_all(payload, opcode, self.config.fragment_size);
        let ghost fs = frames@.map_values(|fr: Frame| fr@);
        let r = self.send_fragments(frames);
        proof {
            if old(self).spec_negotiated() == 0 && r is Ok {
                assert(is_fragmentation(
                    fs,
                    message_frame(msg0).payload,
                    message_frame(msg0).opcode,
                ));
                assert((*self).output() == old(self).output() + frames_wire(
                    fs,
                    old(self).spec_role(),
                    old(self).spec_counter(),
                ));
            }
        }
        r
    }

    /// Queue a fragmented message's frames: the extension pipeline runs
    /// on the first, opcode-bearing frame only, as RFC 7692 asks;
    /// Continuation frames go out unchanged.
    #[verifier::rlimit(100)]
    #[verifier::spinoff_prover]
    fn send_fragments(&mut self, frames: Vec<Frame>) -> (r: Result<(), Error>)
        requires
            old(self).wf(),
        ensures
            final(self).wf(),
            final(self).spec_state() == old(self).spec_state(),
            final(self).input() == old(self).input(),
            final(self).spec_role() == old(self).spec_role(),
            final(self).spec_config() == old(self).spec_config(),
            final(self).spec_negotiated() == old(self).spec_negotiated(),
            r is Err ==> !(r->Err_0 is IncompleteFrame),
            old(self).spec_negotiated() == 0 && (forall|i: int|
                0 <= i < frames@.len() ==> (#[trigger] frames@[i])@.payload.len() <= usize::MAX
                    - 14) ==> r is Ok,
            old(self).spec_negotiated() == 0 && r is Ok ==> final(self).output() == old(
                self,
            ).output() + frames_wire(
                frames@.map_values(|fr: Frame| fr@),
                old(self).spec_role(),
                old(self).spec_counter(),
            ),
    {
        let ghost mapped = frames@.map_values(|fr: Frame| fr@);
        let total = frames.len();
        let mut k: usize = 0;
        proof {
            assert(mapped.skip(0) =~= mapped);
        }
        while k < total
            invariant
                k <= total,
                total == frames@.len(),
                mapped == frames@.map_values(|fr: Frame| fr@),
                self.wf(),
                self.state == old(self).state,
                self.read_buf@ == old(self).read_buf@,
                self.spec_negotiated() == old(self).spec_negotiated(),
                self.spec_config() == old(self).spec_config(),
                old(self).spec_negotiated() == 0 ==> self.output() + frames_wire(
                    mapped.skip(k as int),
                    self.spec_role(),
                    self.spec_counter(),
                ) == old(self).output() + frames_wire(
                    mapped,
                    old(self).spec_role(),
                    old(self).spec_counter(),
                ),
                self.spec_role() == old(self).spec_role(),
            decreases total - k,
        {
            let mut frame = frame_copy(&frames[k]);
            if k == 0 {
                match self.extensions.encode(&mut frame) {
                    Ok(()) => {},
                    Err(e) => {
                        // With no extension negotiated the pipeline
                        // cannot fail, so this exit implies one was.
                        return Err(self.no_incomplete(e));
                    },
                }
            }
            let ghost counter_at_write = self.spec_counter();
            match self.write_frame(&frame) {
                Ok(()) => {},
                Err(e) => {
                    // Refused only for a payload beyond the platform
                    // word; an extension may have grown the first
                    // frame, and then nothing was owed.
                    proof {
                        if old(self).spec_negotiated() == 0 {
                            assert(frame@ == frames@[k as int]@);
                        }
                    }
                    return Err(e);
                },
            }
            proof {
                if old(self).spec_negotiated() == 0 {
                    assert(frame@ == mapped.skip(k as int)[0]);
                    assert(mapped.skip(k as int).skip(1) =~= mapped.skip(k + 1));
                    assert(frames_wire(mapped.skip(k as int), self.spec_role(), counter_at_write)
                        == frame_bytes(frame@, outgoing_mask(self.spec_role(), counter_at_write))
                        + frames_wire(mapped.skip(k + 1), self.spec_role(), self.spec_counter()));
                }
            }
            k = k + 1;
        }
        proof {
            assert(mapped.skip(total as int) =~= Seq::<FrameSpec>::empty());
            if old(self).spec_negotiated() == 0 {
                assert(self.output() + Seq::<u8>::empty() =~= self.output());
            }
        }
        Ok(())
    }

    /// Map any incomplete-frame error from an extension to a general
    /// extension error: queueing output never asks for more input.
    fn no_incomplete(&self, e: Error) -> (r: Error)
        ensures
            !(r is IncompleteFrame),
    {
        match e {
            Error::IncompleteFrame { .. } => Error::Extension(
                String::from_str("extension reported incomplete data"),
            ),
            other => other,
        }
    }

    /// Queue a message on the output: the same as
    /// [`Connection::send_no_flush`]; the caller flushes after writing.
    pub fn send(&mut self, message: Message) -> (r: Result<(), Error>)
        requires
            old(self).wf(),
        ensures
            final(self).wf(),
            final(self).spec_state() == old(self).spec_state(),
            final(self).input() == old(self).input(),
            !(old(self).spec_state() is Open) ==> r == Err::<(), Error>(
                Error::ConnectionClosed(None),
            ) && final(self).output() == old(self).output(),
            r is Err ==> !(r->Err_0 is IncompleteFrame),
            old(self).spec_state() is Open && message_frame(message).payload.len() <= usize::MAX
                - 14 && ((message is Ping || message is Pong || message is Close) || ((message
                is Text || message is Binary) && old(self).spec_negotiated() == 0
                && message_frame(message).payload.len()
                <= old(self).spec_config().limits.max_message_size)) ==> r is Ok,
            old(self).spec_state() is Open && (message is Ping || message is Pong || message is Close
                || (old(self).spec_negotiated() == 0 && message_frame(message).payload.len()
                    <= old(self).spec_config().fragment_size && message_frame(
                    message,
                ).payload.len() <= old(self).spec_config().limits.max_message_size)) && r is Ok
                ==> (if old(self).spec_role() is Server {
                final(self).output() == old(self).output() + frame_bytes(
                    message_frame(message),
                    None,
                )
            } else {
                final(self).output() == old(self).output() + frame_bytes(
                    message_frame(message),
                    Some(mask_key_of(mask_mix(counter_next(old(self).spec_counter())))),
                )
            }),
            old(self).spec_state() is Open && old(self).spec_negotiated() == 0 && (message
                is Text || message is Binary) && message_frame(message).payload.len() > old(
                self,
            ).spec_config().fragment_size && r is Ok ==> exists|fs: Seq<FrameSpec>|
                #[trigger] is_fragmentation(
                    fs,
                    message_frame(message).payload,
                    message_frame(message).opcode,
                ) && final(self).output() == old(self).output() + frames_wire(
                    fs,
                    old(self).spec_role(),
                    old(self).spec_counter(),
                ),
            final(self).spec_role() == old(self).spec_role(),
            final(self).spec_config() == old(self).spec_config(),
            final(self).spec_negotiated() == old(self).spec_negotiated(),
            old(self).spec_state() is Open && (message is Text || message is Binary)
                && message_frame(message).payload.len() <= old(self).spec_config().fragment_size
                && r is Ok ==> exists|f: FrameSpec|
                f.fin && f.opcode == message_frame(message).opcode && final(self).output() == old(
                    self,
                ).output() + #[trigger] frame_bytes(
                    f,
                    outgoing_mask(old(self).spec_role(), old(self).spec_counter()),
                ),
    {
        self.send_no_flush(message)
    }

    /// Queue several messages in order.
    pub fn send_batch(&mut self, messages: Vec<Message>) -> (r: Result<(), Error>)
        requires
            old(self).wf(),
        ensures
            final(self).wf(),
            final(self).spec_state() == old(self).spec_state(),
            final(self).input() == old(self).input(),
            r is Err ==> !(r->Err_0 is IncompleteFrame),
            old(self).spec_state() is Open && all_batch_sendable(
                messages@,
                old(self).spec_config(),
                old(self).spec_negotiated(),
            ) ==> r is Ok && final(self).output() == old(self).output() + batch_wire(
                messages@,
                old(self).spec_role(),
                old(self).spec_counter(),
            ),
    {
        let ghost msgs0 = messages@;
        let total = messages.len();
        let mut messages = messages;
        let mut k: usize = 0;
        let ghost owed = old(self).spec_state() is Open && all_batch_sendable(
            msgs0,
            old(self).spec_config(),
            old(self).spec_negotiated(),
        );
        proof {
            assert(msgs0.skip(0) =~= msgs0);
        }
        let mut failed: Option<Error> = None;
        while k < total && failed.is_none()
            invariant
                k <= total,
                total == messages@.len(),
                total == msgs0.len(),
                forall|j: int| k <= j < total ==> messages@[j] == msgs0[j],
                self.wf(),
                self.state == old(self).state,
                self.read_buf@ == old(self).read_buf@,
                self.spec_role() == old(self).spec_role(),
                self.spec_config() == old(self).spec_config(),
                self.spec_negotiated() == old(self).spec_negotiated(),
                owed == (old(self).spec_state() is Open && all_batch_sendable(
                    msgs0,
                    old(self).spec_config(),
                    old(self).spec_negotiated(),
                )),
                owed ==> failed is None,
                failed matches Some(e) ==> !(e is IncompleteFrame),
                failed is None && owed ==> self.output() + batch_wire(
                    msgs0.skip(k as int),
                    self.spec_role(),
                    self.spec_counter(),
                ) == old(self).output() + batch_wire(
                    msgs0,
                    old(self).spec_role(),
                    old(self).spec_counter(),
                ),
            decreases total - k,
        {
            let ghost counter_at_send = self.spec_counter();
            let msg = message_take(&mut messages, k);
            match self.send_no_flush(msg) {
                Ok(()) => {},
                Err(e) => {
                    proof {
                        // Every batch-sendable message is owed success,
                        // so a refusal refutes the hypothesis.
                        if owed {
                            assert(batch_sendable(
                                msgs0[k as int],
                                old(self).spec_config(),
                                old(self).spec_negotiated(),
                            ));
                            assert(false);
                        }
                    }
                    failed = Some(e);
                },
            }
            if failed.is_none() {
                proof {
                    if owed {
                        assert(msgs0.skip(k as int)[0] == msgs0[k as int]);
                        assert(msgs0.skip(k as int).skip(1) =~= msgs0.skip(k + 1));
                        assert(batch_wire(msgs0.skip(k as int), self.spec_role(), counter_at_send)
                            == frame_bytes(
                            message_frame(msgs0[k as int]),
                            outgoing_mask(self.spec_role(), counter_at_send),
                        ) + batch_wire(msgs0.skip(k + 1), self.spec_role(), self.spec_counter()));
                    }
                }
            }
            k = k + 1;
        }
        match failed {
            Some(e) => Err(e),
            None => {
                proof {
                    if k == total {
                        assert(msgs0.skip(total as int) =~= Seq::<Message>::empty());
                        if owed {
                            assert(self.output() + Seq::<u8>::empty() =~= self.output());
                        }
                    }
                }
                Ok(())
            },
        }
    }

    /// Queue a ping message.
    pub fn ping(&mut self, data: Vec<u8>) -> (r: Result<(), Error>)
        requires
            old(self).wf(),
        ensures
            final(self).wf(),
            final(self).spec_state() == old(self).spec_state(),
            final(self).input() == old(self).input(),
            !(old(self).spec_state() is Open) ==> r == Err::<(), Error>(
                Error::ConnectionClosed(None),
            ) && final(self).output() == old(self).output(),
            old(self).spec_state() is Open && data@.len() <= usize::MAX - 14 ==> r is Ok,
            old(self).spec_state() is Open && r is Ok ==> final(self).output() == old(
                self,
            ).output() + frame_bytes(
                message_frame(Message::Ping(data)),
                outgoing_mask(old(self).spec_role(), old(self).spec_counter()),
            ),
    {
        self.send(Message::Ping(data))
    }

    /// Queue a pong message.
    pub fn pong(&mut self, data: Vec<u8>) -> (r: Result<(), Error>)
        requires
            old(self).wf(),
        ensures
            final(self).wf(),
            final(self).spec_state() == old(self).spec_state(),
            final(self).input() == old(self).input(),
            !(old(self).spec_state() is Open) ==> r == Err::<(), Error>(
                Error::ConnectionClosed(None),
            ) && final(self).output() == old(self).output(),
            old(self).spec_state() is Open && data@.len() <= usize::MAX - 14 ==> r is Ok,
            old(self).spec_state() is Open && r is Ok ==> final(self).output() == old(
                self,
            ).output() + frame_bytes(
                message_frame(Message::Pong(data)),
                outgoing_mask(old(self).spec_role(), old(self).spec_counter()),
            ),
    {
        self.send(Message::Pong(data))
    }

    /// Start the closing handshake: on an Open connection, refuse
    /// reserved codes, queue one close frame — the big-endian code then
    /// the reason — and move to Closing; in any other state do nothing.
    pub fn close(&mut self, code: CloseCode, reason: &str) -> (r: Result<(), Error>)
        requires
            old(self).wf(),
        ensures
            final(self).wf(),
            !(old(self).spec_state() is Open) ==> r is Ok && *final(self) == *old(self),
            old(self).spec_state() is Open && close_code_reserved(close_code_value(code)) ==> r
                == Err::<(), Error>(Error::InvalidCloseCode(close_code_value(code)))
                && *final(self) == *old(self),
            old(self).spec_state() is Open && !close_code_reserved(close_code_value(code)) ==> (
            r is Ok <==> 2 + reason.spec_bytes().len() <= usize::MAX - 14),
            old(self).spec_state() is Open && !close_code_reserved(close_code_value(code)) && r
                is Ok ==> final(self).spec_state() is Closing && final(self).output() == old(
                self,
            ).output() + frame_bytes(
                close_frame_of(close_code_value(code), reason.spec_bytes()),
                outgoing_mask(old(self).spec_role(), old(self).spec_counter()),
            ) && final(self).input() == old(self).input(),
    {
        match self.state {
            ConnectionState::Open => {},
            _ => {
                return Ok(());
            },
        }
        if code.is_reserved() {
            return Err(Error::InvalidCloseCode(code.as_u16()));
        }
        let frame = Frame::close(Some(code.as_u16()), reason);
        self.state = ConnectionState::Closing;
        match self.write_frame(&frame) {
            Ok(()) => Ok(()),
            Err(e) => Err(e),
        }
    }

    /// Read a close frame's payload: two or more bytes are the
    /// big-endian code and a UTF-8 reason — a bad reason turns into
    /// the invalid-payload code with an empty reason; one byte is a
    /// protocol error; none is an absent close frame body.
    pub fn parse_close_frame(payload: &Vec<u8>) -> (r: Option<CloseFrame>)
        ensures
            close_frame_matches(payload@, r),
    {
        let n = payload.len();
        if n >= 2 {
            let code: u16 = 256 * (payload[0] as u16) + (payload[1] as u16);
            let reason_bytes = vstd::slice::slice_to_vec(
                vstd::slice::slice_subrange(payload.as_slice(), 2, n),
            );
            proof {
                assert(reason_bytes@ =~= payload@.skip(2));
            }
            match utf8_to_string(reason_bytes) {
                Ok(reason) => Some(CloseFrame::new(CloseCode::from_u16(code), reason)),
                Err(_) => Some(CloseFrame::new(CloseCode::InvalidPayload, String::new())),
            }
        } else if n == 0 {
            None
        } else {
            Some(CloseFrame::new(CloseCode::ProtocolError, String::new()))
        }
    }

    /// Turn a reassembled message into a caller-visible one, running the
    /// extension decode pipeline when its first frame carried RSV1.
    fn assembled_to_message(&mut self, assembled: AssembledMessage) -> (r: Result<Message, Error>)
        requires
            old(self).wf(),
        ensures
            final(self).wf(),
            final(self).spec_state() == old(self).spec_state(),
            final(self).input() == old(self).input(),
            final(self).output() == old(self).output(),
            final(self).spec_pending_pong() == old(self).spec_pending_pong(),
            final(self).spec_assembler() == old(self).spec_assembler(),
            final(self).spec_role() == old(self).spec_role(),
            final(self).spec_config() == old(self).spec_config(),
            final(self).spec_validator() == old(self).spec_validator(),
            final(self).spec_counter() == old(self).spec_counter(),
            final(self).spec_negotiated() == old(self).spec_negotiated(),
            final(self).spec_claimed() == old(self).spec_claimed(),
            r matches Ok(m) ==> (m is Text || m is Binary),
            !(assembled.rsv1 && old(self).spec_negotiated() > 0) ==> {
                &&& (assembled.opcode is Text ==> (valid_utf8(assembled.payload@) ==> (
                r matches Ok(m) && m matches Message::Text(t) && t@ == vstd::utf8::decode_utf8(
                    assembled.payload@,
                ))) && (!valid_utf8(assembled.payload@) ==> r == Err::<Message, Error>(
                    Error::InvalidUtf8,
                )))
                &&& (assembled.opcode is Binary ==> (r matches Ok(m)
                    && m matches Message::Binary(d) && d@ == assembled.payload@))
            },
    {
        let opcode = assembled.opcode;
        let rsv1 = assembled.rsv1;
        let negotiated = self.extensions.negotiated_count();
        let payload: Vec<u8> = if rsv1 && negotiated > 0 {
            let mut frame = Frame::new(true, opcode, assembled.payload);
            frame.rsv1 = true;
            match self.extensions.decode(&mut frame) {
                Ok(()) => {},
                Err(e) => {
                    return Err(e);
                },
            }
            frame.into_payload()
        } else {
            assembled.payload
        };
        match opcode {
            OpCode::Text => match utf8_to_string(payload) {
                Ok(text) => Ok(Message::Text(text)),
                Err(e) => Err(e),
            },
            OpCode::Binary => Ok(Message::Binary(payload)),
            _ => Err(Error::ProtocolViolation(String::from_str("unexpected opcode"))),
        }
    }

    /// One receive step over the buffered input: at most one frame is
    /// consumed per call.
    ///
    /// A pong queued for an earlier ping goes out first. Then the next
    /// frame's header is read and held against the masking rule, the
    /// reserved bits not claimed by the negotiated extensions, and the
    /// frame size limit — before any payload byte is buffered further or
    /// copied, so an oversized announcement is refused from its header
    /// alone. A whole frame is then parsed and dispatched: a Ping is
    /// surfaced and its payload queued for a pong; a Pong is surfaced; a
    /// Close is read per [`close_frame_matches`], mirrored while Open,
    /// and closes the connection; a data frame feeds the assembler per
    /// its contract, surfacing Pending until a message completes.
    /// Everything promised is [`recv_post`].
    #[verifier::rlimit(100)]
    #[verifier::spinoff_prover]
    pub fn recv(&mut self) -> (r: Result<RecvStatus, Error>)
        requires
            old(self).wf(),
        ensures
            final(self).wf(),
            !(old(self).spec_state() is Open || old(self).spec_state() is Closing) ==> (
            r matches Ok(s) && s is Closed) && *final(self) == *old(self),
            (old(self).spec_state() is Open || old(self).spec_state() is Closing) ==> recv_post(
                *old(self),
                *final(self),
                r,
            ),
    {
        if !self.state.can_receive() {
            return Ok(RecvStatus::Closed);
        }
        // Answer an earlier ping before reading further. The queued
        // payload is control-sized, so the write cannot be refused.
        if let Some(pong_data) = take_pending(&mut self.pending_pong) {
            let pong_frame = Frame::pong(pong_data);
            match self.write_frame(&pong_frame) {
                Ok(()) => {},
                Err(e) => {
                    proof {
                        assert(false);
                    }
                    return Err(e);
                },
            }
        }
        let ghost out1g = self.write_buf@;
        // Hold the header against the rules before touching the payload.
        let header = match Frame::peek_header(self.read_buf.as_slice()) {
            Ok(h) => h,
            Err(e) => {
                match e {
                    Error::IncompleteFrame { .. } => {
                        return Ok(RecvStatus::NeedMoreData);
                    },
                    other => {
                        return Err(other);
                    },
                }
            },
        };
        let claimed = self.extensions.negotiated_claimed_bits();
        match self.validator.validate_incoming(
            header.masked,
            header.rsv1 && !claimed.rsv1,
            header.rsv2 && !claimed.rsv2,
            header.rsv3 && !claimed.rsv3,
            header.payload_len,
        ) {
            Ok(()) => {},
            Err(e) => {
                return Err(e);
            },
        }
        // Wait for the whole frame, in the order the parse model fixes:
        // the mask key first, then the announced payload.
        if self.read_buf.len() < header.header_len {
            return Ok(RecvStatus::NeedMoreData);
        }
        let total: usize = match header.header_len.checked_add(header.payload_len) {
            Some(t) => t,
            None => {
                return Err(
                    Error::PayloadTooLargeForPlatform {
                        size: header.payload_len as u64,
                        max: usize::MAX as u64,
                    },
                );
            },
        };
        if self.read_buf.len() < total {
            return Ok(RecvStatus::NeedMoreData);
        }
        // Every parse condition holds now, so this cannot fail.
        let ghost inp = self.read_buf@;
        proof {
            assert(spec_parse(inp) is Ok);
            assert(header_screen(*old(self), inp) is Ok);
        }
        let parsed = Frame::parse(self.read_buf.as_slice());
        let (frame, consumed) = match parsed {
            Ok(fc) => fc,
            Err(e) => {
                proof {
                    assert(false);
                }
                return Err(e);
            },
        };
        let ghost f = spec_parse(inp)->Ok_0.0;
        // Drop the consumed bytes.
        proof {
            crate::protocol::frame::lemma_parse_consumed_bounds(self.read_buf@);
        }
        let rest = vstd::slice::slice_to_vec(
            vstd::slice::slice_subrange(self.read_buf.as_slice(), consumed, self.read_buf.len()),
        );
        proof {
            assert(rest@ =~= inp.skip(spec_parse(inp)->Ok_0.1));
        }
        self.read_buf = rest;
        match frame.opcode {
            OpCode::Ping => {
                match frame.validate() {
                    Ok(()) => {},
                    Err(e) => {
                        return Err(e);
                    },
                }
                let payload = frame.into_payload();
                let answer = vstd::slice::slice_to_vec(payload.as_slice());
                self.pending_pong = Some(answer);
                let result = Ok(RecvStatus::Message(Message::Ping(payload)));
                proof {
                    assert(recv_post(*old(self), *self, result));
                }
                result
            },
            OpCode::Pong => {
                match frame.validate() {
                    Ok(()) => {},
                    Err(e) => {
                        return Err(e);
                    },
                }
                let result = Ok(RecvStatus::Message(Message::Pong(frame.into_payload())));
                proof {
                    assert(recv_post(*old(self), *self, result));
                }
                result
            },
            OpCode::Close => {
                match frame.validate() {
                    Ok(()) => {},
                    Err(e) => {
                        return Err(e);
                    },
                }
                let close_frame = Connection::<E>::parse_close_frame(&frame.payload);
                let was_open = match self.state {
                    ConnectionState::Open => true,
                    _ => false,
                };
                if was_open {
                    self.state = ConnectionState::Closing;
                    let response = match &close_frame {
                        Some(cf) => Frame::close(Some(cf.code.as_u16()), cf.reason.as_str()),
                        None => Frame::close(None, ""),
                    };
                    // The mirror echoes a control-sized close payload,
                    // so the write cannot be refused.
                    proof {
                        if close_frame is Some && f.payload.len() >= 2 && valid_utf8(
                            f.payload.skip(2),
                        ) {
                            vstd::utf8::decode_utf8_encode_utf8(f.payload.skip(2));
                        }
                        crate::message::lemma_close_code_roundtrip(
                            be16_val(f.payload[0], f.payload[1]) as u16,
                        );
                        assert(response@ =~= message_frame(Message::Close(close_frame)));
                        assert(response@.payload.len() <= 125);
                    }
                    match self.write_frame(&response) {
                        Ok(()) => {},
                        Err(e) => {
                            proof {
                                assert(false);
                            }
                            return Err(e);
                        },
                    }
                }
                self.state = ConnectionState::Closed;
                let result = Ok(RecvStatus::Message(Message::Close(close_frame)));
                proof {
                    assert(recv_post(*old(self), *self, result));
                }
                result
            },
            _ => {
                let ghost assembler_before = self.assembler;
                let push_result = self.assembler.push(frame);
                let ghost pr = push_result;
                proof {
                    assert(push_spec(assembler_before, f, self.spec_assembler(), pr));
                }
                match push_result {
                    Ok(Some(assembled)) => {
                        let result = match self.assembled_to_message(assembled) {
                            Ok(m) => Ok(RecvStatus::Message(m)),
                            Err(e) => Err(e),
                        };
                        proof {
                            assert(data_dispatch(*old(self), *self, f, result, pr));
                            assert((*self).output() == out1g);
                            assert(exists|w: Result<Option<AssembledMessage>, Error>|
                                #[trigger] data_dispatch(*old(self), *self, f, result, w));
                        }
                        result
                    },
                    Ok(None) => {
                        let result = Ok(RecvStatus::Pending);
                        proof {
                            assert(data_dispatch(*old(self), *self, f, result, pr));
                            assert((*self).output() == out1g);
                            assert(exists|w: Result<Option<AssembledMessage>, Error>|
                                #[trigger] data_dispatch(*old(self), *self, f, result, w));
                        }
                        result
                    },
                    Err(e) => {
                        let result = Err(e);
                        proof {
                            assert(data_dispatch(*old(self), *self, f, result, pr));
                            assert((*self).output() == out1g);
                            assert(exists|w: Result<Option<AssembledMessage>, Error>|
                                #[trigger] data_dispatch(*old(self), *self, f, result, w));
                        }
                        result
                    },
                }
            },
        }
    }
}

/// Take the pending pong payload, leaving none.
fn take_pending(slot: &mut Option<Vec<u8>>) -> (r: Option<Vec<u8>>)
    ensures
        r == *old(slot),
        (*final(slot)) is None,
{
    let mut out: Option<Vec<u8>> = None;
    core::mem::swap(slot, &mut out);
    out
}

/// Copy a frame field by field.
fn frame_copy(f: &Frame) -> (r: Frame)
    ensures
        r@ == f@,
{
    Frame {
        fin: f.fin,
        rsv1: f.rsv1,
        rsv2: f.rsv2,
        rsv3: f.rsv3,
        opcode: f.opcode,
        payload: vstd::slice::slice_to_vec(f.payload.as_slice()),
    }
}

/// Remove and return the message at an index, replacing it with an
/// empty binary message.
fn message_take(messages: &mut Vec<Message>, k: usize) -> (r: Message)
    requires
        k < old(messages)@.len(),
    ensures
        r == old(messages)@[k as int],
        final(messages)@.len() == old(messages)@.len(),
        forall|j: int|
            0 <= j < old(messages)@.len() && j != k ==> final(messages)@[j] == old(messages)@[j],
{
    let mut slot = Message::Binary(Vec::new());
    let cell = &mut messages[k];
    core::mem::swap(cell, &mut slot);
    slot
}

/// Copy a limits value field by field.
fn limits_clone(l: &crate::config::Limits) -> (r: crate::config::Limits)
    ensures
        r == *l,
{
    crate::config::Limits {
        max_frame_size: l.max_frame_size,
        max_message_size: l.max_message_size,
        max_fragment_count: l.max_fragment_count,
        max_handshake_size: l.max_handshake_size,
    }
}

/// Copy a configuration, sharing no state.
fn config_clone(c: &Config) -> (r: Config)
    ensures
        r.limits == c.limits,
        r.fragment_size == c.fragment_size,
        r.accept_unmasked_frames == c.accept_unmasked_frames,
        r.mask_frames == c.mask_frames,
        r.read_buffer_size == c.read_buffer_size,
        r.write_buffer_size == c.write_buffer_size,
{
    let timeouts = match &c.timeouts {
        Some(t) => Some(
            crate::config::Timeouts { handshake: t.handshake, read: t.read, write: t.write, idle: t.idle },
        ),
        None => None,
    };
    let allowed_origins = match &c.allowed_origins {
        Some(v) => {
            let mut out: Vec<String> = Vec::new();
            let n = v.len();
            let mut i: usize = 0;
            while i < n
                invariant
                    i <= n,
                    n == v@.len(),
                decreases n - i,
            {
                out.push(String::from_str(v[i].as_str()));
                i = i + 1;
            }
            Some(out)
        },
        None => None,
    };
    Config {
        limits: limits_clone(&c.limits),
        fragment_size: c.fragment_size,
        accept_unmasked_frames: c.accept_unmasked_frames,
        mask_frames: c.mask_frames,
        read_buffer_size: c.read_buffer_size,
        write_buffer_size: c.write_buffer_size,
        timeouts,
        allowed_origins,
    }
}

} // verus!
