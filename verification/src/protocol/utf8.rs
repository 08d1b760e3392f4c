//! Incremental UTF-8 validation for WebSocket text frames (RFC 6455).
//!
//! Text messages may arrive split across fragments, so a multi-byte
//! character can straddle a fragment boundary. The validator accepts a
//! fragment whose tail is the strict prefix of one valid character and
//! holds those bytes back for the next fragment; every other invalid
//! sequence is rejected. Validity is the standard UTF-8 notion of
//! `vstd::utf8::valid_utf8`.

use vstd::prelude::*;
use vstd::utf8::{
    is_continuation_byte, length_of_first_scalar, pop_first_scalar, valid_first_scalar,
    valid_utf8,
};

use crate::error::Error;

verus! {

/// The length of the longest prefix of `b` made of whole, valid UTF-8
/// characters. Everything after it is either empty, the start of one
/// character cut short, or garbage.
pub open spec fn utf8_ok_upto(b: Seq<u8>) -> int
    decreases b.len(),
    via utf8_ok_upto_decreases
{
    if b.len() == 0 {
        0int
    } else if valid_first_scalar(b) {
        length_of_first_scalar(b) + utf8_ok_upto(pop_first_scalar(b))
    } else {
        0int
    }
}

#[via_fn]
proof fn utf8_ok_upto_decreases(b: Seq<u8>) {
    if b.len() != 0 && valid_first_scalar(b) {
        assert(1 <= length_of_first_scalar(b) <= b.len());
    }
}

/// The bytes after the longest whole-character prefix.
pub open spec fn utf8_tail(b: Seq<u8>) -> Seq<u8> {
    b.skip(utf8_ok_upto(b))
}

/// The whole-character prefix never runs past the end.
pub proof fn lemma_ok_upto_bounds(b: Seq<u8>)
    ensures
        0 <= utf8_ok_upto(b) <= b.len(),
    decreases b.len(),
{
    if b.len() != 0 && valid_first_scalar(b) {
        assert(1 <= length_of_first_scalar(b) <= b.len());
        lemma_ok_upto_bounds(pop_first_scalar(b));
    }
}

/// A sequence is valid UTF-8 exactly when it consists of whole
/// characters: when its whole-character prefix is all of it.
pub proof fn lemma_valid_utf8_iff_no_tail(b: Seq<u8>)
    ensures
        valid_utf8(b) <==> utf8_ok_upto(b) == b.len(),
    decreases b.len(),
{
    if b.len() != 0 && valid_first_scalar(b) {
        assert(1 <= length_of_first_scalar(b) <= b.len());
        lemma_ok_upto_bounds(pop_first_scalar(b));
        lemma_valid_utf8_iff_no_tail(pop_first_scalar(b));
    }
}

/// True when `t` is the strict prefix of the encoding of one valid
/// character: bytes that cannot be judged until more arrive. At most
/// three bytes can be in this position (a four-byte character cut
/// before its last byte).
pub open spec fn is_partial_scalar(t: Seq<u8>) -> bool {
    if t.len() == 1 {
        (0xc2 <= t[0] <= 0xdf) || (0xe0 <= t[0] <= 0xef) || (0xf0 <= t[0] <= 0xf4)
    } else if t.len() == 2 {
        ||| (0xe0 <= t[0] <= 0xef && is_continuation_byte(t[1]) && (t[0] == 0xe0 ==> t[1] >= 0xa0)
            && (t[0] == 0xed ==> t[1] <= 0x9f))
        ||| (0xf0 <= t[0] <= 0xf4 && is_continuation_byte(t[1]) && (t[0] == 0xf0 ==> t[1] >= 0x90)
            && (t[0] == 0xf4 ==> t[1] <= 0x8f))
    } else if t.len() == 3 {
        0xf0 <= t[0] <= 0xf4 && is_continuation_byte(t[1]) && is_continuation_byte(t[2]) && (t[0]
            == 0xf0 ==> t[1] >= 0x90) && (t[0] == 0xf4 ==> t[1] <= 0x8f)
    } else {
        false
    }
}

/// How a scan of a byte buffer can end.
enum Utf8Scan {
    /// The whole buffer is valid UTF-8.
    Complete,
    /// Valid up to this offset; the rest starts one character cut short.
    Incomplete(usize),
    /// The bytes after the whole-character prefix are not UTF-8 and can
    /// never become it.
    Invalid,
}

/// Scan a buffer and classify it: all whole characters, whole
/// characters then one cut short, or invalid.
fn scan_utf8(all: &[u8]) -> (r: Utf8Scan)
    ensures
        ({
            let tail = utf8_tail(all@);
            &&& (r is Complete <==> tail.len() == 0)
            &&& (r matches Utf8Scan::Incomplete(k) ==> k == utf8_ok_upto(all@) && k < all@.len())
            &&& (r is Incomplete <==> tail.len() > 0 && is_partial_scalar(tail))
            &&& (r is Invalid <==> tail.len() > 0 && !is_partial_scalar(tail))
        }),
{
    let n = all.len();
    let mut i: usize = 0;
    proof {
        assert(all@.skip(0) =~= all@);
    }
    while i < n
        invariant
            i <= n,
            n == all@.len(),
            utf8_ok_upto(all@) == i + utf8_ok_upto(all@.skip(i as int)),
        decreases n - i,
    {
        let ghost s = all@.skip(i as int);
        let b0 = all[i];
        proof {
            assert(s[0] == all@[i as int]);
            lemma_ok_upto_bounds(all@.skip(i as int));
        }
        let rem = n - i;
        if b0 < 0x80 {
            // One-byte character.
            proof {
                assert(valid_first_scalar(s));
                assert(length_of_first_scalar(s) == 1);
                assert(pop_first_scalar(s) =~= all@.skip(i + 1));
            }
            i = i + 1;
        } else if b0 < 0xc2 {
            // A continuation byte with no character in progress, or an
            // overlong two-byte lead: invalid whatever follows.
            proof {
                if 0xc0 <= b0 && s.len() >= 2 && is_continuation_byte(s[1]) {
                    let b1 = s[1];
                    assert(((((b0 & 0x1f) as u32) << 6u32) | ((b1 & 0x3f) as u32)) < 0x80)
                        by (bit_vector)
                        requires
                            0xc0 <= b0 < 0xc2,
                            0x80 <= b1 <= 0xbf,
                    ;
                }
                assert(!valid_first_scalar(s));
                assert(!is_partial_scalar(s));
            }
            return Utf8Scan::Invalid;
        } else if b0 <= 0xdf {
            // Two-byte character.
            if rem < 2 {
                proof {
                    assert(!valid_first_scalar(s));
                    assert(s.len() == 1);
                }
                return Utf8Scan::Incomplete(i);
            }
            let b1 = all[i + 1];
            proof {
                assert(s[1] == all@[i + 1]);
            }
            if !(0x80 <= b1 && b1 <= 0xbf) {
                proof {
                    assert(!valid_first_scalar(s));
                    assert(!is_partial_scalar(s));
                }
                return Utf8Scan::Invalid;
            }
            let cp: u32 = (((b0 & 0x1f) as u32) << 6u32) | ((b1 & 0x3f) as u32);
            proof {
                assert(cp >= 0x80 && cp <= 0x7ff) by (bit_vector)
                    requires
                        0xc2 <= b0 <= 0xdf,
                        0x80 <= b1 <= 0xbf,
                        cp == (((b0 & 0x1f) as u32) << 6u32) | ((b1 & 0x3f) as u32),
                ;
                assert(valid_first_scalar(s));
                assert(length_of_first_scalar(s) == 2);
                assert(pop_first_scalar(s) =~= all@.skip(i + 2));
            }
            i = i + 2;
        } else if b0 <= 0xef {
            // Three-byte character. The second byte's range depends on
            // the lead: 0xE0 forbids overlong encodings, 0xED the
            // surrogate range.
            let lo: u8 = if b0 == 0xe0 {
                0xa0
            } else {
                0x80
            };
            let hi: u8 = if b0 == 0xed {
                0x9f
            } else {
                0xbf
            };
            if rem < 2 {
                proof {
                    assert(!valid_first_scalar(s));
                    assert(s.len() == 1);
                }
                return Utf8Scan::Incomplete(i);
            }
            let b1 = all[i + 1];
            proof {
                assert(s[1] == all@[i + 1]);
            }
            if !(lo <= b1 && b1 <= hi) {
                proof {
                    if 0x80 <= b1 <= 0xbf && s.len() >= 3 {
                        lemma_width3_second_byte(b0, b1, s[2]);
                    }
                    assert(!valid_first_scalar(s));
                    assert(!is_partial_scalar(s));
                }
                return Utf8Scan::Invalid;
            }
            if rem < 3 {
                proof {
                    assert(!valid_first_scalar(s));
                    assert(s.len() == 2);
                }
                return Utf8Scan::Incomplete(i);
            }
            let b2 = all[i + 2];
            proof {
                assert(s[2] == all@[i + 2]);
            }
            if !(0x80 <= b2 && b2 <= 0xbf) {
                proof {
                    assert(!valid_first_scalar(s));
                    assert(!is_partial_scalar(s));
                }
                return Utf8Scan::Invalid;
            }
            proof {
                lemma_width3_codepoint(b0, b1, b2);
                assert(valid_first_scalar(s));
                assert(length_of_first_scalar(s) == 3);
                assert(pop_first_scalar(s) =~= all@.skip(i + 3));
            }
            i = i + 3;
        } else if b0 <= 0xf4 {
            // Four-byte character. The second byte's range depends on
            // the lead: 0xF0 forbids overlong encodings, 0xF4 values
            // above the last Unicode scalar.
            let lo: u8 = if b0 == 0xf0 {
                0x90
            } else {
                0x80
            };
            let hi: u8 = if b0 == 0xf4 {
                0x8f
            } else {
                0xbf
            };
            if rem < 2 {
                proof {
                    assert(!valid_first_scalar(s));
                    assert(s.len() == 1);
                }
                return Utf8Scan::Incomplete(i);
            }
            let b1 = all[i + 1];
            proof {
                assert(s[1] == all@[i + 1]);
            }
            if !(lo <= b1 && b1 <= hi) {
                proof {
                    if 0x80 <= b1 <= 0xbf && s.len() >= 4 {
                        lemma_width4_second_byte(b0, b1, s[2], s[3]);
                    }
                    assert(!valid_first_scalar(s));
                    assert(!is_partial_scalar(s));
                }
                return Utf8Scan::Invalid;
            }
            if rem < 3 {
                proof {
                    assert(!valid_first_scalar(s));
                    assert(s.len() == 2);
                }
                return Utf8Scan::Incomplete(i);
            }
            let b2 = all[i + 2];
            proof {
                assert(s[2] == all@[i + 2]);
            }
            if !(0x80 <= b2 && b2 <= 0xbf) {
                proof {
                    assert(!valid_first_scalar(s));
                    assert(!is_partial_scalar(s));
                }
                return Utf8Scan::Invalid;
            }
            if rem < 4 {
                proof {
                    assert(!valid_first_scalar(s));
                    assert(s.len() == 3);
                }
                return Utf8Scan::Incomplete(i);
            }
            let b3 = all[i + 3];
            proof {
                assert(s[3] == all@[i + 3]);
            }
            if !(0x80 <= b3 && b3 <= 0xbf) {
                proof {
                    assert(!valid_first_scalar(s));
                    assert(!is_partial_scalar(s));
                }
                return Utf8Scan::Invalid;
            }
            proof {
                lemma_width4_codepoint(b0, b1, b2, b3);
                assert(valid_first_scalar(s));
                assert(length_of_first_scalar(s) == 4);
                assert(pop_first_scalar(s) =~= all@.skip(i + 4));
            }
            i = i + 4;
        } else {
            // Lead bytes 0xF5 and above can only encode values past the
            // last Unicode scalar: invalid whatever follows.
            proof {
                if s.len() >= 4 && is_continuation_byte(s[1]) && is_continuation_byte(s[2])
                    && is_continuation_byte(s[3]) && b0 <= 0xf7 {
                    lemma_width4_codepoint_high(b0, s[1], s[2], s[3]);
                }
                assert(!valid_first_scalar(s));
                assert(!is_partial_scalar(s));
            }
            return Utf8Scan::Invalid;
        }
    }
    proof {
        assert(all@.skip(n as int) =~= Seq::<u8>::empty());
        assert(utf8_ok_upto(all@) == n);
        assert(utf8_tail(all@) =~= Seq::<u8>::empty());
    }
    Utf8Scan::Complete
}

/// A three-byte character's codepoint lies below 0x800 or in the
/// surrogate range exactly when its second byte breaks the range its
/// lead byte demands.
pub proof fn lemma_width3_second_byte(b0: u8, b1: u8, b2: u8)
    by (bit_vector)
    requires
        0xe0 <= b0 <= 0xef,
        0x80 <= b1 <= 0xbf,
    ensures
        b0 == 0xe0 && b1 < 0xa0 ==> ((((b0 & 0x0f) as u32) << 12u32) | (((b1
            & 0x3f) as u32) << 6u32) | ((b2 & 0x3f) as u32)) < 0x800,
        b0 == 0xed && b1 > 0x9f ==> 0xd800 <= ((((b0 & 0x0f) as u32) << 12u32) | (((b1
            & 0x3f) as u32) << 6u32) | ((b2 & 0x3f) as u32)) < 0xe000,
{
}

/// A three-byte character whose second byte meets its lead byte's range
/// has a codepoint at or above 0x800 and outside the surrogate range.
proof fn lemma_width3_codepoint(b0: u8, b1: u8, b2: u8)
    by (bit_vector)
    requires
        0xe0 <= b0 <= 0xef,
        0x80 <= b1 <= 0xbf,
        0x80 <= b2 <= 0xbf,
        b0 == 0xe0 ==> b1 >= 0xa0,
        b0 == 0xed ==> b1 <= 0x9f,
    ensures
        ((((b0 & 0x0f) as u32) << 12u32) | (((b1 & 0x3f) as u32) << 6u32) | ((b2
            & 0x3f) as u32)) >= 0x800,
        !(0xd800 <= ((((b0 & 0x0f) as u32) << 12u32) | (((b1 & 0x3f) as u32) << 6u32) | ((b2
            & 0x3f) as u32)) <= 0xdfff),
{
}

/// A four-byte character's codepoint lies below 0x10000 or above
/// 0x10FFFF exactly when its second byte breaks the range its lead byte
/// demands.
proof fn lemma_width4_second_byte(b0: u8, b1: u8, b2: u8, b3: u8)
    by (bit_vector)
    requires
        0xf0 <= b0 <= 0xf4,
        0x80 <= b1 <= 0xbf,
    ensures
        b0 == 0xf0 && b1 < 0x90 ==> ((((b0 & 0x07) as u32) << 18u32) | (((b1
            & 0x3f) as u32) << 12u32) | (((b2 & 0x3f) as u32) << 6u32) | ((b3
            & 0x3f) as u32)) < 0x10000,
        b0 == 0xf4 && b1 > 0x8f ==> ((((b0 & 0x07) as u32) << 18u32) | (((b1
            & 0x3f) as u32) << 12u32) | (((b2 & 0x3f) as u32) << 6u32) | ((b3
            & 0x3f) as u32)) > 0x10ffff,
{
}

/// A four-byte character whose second byte meets its lead byte's range
/// has a codepoint between 0x10000 and 0x10FFFF.
proof fn lemma_width4_codepoint(b0: u8, b1: u8, b2: u8, b3: u8)
    by (bit_vector)
    requires
        0xf0 <= b0 <= 0xf4,
        0x80 <= b1 <= 0xbf,
        0x80 <= b2 <= 0xbf,
        0x80 <= b3 <= 0xbf,
        b0 == 0xf0 ==> b1 >= 0x90,
        b0 == 0xf4 ==> b1 <= 0x8f,
    ensures
        0x10000 <= ((((b0 & 0x07) as u32) << 18u32) | (((b1 & 0x3f) as u32) << 12u32) | (((b2
            & 0x3f) as u32) << 6u32) | ((b3 & 0x3f) as u32)) <= 0x10ffff,
{
}

/// Lead bytes 0xF5 through 0xF7 always encode a codepoint past 0x10FFFF.
proof fn lemma_width4_codepoint_high(b0: u8, b1: u8, b2: u8, b3: u8)
    by (bit_vector)
    requires
        0xf5 <= b0 <= 0xf7,
    ensures
        ((((b0 & 0x07) as u32) << 18u32) | (((b1 & 0x3f) as u32) << 12u32) | (((b2
            & 0x3f) as u32) << 6u32) | ((b3 & 0x3f) as u32)) > 0x10ffff,
{
}

/// Incremental UTF-8 validator for fragmented messages. Up to three
/// bytes of one character cut short at a fragment boundary are carried
/// to the next call.
#[derive(Debug, Clone)]
pub struct Utf8Validator {
    incomplete: Vec<u8>,
}

impl Utf8Validator {
    /// The bytes buffered from the previous fragment.
    pub closed spec fn buffered(&self) -> Seq<u8> {
        self.incomplete@
    }

    /// Create a new validator with nothing buffered.
    pub fn new() -> (r: Self)
        ensures
            r.buffered() == Seq::<u8>::empty(),
    {
        Utf8Validator { incomplete: Vec::new() }
    }

    /// Validate one fragment.
    ///
    /// The buffered bytes and the fragment are judged together. The
    /// call accepts exactly when they are whole valid characters,
    /// possibly followed — on a non-final fragment only — by the strict
    /// prefix of one more; that prefix is buffered for the next call.
    /// Anything else is [`Error::InvalidUtf8`]. On a final fragment,
    /// acceptance is exactly `valid_utf8` of the joined bytes. The
    /// buffer is consumed either way: after an error it is empty.
    pub fn validate(&mut self, data: &[u8], is_final: bool) -> (r: Result<(), Error>)
        ensures
            ({
                let all = old(self).buffered() + data@;
                let tail = utf8_tail(all);
                &&& (r is Ok <==> tail.len() == 0 || (!is_final && is_partial_scalar(tail)))
                &&& (r is Ok ==> final(self).buffered() == tail)
                &&& (r is Err ==> r->Err_0 == Error::InvalidUtf8 && final(self).buffered()
                    == Seq::<u8>::empty())
                &&& (is_final ==> (r is Ok <==> valid_utf8(all)))
            }),
    {
        let ghost all_spec = old(self).buffered() + data@;
        let mut all: Vec<u8> = Vec::new();
        all.append(&mut self.incomplete);
        all.extend_from_slice(data);
        proof {
            assert(all@ == all_spec);
            lemma_ok_upto_bounds(all@);
            lemma_valid_utf8_iff_no_tail(all@);
        }
        match scan_utf8(all.as_slice()) {
            Utf8Scan::Complete => Ok(()),
            Utf8Scan::Incomplete(k) => {
                if is_final {
                    Err(Error::InvalidUtf8)
                } else {
                    let tail = vstd::slice::slice_to_vec(
                        vstd::slice::slice_subrange(all.as_slice(), k, all.len()),
                    );
                    proof {
                        assert(tail@ =~= utf8_tail(all@));
                    }
                    self.incomplete = tail;
                    Ok(())
                }
            },
            Utf8Scan::Invalid => Err(Error::InvalidUtf8),
        }
    }

    /// Discard any buffered bytes.
    pub fn reset(&mut self)
        ensures
            final(self).buffered() == Seq::<u8>::empty(),
    {
        self.incomplete.clear();
    }

    /// Whether bytes of a character cut short are currently buffered.
    pub fn has_incomplete(&self) -> (r: bool)
        ensures
            r == (self.buffered().len() > 0),
    {
        self.incomplete.len() > 0
    }
}

impl Default for Utf8Validator {
    /// Same as [`Utf8Validator::new`].
    fn default() -> (r: Self)
        ensures
            r.buffered() == Seq::<u8>::empty(),
    {
        Utf8Validator::new()
    }
}

/// Everything before the tail is valid UTF-8: the whole-character
/// prefix deserves its name.
pub proof fn lemma_ok_upto_prefix_valid(b: Seq<u8>)
    ensures
        valid_utf8(b.take(utf8_ok_upto(b))),
    decreases b.len(),
{
    lemma_ok_upto_bounds(b);
    if b.len() == 0 || !valid_first_scalar(b) {
        assert(b.take(0) =~= Seq::<u8>::empty());
    } else {
        let w = length_of_first_scalar(b);
        assert(1 <= w <= b.len());
        let p = pop_first_scalar(b);
        lemma_ok_upto_bounds(p);
        lemma_ok_upto_prefix_valid(p);
        let t = b.take(utf8_ok_upto(b));
        assert(t.len() == w + utf8_ok_upto(p));
        assert forall|j: int| 0 <= j < t.len() implies t[j] == b[j] by {}
        assert(valid_first_scalar(t));
        assert(length_of_first_scalar(t) == w);
        assert(pop_first_scalar(t) =~= p.take(utf8_ok_upto(p)));
    }
}

/// Whole valid characters in front do not change what the tail of a
/// byte sequence is: the whole-character prefix of `p + q` is `p` plus
/// the whole-character prefix of `q`, whenever `p` is valid UTF-8.
pub proof fn lemma_ok_upto_concat_valid(p: Seq<u8>, q: Seq<u8>)
    requires
        valid_utf8(p),
    ensures
        utf8_ok_upto(p + q) == p.len() + utf8_ok_upto(q),
        utf8_tail(p + q) == utf8_tail(q),
    decreases p.len(),
{
    lemma_ok_upto_bounds(q);
    if p.len() == 0 {
        assert(p + q =~= q);
        assert(utf8_tail(p + q) =~= utf8_tail(q));
    } else {
        let w = length_of_first_scalar(p);
        assert(valid_first_scalar(p));
        assert(1 <= w <= p.len());
        assert forall|j: int| 0 <= j < p.len() implies (p + q)[j] == p[j] by {}
        assert(valid_first_scalar(p + q));
        assert(length_of_first_scalar(p + q) == w);
        assert(pop_first_scalar(p + q) =~= pop_first_scalar(p) + q);
        lemma_ok_upto_concat_valid(pop_first_scalar(p), q);
        lemma_ok_upto_bounds(pop_first_scalar(p) + q);
        assert(utf8_ok_upto(p + q) == w + utf8_ok_upto(pop_first_scalar(p) + q));
        assert(utf8_tail(p + q) =~= utf8_tail(q));
    }
}

/// Relies on the standard library's `String::from_utf8`: it accepts
/// exactly the byte vectors that are valid UTF-8 and returns the string
/// whose UTF-8 bytes they are.
#[verifier::external_body]
pub fn utf8_to_string(v: Vec<u8>) -> (r: Result<String, Error>)
    ensures
        r is Ok <==> valid_utf8(v@),
        r is Ok ==> r->Ok_0@ == vstd::utf8::decode_utf8(v@),
        r is Err ==> r->Err_0 == Error::InvalidUtf8,
{
    match String::from_utf8(v) {
        Ok(s) => Ok(s),
        Err(_) => Err(Error::InvalidUtf8),
    }
}

/// Validate a complete byte slice: accepts exactly the valid UTF-8
/// sequences.
pub fn validate_utf8(data: &[u8]) -> (r: Result<(), Error>)
    ensures
        r is Ok <==> valid_utf8(data@),
        r is Err ==> r->Err_0 == Error::InvalidUtf8,
{
    proof {
        lemma_ok_upto_bounds(data@);
        lemma_valid_utf8_iff_no_tail(data@);
    }
    match scan_utf8(data) {
        Utf8Scan::Complete => Ok(()),
        _ => Err(Error::InvalidUtf8),
    }
}

/// A two-byte lead below 0xC2 encodes a value under 0x80 whatever its
/// continuation byte: always an overlong encoding.
proof fn lemma_width2_overlong(b0: u8, b1: u8)
    by (bit_vector)
    requires
        0xc0 <= b0 <= 0xc1,
    ensures
        ((((b0 & 0x1f) as u32) << 6u32) | ((b1 & 0x3f) as u32)) < 0x80,
{
}

/// Any cut inside one character's encoding leaves a strict prefix of a
/// valid character.
proof fn lemma_scalar_prefix_partial(w: Seq<u8>, i: int)
    requires
        valid_first_scalar(w),
        0 < i < length_of_first_scalar(w),
    ensures
        is_partial_scalar(w.take(i)),
{
    let k = length_of_first_scalar(w);
    let x = w.take(i);
    let b0 = w[0];
    assert(x[0] == b0);
    if k == 2 {
        assert(i == 1);
        assert(is_continuation_byte(w[1]));
        if b0 <= 0xc1 {
            lemma_width2_overlong(b0, w[1]);
            assert(false);
        }
    } else if k == 3 {
        assert(0xe0 <= b0 <= 0xef);
        if b0 == 0xe0 && w[1] < 0xa0 {
            lemma_width3_second_byte(b0, w[1], w[2]);
            assert(false);
        }
        if b0 == 0xed && w[1] > 0x9f {
            lemma_width3_second_byte(b0, w[1], w[2]);
            assert(false);
        }
        if i == 2 {
            assert(x[1] == w[1]);
        }
    } else {
        assert(k == 4);
        assert(0xf0 <= b0 <= 0xf7);
        if b0 >= 0xf5 {
            lemma_width4_codepoint_high(b0, w[1], w[2], w[3]);
            assert(false);
        }
        if b0 == 0xf0 && w[1] < 0x90 {
            lemma_width4_second_byte(b0, w[1], w[2], w[3]);
            assert(false);
        }
        if b0 == 0xf4 && w[1] > 0x8f {
            lemma_width4_second_byte(b0, w[1], w[2], w[3]);
            assert(false);
        }
        if i >= 2 {
            assert(x[1] == w[1]);
        }
        if i == 3 {
            assert(x[2] == w[2]);
        }
    }
}

/// Any prefix of a valid UTF-8 sequence is whole characters followed by
/// at most the strict prefix of one more: exactly what the incremental
/// validator accepts on a non-final fragment.
pub proof fn lemma_prefix_tail_partial(w: Seq<u8>, i: int)
    requires
        valid_utf8(w),
        0 <= i <= w.len(),
    ensures
        utf8_tail(w.take(i)).len() == 0 || is_partial_scalar(utf8_tail(w.take(i))),
    decreases w.len(),
{
    let x = w.take(i);
    lemma_ok_upto_bounds(x);
    if i == 0 {
        assert(x =~= Seq::<u8>::empty());
        assert(utf8_tail(x) =~= Seq::<u8>::empty());
    } else {
        assert(w.len() > 0);
        assert(valid_first_scalar(w));
        let k = length_of_first_scalar(w);
        assert(1 <= k <= w.len());
        if i >= k {
            assert forall|j: int| 0 <= j < i implies x[j] == w[j] by {}
            assert(valid_first_scalar(x));
            assert(length_of_first_scalar(x) == k);
            assert(pop_first_scalar(x) =~= pop_first_scalar(w).take(i - k));
            lemma_prefix_tail_partial(pop_first_scalar(w), i - k);
            lemma_ok_upto_bounds(pop_first_scalar(x));
            assert(utf8_ok_upto(x) == k + utf8_ok_upto(pop_first_scalar(x)));
            assert(utf8_tail(x) =~= utf8_tail(pop_first_scalar(w).take(i - k)));
        } else {
            // The cut lands inside the first character.
            assert(0 < i < k);
            assert(!valid_first_scalar(x)) by {
                assert(x.len() == i < k);
            }
            assert(utf8_ok_upto(x) == 0);
            assert(utf8_tail(x) =~= x);
            lemma_scalar_prefix_partial(w, i);
        }
    }
}

/// The bytes of a sequence of fragments, joined in order.
pub open spec fn concat_parts(parts: Seq<Seq<u8>>) -> Seq<u8>
    decreases parts.len(),
{
    if parts.len() == 0 {
        Seq::empty()
    } else {
        parts[0] + concat_parts(parts.skip(1))
    }
}

/// Whether feeding the fragments one by one — with the final flag on
/// the last — succeeds, starting from the given buffered bytes. This
/// mirrors [`Utf8Validator::validate`]'s acceptance and buffer-update
/// contract, fragment by fragment.
pub open spec fn feed_from(buffered: Seq<u8>, parts: Seq<Seq<u8>>) -> bool
    decreases parts.len(),
{
    if parts.len() == 0 {
        true
    } else {
        let all = buffered + parts[0];
        let fin = parts.len() == 1;
        &&& (utf8_tail(all).len() == 0 || (!fin && is_partial_scalar(utf8_tail(all))))
        &&& (parts.len() > 1 ==> feed_from(utf8_tail(all), parts.skip(1)))
    }
}

/// Feeding any partition of a valid UTF-8 text to the incremental
/// validator succeeds: each fragment is accepted with the final flag on
/// the last, however the text was cut. The fragments' acceptance and
/// carried bytes are exactly [`Utf8Validator::validate`]'s contract.
pub proof fn lemma_any_partition_of_valid_text_accepted(parts: Seq<Seq<u8>>)
    requires
        valid_utf8(concat_parts(parts)),
    ensures
        feed_from(Seq::empty(), parts),
{
    assert(Seq::<u8>::empty() + Seq::<u8>::empty() =~= Seq::<u8>::empty());
    assert(utf8_tail(Seq::<u8>::empty()) =~= Seq::<u8>::empty());
    assert(Seq::<u8>::empty() + Seq::<u8>::empty() + concat_parts(parts) =~= concat_parts(
        parts,
    ));
    lemma_feed_from_go(Seq::empty(), Seq::empty(), parts);
}

/// The partition law's induction: with a valid whole-character prefix
/// behind it and the carried tail in hand, every remaining fragment is
/// accepted.
proof fn lemma_feed_from_go(p: Seq<u8>, buffered: Seq<u8>, parts: Seq<Seq<u8>>)
    requires
        valid_utf8(p),
        buffered == utf8_tail(p + buffered),
        valid_utf8(p + buffered + concat_parts(parts)),
    ensures
        feed_from(buffered, parts),
    decreases parts.len(),
{
    if parts.len() > 0 {
        let all = buffered + parts[0];
        let w = p + buffered + concat_parts(parts);
        let c = p.len() + all.len();
        lemma_ok_upto_concat_valid(p, all);
        assert(p + all =~= w.take(c as int)) by {
            assert(concat_parts(parts) == parts[0] + concat_parts(parts.skip(1)));
        }
        lemma_prefix_tail_partial(w, c as int);
        assert(utf8_tail(all) == utf8_tail(w.take(c as int)));
        if parts.len() == 1 {
            assert(parts.skip(1) =~= Seq::<Seq<u8>>::empty());
            assert(w.take(c as int) =~= w);
            lemma_valid_utf8_iff_no_tail(w);
            lemma_ok_upto_bounds(w);
            assert(utf8_tail(w) =~= Seq::<u8>::empty());
        } else {
            // Step to the next fragment: the new valid prefix is
            // everything before the carried tail.
            let pa = p + all;
            lemma_ok_upto_bounds(pa);
            let p2 = pa.take(utf8_ok_upto(pa));
            let buffered2 = utf8_tail(pa);
            lemma_ok_upto_prefix_valid(pa);
            assert(p2 + buffered2 =~= pa);
            assert(buffered2 == utf8_tail(p2 + buffered2));
            assert(p2 + buffered2 + concat_parts(parts.skip(1)) =~= w) by {
                assert(concat_parts(parts) == parts[0] + concat_parts(parts.skip(1)));
            }
            lemma_feed_from_go(p2, buffered2, parts.skip(1));
        }
    }
}

} // verus!
