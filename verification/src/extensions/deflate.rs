//! The permessage-deflate extension (RFC 7692).
//!
//! Data frames are compressed with raw DEFLATE (no zlib header) and the
//! trailing `00 00 FF FF` marker of a Sync flush is stripped; decoding
//! appends it back before inflating. Two decompression-bomb guards are
//! proved: the inflated size never passes the configured absolute cap,
//! nor one hundred times the compressed input. Under
//! no-context-takeover the affected stream is dropped after each
//! message.

use vstd::prelude::*;
use vstd::string::{StringExecFns, StringSliceAdditionalSpecFns};

use crate::error::Error;
use crate::extensions::{Extension, ExtensionParam, RsvBits};
use crate::protocol::frame::{Frame, FrameSpec};
use crate::protocol::textparse::{bytes_eq, dec_u8_of, parse_dec_u8};

verus! {

/// The relative decompression cap: output at most this many times the
/// compressed input.
pub const MAX_DECOMPRESSION_RATIO: usize = 100;

/// The iteration bound of the inflate and deflate loops.
const MAX_CODEC_ITERATIONS: usize = 100000;

/// The scratch buffer size per codec step.
const CODEC_CHUNK: usize = 4096;

/// Configuration for permessage-deflate.
#[derive(Debug, Clone)]
pub struct DeflateConfig {
    /// If true, the server discards compression context after each message.
    pub server_no_context_takeover: bool,
    /// If true, the client discards compression context after each message.
    pub client_no_context_takeover: bool,
    /// The server's LZ77 window size exponent (8-15).
    pub server_max_window_bits: u8,
    /// The client's LZ77 window size exponent (8-15).
    pub client_max_window_bits: u8,
    /// Compression level, 0-9.
    pub compression_level: u32,
    /// Absolute cap on decompressed bytes per message.
    pub max_decompressed_size: usize,
}

impl Default for DeflateConfig {
    /// Context takeover on in both directions, 15-bit windows, level 6,
    /// 64 MiB decompression cap.
    fn default() -> (r: Self)
        ensures
            !r.server_no_context_takeover,
            !r.client_no_context_takeover,
            r.server_max_window_bits == 15,
            r.client_max_window_bits == 15,
            r.compression_level == 6,
            r.max_decompressed_size == 0x4000000,
    {
        DeflateConfig {
            server_no_context_takeover: false,
            client_no_context_takeover: false,
            server_max_window_bits: 15,
            client_max_window_bits: 15,
            compression_level: 6,
            max_decompressed_size: 64 * 1024 * 1024,
        }
    }
}

impl DeflateConfig {
    /// Same as the default configuration.
    pub fn new() -> (r: Self)
        ensures
            !r.server_no_context_takeover,
            !r.client_no_context_takeover,
            r.server_max_window_bits == 15,
            r.client_max_window_bits == 15,
            r.compression_level == 6,
            r.max_decompressed_size == 0x4000000,
    {
        DeflateConfig::default()
    }

    /// Set server_no_context_takeover.
    pub fn server_no_context_takeover(self, value: bool) -> (r: Self)
        ensures
            r == (DeflateConfig { server_no_context_takeover: value, ..self }),
    {
        DeflateConfig { server_no_context_takeover: value, ..self }
    }

    /// Set client_no_context_takeover.
    pub fn client_no_context_takeover(self, value: bool) -> (r: Self)
        ensures
            r == (DeflateConfig { client_no_context_takeover: value, ..self }),
    {
        DeflateConfig { client_no_context_takeover: value, ..self }
    }

    /// Set the server window bits; accepted exactly for 8 through 15.
    pub fn server_max_window_bits(self, bits: u8) -> (r: Result<Self, Error>)
        ensures
            r is Ok <==> 8 <= bits <= 15,
            r matches Ok(c) ==> c == (DeflateConfig { server_max_window_bits: bits, ..self }),
            r is Err ==> r->Err_0 matches Error::InvalidExtension(_),
    {
        if !(8 <= bits && bits <= 15) {
            return Err(
                Error::InvalidExtension(String::from_str("server_max_window_bits must be 8-15")),
            );
        }
        Ok(DeflateConfig { server_max_window_bits: bits, ..self })
    }

    /// Set the client window bits; accepted exactly for 8 through 15.
    pub fn client_max_window_bits(self, bits: u8) -> (r: Result<Self, Error>)
        ensures
            r is Ok <==> 8 <= bits <= 15,
            r matches Ok(c) ==> c == (DeflateConfig { client_max_window_bits: bits, ..self }),
            r is Err ==> r->Err_0 matches Error::InvalidExtension(_),
    {
        if !(8 <= bits && bits <= 15) {
            return Err(
                Error::InvalidExtension(String::from_str("client_max_window_bits must be 8-15")),
            );
        }
        Ok(DeflateConfig { client_max_window_bits: bits, ..self })
    }

    /// Set the compression level; accepted exactly for 0 through 9.
    pub fn compression_level(self, level: u32) -> (r: Result<Self, Error>)
        ensures
            r is Ok <==> level <= 9,
            r matches Ok(c) ==> c == (DeflateConfig { compression_level: level, ..self }),
            r is Err ==> r->Err_0 matches Error::InvalidExtension(_),
    {
        if level > 9 {
            return Err(Error::InvalidExtension(String::from_str("compression_level must be 0-9")));
        }
        Ok(DeflateConfig { compression_level: level, ..self })
    }
}

#[verifier::external_type_specification]
#[verifier::external_body]
pub struct ExCompress(flate2::Compress);

#[verifier::external_type_specification]
#[verifier::external_body]
pub struct ExDecompress(flate2::Decompress);

/// Relies on `flate2::Compress::new_with_window_bits`: a raw-DEFLATE
/// compressor (no zlib header) at the given level, with the given LZ77
/// window size exponent. The backing zlib accepts levels 0 through 9
/// and window exponents 9 through 15 and panics outside them, so those
/// are required here.
#[verifier::external_body]
fn compress_new(level: u32, window_bits: u8) -> flate2::Compress
    requires
        level <= 9,
        9 <= window_bits <= 15,
{
    flate2::Compress::new_with_window_bits(flate2::Compression::new(level), false, window_bits)
}

/// Relies on `flate2::Decompress::new_with_window_bits`: a raw-DEFLATE
/// decompressor (no zlib header) with the given LZ77 window size
/// exponent. The backing zlib accepts exponents 9 through 15 and panics
/// outside them, so those are required here.
#[verifier::external_body]
fn decompress_new(window_bits: u8) -> flate2::Decompress
    requires
        9 <= window_bits <= 15,
{
    flate2::Decompress::new_with_window_bits(false, window_bits)
}

/// Relies on `flate2::Compress::total_in`: the total bytes consumed so
/// far by this compressor.
#[verifier::external_body]
fn enc_total_in(c: &flate2::Compress) -> u64 {
    c.total_in()
}

/// Relies on `flate2::Compress::total_out`: the total bytes produced so
/// far by this compressor.
#[verifier::external_body]
fn enc_total_out(c: &flate2::Compress) -> u64 {
    c.total_out()
}

/// Relies on `flate2::Decompress::total_in`: the total bytes consumed
/// so far by this decompressor.
#[verifier::external_body]
fn dec_total_in(d: &flate2::Decompress) -> u64 {
    d.total_in()
}

/// Relies on `flate2::Decompress::total_out`: the total bytes produced
/// so far by this decompressor.
#[verifier::external_body]
fn dec_total_out(d: &flate2::Decompress) -> u64 {
    d.total_out()
}

/// Relies on `flate2::Compress::compress`: one compression step writing
/// only into the scratch buffer, whose length does not change.
#[verifier::external_body]
fn deflate_step(
    enc: &mut flate2::Compress,
    input: &[u8],
    scratch: &mut Vec<u8>,
    sync: bool,
) -> (r: Result<(), Error>)
    ensures
        final(scratch)@.len() == old(scratch)@.len(),
        r is Err ==> r->Err_0 matches Error::Extension(_),
{
    let flush = if sync {
        flate2::FlushCompress::Sync
    } else {
        flate2::FlushCompress::None
    };
    match enc.compress(input, scratch.as_mut_slice(), flush) {
        Ok(_) => Ok(()),
        Err(_) => Err(Error::Extension(String::from_str("compression failed"))),
    }
}

/// Relies on `flate2::Decompress::decompress`: one decompression step
/// writing only into the scratch buffer, whose length does not change;
/// the flag reports whether the stream ended.
#[verifier::external_body]
fn inflate_step(
    dec: &mut flate2::Decompress,
    input: &[u8],
    scratch: &mut Vec<u8>,
) -> (r: Result<bool, Error>)
    ensures
        final(scratch)@.len() == old(scratch)@.len(),
        r is Err ==> r->Err_0 matches Error::Extension(_),
{
    match dec.decompress(input, scratch.as_mut_slice(), flate2::FlushDecompress::Sync) {
        Ok(status) => Ok(status == flate2::Status::StreamEnd),
        Err(_) => Err(Error::Extension(String::from_str("decompression failed"))),
    }
}

/// Permessage-deflate (RFC 7692): claims RSV1, compresses final
/// non-empty data frames, and keeps per-direction stream state for
/// context takeover.
pub struct DeflateExtension {
    /// The negotiated configuration.
    pub config: DeflateConfig,
    /// Whether negotiation has happened.
    pub negotiated: bool,
    /// Whether this side is the server.
    pub is_server: bool,
    /// The compression stream, kept across messages under context
    /// takeover.
    pub encoder: Option<flate2::Compress>,
    /// The decompression stream, kept across messages under context
    /// takeover.
    pub decoder: Option<flate2::Decompress>,
}

impl DeflateExtension {
    /// Create an extension for the given side.
    pub fn new(config: DeflateConfig, is_server: bool) -> (r: Self)
        ensures
            r.config == config,
            !r.negotiated,
            r.is_server == is_server,
            r.encoder is None,
            r.decoder is None,
    {
        DeflateExtension { config, negotiated: false, is_server, encoder: None, decoder: None }
    }

    /// Create a client-side extension.
    pub fn client(config: DeflateConfig) -> (r: Self)
        ensures
            r.config == config,
            !r.negotiated,
            !r.is_server,
            r.encoder is None,
            r.decoder is None,
    {
        DeflateExtension::new(config, false)
    }

    /// Create a server-side extension.
    pub fn server(config: DeflateConfig) -> (r: Self)
        ensures
            r.config == config,
            !r.negotiated,
            r.is_server,
            r.encoder is None,
            r.decoder is None,
    {
        DeflateExtension::new(config, true)
    }

    /// Make sure the encoder stream exists, created with this side's
    /// negotiated window bits: the server compresses within
    /// `server_max_window_bits`, the client within
    /// `client_max_window_bits`. A negotiated window of 8 is promoted
    /// to 9, zlib's smallest window — the usual reading of RFC 7692's
    /// 8-bit window over zlib — which stays within what the peer
    /// advertised it can decode.
    pub fn ensure_encoder(&mut self)
        ensures
            final(self).encoder is Some,
            final(self).config == old(self).config,
            final(self).negotiated == old(self).negotiated,
            final(self).is_server == old(self).is_server,
            final(self).decoder == old(self).decoder,
    {
        if self.encoder.is_none() {
            let bits = if self.is_server {
                self.config.server_max_window_bits
            } else {
                self.config.client_max_window_bits
            };
            self.encoder = Some(
                compress_new(clamp_level(self.config.compression_level), clamp_bits(bits)),
            );
        }
    }

    /// Make sure the decoder stream exists, created with the peer
    /// direction's negotiated window bits; a window of 8 is promoted to
    /// 9 as for the encoder (a larger decode window accepts every
    /// stream a smaller one does).
    pub fn ensure_decoder(&mut self)
        ensures
            final(self).decoder is Some,
            final(self).config == old(self).config,
            final(self).negotiated == old(self).negotiated,
            final(self).is_server == old(self).is_server,
            final(self).encoder == old(self).encoder,
    {
        if self.decoder.is_none() {
            let bits = if self.is_server {
                self.config.client_max_window_bits
            } else {
                self.config.server_max_window_bits
            };
            self.decoder = Some(decompress_new(clamp_bits(bits)));
        }
    }

    /// Parse a window-bits parameter value: a decimal number from 8
    /// through 15; a missing value means the default of 15.
    pub fn parse_window_bits(value: Option<&str>) -> (r: Result<u8, Error>)
        ensures
            ({
                match value {
                    None => r == Ok::<u8, Error>(15u8),
                    Some(s) => {
                        &&& (r is Ok <==> (dec_u8_of(s.spec_bytes()) matches Some(b) && 8 <= b
                            <= 15))
                        &&& (r matches Ok(b) ==> Some(b) == dec_u8_of(s.spec_bytes()))
                        &&& (r is Err ==> r->Err_0 matches Error::InvalidExtension(_))
                    },
                }
            }),
    {
        match value {
            Some(s) => {
                let bits = match parse_dec_u8(s.as_bytes()) {
                    Some(b) => b,
                    None => {
                        return Err(
                            Error::InvalidExtension(
                                String::from_str("invalid window bits value"),
                            ),
                        );
                    },
                };
                if !(8 <= bits && bits <= 15) {
                    return Err(
                        Error::InvalidExtension(String::from_str("window bits must be 8-15")),
                    );
                }
                Ok(bits)
            },
            None => Ok(15),
        }
    }

    /// Whether a frame is compressed on encode: only a final, non-empty
    /// data frame.
    pub open spec fn spec_should_compress(f: FrameSpec) -> bool {
        !f.opcode.spec_is_control() && f.fin && f.payload.len() > 0
    }

    /// Whether the sending direction negotiated no-context-takeover:
    /// the stream is then dropped after each compressed message.
    pub open spec fn spec_encode_no_takeover(&self) -> bool {
        (self.is_server && self.config.server_no_context_takeover) || (!self.is_server
            && self.config.client_no_context_takeover)
    }

    /// Whether the receiving direction negotiated no-context-takeover:
    /// the stream is then dropped after each decompressed message.
    pub open spec fn spec_decode_no_takeover(&self) -> bool {
        (self.is_server && self.config.client_no_context_takeover) || (!self.is_server
            && self.config.server_no_context_takeover)
    }

    /// Compress a payload with Sync flush and strip the trailing
    /// `00 00 FF FF` marker; drops the encoder afterwards when this
    /// direction has no-context-takeover.
    fn compress(&mut self, data: &[u8]) -> (r: Result<Vec<u8>, Error>)
        ensures
            final(self).config == old(self).config,
            final(self).negotiated == old(self).negotiated,
            final(self).is_server == old(self).is_server,
            final(self).decoder == old(self).decoder,
            data@.len() == 0 ==> (r matches Ok(v) && v@ == Seq::<u8>::empty()) && *final(self)
                == *old(self),
            data@.len() > 0 && r is Ok ==> (if old(self).spec_encode_no_takeover() {
                final(self).encoder is None
            } else {
                final(self).encoder is Some
            }),
            r is Err ==> r->Err_0 matches Error::Extension(_),
    {
        if data.len() == 0 {
            return Ok(Vec::new());
        }
        self.ensure_encoder();
        let result = match &mut self.encoder {
            Some(e) => deflate_all(e, data),
            None => Err(Error::Extension(String::from_str("encoder unavailable"))),
        };
        let collected = match result {
            Ok(c) => c,
            Err(e) => {
                return Err(e);
            },
        };
        let compressed = strip_sync_trailer(collected);
        if (self.is_server && self.config.server_no_context_takeover) || (!self.is_server
            && self.config.client_no_context_takeover) {
            self.encoder = None;
        }
        Ok(compressed)
    }

    /// Inflate a payload after appending the `00 00 FF FF` marker,
    /// bounded by the absolute cap and by one hundred times the input
    /// size; drops the decoder afterwards when this direction has
    /// no-context-takeover.
    fn decompress(&mut self, data: &[u8]) -> (r: Result<Vec<u8>, Error>)
        ensures
            final(self).config == old(self).config,
            final(self).negotiated == old(self).negotiated,
            final(self).is_server == old(self).is_server,
            final(self).encoder == old(self).encoder,
            data@.len() == 0 ==> (r matches Ok(v) && v@ == Seq::<u8>::empty()) && *final(self)
                == *old(self),
            data@.len() > 0 && r is Ok ==> (if old(self).spec_decode_no_takeover() {
                final(self).decoder is None
            } else {
                final(self).decoder is Some
            }),
            r matches Ok(v) ==> v@.len() <= old(self).config.max_decompressed_size && v@.len()
                <= 100 * data@.len(),
            r is Err ==> r->Err_0 matches Error::Extension(_),
    {
        if data.len() == 0 {
            return Ok(Vec::new());
        }
        let max_size = self.config.max_decompressed_size;
        let max_ratio_size: usize = if data.len() <= usize::MAX / MAX_DECOMPRESSION_RATIO {
            data.len() * MAX_DECOMPRESSION_RATIO
        } else {
            usize::MAX
        };
        proof {
            assert(max_ratio_size <= 100 * data@.len());
        }
        self.ensure_decoder();
        let result = match &mut self.decoder {
            Some(d) => inflate_all(d, data, max_size, max_ratio_size),
            None => Err(Error::Extension(String::from_str("decoder unavailable"))),
        };
        let out = match result {
            Ok(v) => v,
            Err(e) => {
                return Err(e);
            },
        };
        if (self.is_server && self.config.client_no_context_takeover) || (!self.is_server
            && self.config.server_no_context_takeover) {
            self.decoder = None;
        }
        Ok(out)
    }

    /// Transform one outgoing frame, exactly as RFC 7692 asks: only a
    /// final, non-empty data frame is compressed and given RSV1; a
    /// control, non-final or empty frame passes through untouched. The
    /// final flag, opcode, and the other reserved bits are kept.
    pub fn encode_frame(&mut self, frame: &mut Frame) -> (r: Result<(), Error>)
        ensures
            final(self).config == old(self).config,
            final(self).negotiated == old(self).negotiated,
            final(self).is_server == old(self).is_server,
            !DeflateExtension::spec_should_compress(old(frame)@) ==> r is Ok && *final(frame)
                == *old(frame) && *final(self) == *old(self),
            r is Ok ==> final(frame)@.fin == old(frame)@.fin
                && final(frame)@.opcode == old(frame)@.opcode
                && final(frame)@.rsv2 == old(frame)@.rsv2
                && final(frame)@.rsv3 == old(frame)@.rsv3,
            DeflateExtension::spec_should_compress(old(frame)@) && r is Ok
                ==> final(frame)@.rsv1,
            r is Err ==> (r->Err_0 matches Error::Extension(_)) && *final(frame) == *old(frame),
    {
        let is_control = frame.opcode.is_control();
        if is_control || !frame.fin || frame.payload.len() == 0 {
            return Ok(());
        }
        let data = vstd::slice::slice_to_vec(frame.payload.as_slice());
        let compressed = match self.compress(data.as_slice()) {
            Ok(c) => c,
            Err(e) => {
                return Err(e);
            },
        };
        frame.set_payload(compressed);
        frame.rsv1 = true;
        Ok(())
    }

    /// Transform one incoming frame: a frame without RSV1 passes
    /// through untouched; RSV1 on a control frame is an error that
    /// leaves the frame alone; otherwise the payload is inflated — the
    /// Sync-flush marker re-appended first — RSV1 is cleared, and the
    /// result respects both decompression-bomb caps: at most
    /// `max_decompressed_size` bytes and at most one hundred times the
    /// compressed payload. The final flag, opcode and the other
    /// reserved bits are kept.
    pub fn decode_frame(&mut self, frame: &mut Frame) -> (r: Result<(), Error>)
        ensures
            final(self).config == old(self).config,
            final(self).negotiated == old(self).negotiated,
            final(self).is_server == old(self).is_server,
            !old(frame)@.rsv1 ==> r is Ok && *final(frame) == *old(frame) && *final(self)
                == *old(self),
            old(frame)@.rsv1 && old(frame)@.opcode.spec_is_control() ==> (r matches Err(e)
                && e matches Error::Extension(_)) && *final(frame) == *old(frame) && *final(self)
                == *old(self),
            r is Ok ==> final(frame)@.fin == old(frame)@.fin
                && final(frame)@.opcode == old(frame)@.opcode
                && final(frame)@.rsv2 == old(frame)@.rsv2
                && final(frame)@.rsv3 == old(frame)@.rsv3,
            old(frame)@.rsv1 && r is Ok ==> !final(frame)@.rsv1 && final(frame)@.payload.len()
                <= old(self).config.max_decompressed_size && final(frame)@.payload.len() <= 100
                * old(frame)@.payload.len(),
            r is Err ==> (r->Err_0 matches Error::Extension(_)) && *final(frame) == *old(frame),
    {
        if !frame.rsv1 {
            return Ok(());
        }
        if frame.opcode.is_control() {
            return Err(Error::Extension(String::from_str("RSV1 set on control frame")));
        }
        let data = vstd::slice::slice_to_vec(frame.payload.as_slice());
        let decompressed = match self.decompress(data.as_slice()) {
            Ok(d) => d,
            Err(e) => {
                return Err(e);
            },
        };
        frame.set_payload(decompressed);
        frame.rsv1 = false;
        Ok(())
    }

    /// Handle one negotiation or configuration parameter, updating the
    /// configuration exactly as [`spec_param_applied`] reads it and
    /// optionally collecting the response parameter.
    fn apply_param(
        &mut self,
        param: &ExtensionParam,
        response: Option<&mut Vec<ExtensionParam>>,
    ) -> (r: Result<(), Error>)
        ensures
            final(self).is_server == old(self).is_server,
            final(self).negotiated == old(self).negotiated,
            final(self).encoder == old(self).encoder,
            final(self).decoder == old(self).decoder,
            r is Ok <==> spec_param_applied(old(self).config, param.name@, param.spec_value())
                is Some,
            r is Ok ==> Some(final(self).config) == spec_param_applied(
                old(self).config,
                param.name@,
                param.spec_value(),
            ),
            r is Err ==> final(self).config == old(self).config && (
            r->Err_0 matches Error::InvalidExtension(_)),
    {
        proof {
            vstd::utf8::encode_utf8_decode_utf8(param.name@);
            vstd::utf8::encode_utf8_decode_utf8("server_no_context_takeover"@);
            vstd::utf8::encode_utf8_decode_utf8("client_no_context_takeover"@);
            vstd::utf8::encode_utf8_decode_utf8("server_max_window_bits"@);
            vstd::utf8::encode_utf8_decode_utf8("client_max_window_bits"@);
        }
        let name = param.name.as_str().as_bytes();
        if bytes_eq(name, "server_no_context_takeover".as_bytes()) {
            self.config.server_no_context_takeover = true;
            match response {
                Some(resp) => {
                    resp.push(ExtensionParam::flag("server_no_context_takeover"));
                },
                None => {},
            }
            Ok(())
        } else if bytes_eq(name, "client_no_context_takeover".as_bytes()) {
            self.config.client_no_context_takeover = true;
            match response {
                Some(resp) => {
                    resp.push(ExtensionParam::flag("client_no_context_takeover"));
                },
                None => {},
            }
            Ok(())
        } else if bytes_eq(name, "server_max_window_bits".as_bytes()) {
            let value: Option<&str> = match &param.value {
                Some(v) => Some(v.as_str()),
                None => None,
            };
            let bits = match DeflateExtension::parse_window_bits(value) {
                Ok(b) => b,
                Err(e) => {
                    return Err(e);
                },
            };
            self.config.server_max_window_bits = bits;
            match response {
                Some(resp) => {
                    resp.push(ExtensionParam::new("server_max_window_bits", bits_text(bits)));
                },
                None => {},
            }
            Ok(())
        } else if bytes_eq(name, "client_max_window_bits".as_bytes()) {
            let bits = match &param.value {
                Some(v) => match DeflateExtension::parse_window_bits(Some(v.as_str())) {
                    Ok(b) => b,
                    Err(e) => {
                        return Err(e);
                    },
                },
                None => self.config.client_max_window_bits,
            };
            self.config.client_max_window_bits = bits;
            match response {
                Some(resp) => {
                    resp.push(ExtensionParam::new("client_max_window_bits", bits_text(bits)));
                },
                None => {},
            }
            Ok(())
        } else {
            Err(Error::InvalidExtension(String::from_str("unknown permessage-deflate parameter")))
        }
    }

    /// Accept an offer's parameters: the configuration becomes exactly
    /// what [`spec_params_applied`] reads from them, one response
    /// parameter is echoed per accepted one, and the extension is
    /// marked negotiated; the first unknown name or bad value rejects
    /// the offer.
    pub fn negotiate_params(&mut self, params: &[ExtensionParam]) -> (r: Result<
        Vec<ExtensionParam>,
        Error,
    >)
        ensures
            final(self).is_server == old(self).is_server,
            final(self).encoder == old(self).encoder,
            final(self).decoder == old(self).decoder,
            r is Ok <==> spec_params_applied(old(self).config, params@) is Some,
            r is Ok ==> Some(final(self).config) == spec_params_applied(
                old(self).config,
                params@,
            ) && final(self).negotiated,
            r is Err ==> r->Err_0 matches Error::InvalidExtension(_),
    {
        let mut response: Vec<ExtensionParam> = Vec::new();
        let n = params.len();
        let mut i: usize = 0;
        proof {
            assert(params@.skip(0) =~= params@);
        }
        while i < n
            invariant
                i <= n,
                n == params@.len(),
                self.is_server == old(self).is_server,
                self.negotiated == old(self).negotiated,
                self.encoder == old(self).encoder,
                self.decoder == old(self).decoder,
                spec_params_applied(old(self).config, params@) == spec_params_applied(
                    self.config,
                    params@.skip(i as int),
                ),
            decreases n - i,
        {
            let param = &params[i];
            proof {
                assert(params@.skip(i as int)[0] == params@[i as int]);
                assert(params@.skip(i as int).skip(1) =~= params@.skip(i + 1));
            }
            match self.apply_param(param, Some(&mut response)) {
                Ok(()) => {},
                Err(e) => {
                    return Err(e);
                },
            }
            i = i + 1;
        }
        proof {
            assert(params@.skip(n as int) =~= Seq::<ExtensionParam>::empty());
        }
        self.negotiated = true;
        Ok(response)
    }

    /// Apply the peer's accepted parameters: the configuration becomes
    /// exactly what [`spec_params_applied`] reads from them and the
    /// extension is marked negotiated; an unknown name or bad value is
    /// refused.
    pub fn configure_params(&mut self, params: &[ExtensionParam]) -> (r: Result<(), Error>)
        ensures
            final(self).is_server == old(self).is_server,
            final(self).encoder == old(self).encoder,
            final(self).decoder == old(self).decoder,
            r is Ok <==> spec_params_applied(old(self).config, params@) is Some,
            r is Ok ==> Some(final(self).config) == spec_params_applied(
                old(self).config,
                params@,
            ) && final(self).negotiated,
            r is Err ==> r->Err_0 matches Error::InvalidExtension(_),
    {
        let n = params.len();
        let mut i: usize = 0;
        proof {
            assert(params@.skip(0) =~= params@);
        }
        while i < n
            invariant
                i <= n,
                n == params@.len(),
                self.is_server == old(self).is_server,
                self.negotiated == old(self).negotiated,
                self.encoder == old(self).encoder,
                self.decoder == old(self).decoder,
                spec_params_applied(old(self).config, params@) == spec_params_applied(
                    self.config,
                    params@.skip(i as int),
                ),
            decreases n - i,
        {
            let param = &params[i];
            proof {
                assert(params@.skip(i as int)[0] == params@[i as int]);
                assert(params@.skip(i as int).skip(1) =~= params@.skip(i + 1));
            }
            match self.apply_param(param, None) {
                Ok(()) => {},
                Err(e) => {
                    return Err(e);
                },
            }
            i = i + 1;
        }
        proof {
            assert(params@.skip(n as int) =~= Seq::<ExtensionParam>::empty());
        }
        self.negotiated = true;
        Ok(())
    }

    /// The parameters a client offers, exactly [`spec_offer_views`] of
    /// the configuration: the takeover flags that are set, then the
    /// window-bits values that differ from the default of 15.
    pub fn offer_param_list(&self) -> (r: Vec<ExtensionParam>)
        ensures
            r@.len() == spec_offer_views(self.config).len(),
            forall|i: int|
                0 <= i < r@.len() ==> (#[trigger] r@[i]).name@ == spec_offer_views(
                    self.config,
                )[i].0 && r@[i].spec_value() == spec_offer_views(self.config)[i].1,
    {
        let mut params: Vec<ExtensionParam> = Vec::new();
        if self.config.server_no_context_takeover {
            params.push(ExtensionParam::flag("server_no_context_takeover"));
        }
        if self.config.client_no_context_takeover {
            params.push(ExtensionParam::flag("client_no_context_takeover"));
        }
        if self.config.server_max_window_bits != 15 {
            params.push(
                ExtensionParam::new(
                    "server_max_window_bits",
                    bits_text(self.config.server_max_window_bits),
                ),
            );
        }
        if self.config.client_max_window_bits != 15 {
            params.push(
                ExtensionParam::new(
                    "client_max_window_bits",
                    bits_text(self.config.client_max_window_bits),
                ),
            );
        }
        params
    }
}

/// The decimal text of a window-bits value in 8 through 15; anything
/// else reads as the default of 15.
pub open spec fn bits_chars(bits: u8) -> Seq<char> {
    if bits == 8 {
        "8"@
    } else if bits == 9 {
        "9"@
    } else if bits == 10 {
        "10"@
    } else if bits == 11 {
        "11"@
    } else if bits == 12 {
        "12"@
    } else if bits == 13 {
        "13"@
    } else if bits == 14 {
        "14"@
    } else {
        "15"@
    }
}

/// The window-bits value a parameter's text carries: absent means the
/// default of 15; present, its decimal reading, accepted for 8 through
/// 15.
pub open spec fn spec_bits_of(value: Option<Seq<char>>) -> Option<u8> {
    match value {
        None => Some(15u8),
        Some(v) => match dec_u8_of(vstd::utf8::encode_utf8(v)) {
            Some(b) => if 8 <= b <= 15 {
                Some(b)
            } else {
                None
            },
            None => None,
        },
    }
}

/// How one permessage-deflate parameter reads onto a configuration
/// (RFC 7692 section 7.1): a takeover flag sets its field; a
/// window-bits parameter sets the parsed value, except that
/// `client_max_window_bits` without a value keeps the configured one;
/// an unknown name or a bad value is refused.
pub open spec fn spec_param_applied(
    pre: DeflateConfig,
    name: Seq<char>,
    value: Option<Seq<char>>,
) -> Option<DeflateConfig> {
    if name == "server_no_context_takeover"@ {
        Some(DeflateConfig { server_no_context_takeover: true, ..pre })
    } else if name == "client_no_context_takeover"@ {
        Some(DeflateConfig { client_no_context_takeover: true, ..pre })
    } else if name == "server_max_window_bits"@ {
        match spec_bits_of(value) {
            Some(b) => Some(DeflateConfig { server_max_window_bits: b, ..pre }),
            None => None,
        }
    } else if name == "client_max_window_bits"@ {
        match value {
            None => Some(pre),
            Some(_) => match spec_bits_of(value) {
                Some(b) => Some(DeflateConfig { client_max_window_bits: b, ..pre }),
                None => None,
            },
        }
    } else {
        None
    }
}

/// The parameter list a client offers for a configuration, as name and
/// value texts: the takeover flags that are set, then the window-bits
/// values that differ from the default of 15.
pub open spec fn spec_offer_views(c: DeflateConfig) -> Seq<(Seq<char>, Option<Seq<char>>)> {
    let s0 = Seq::<(Seq<char>, Option<Seq<char>>)>::empty();
    let s1 = if c.server_no_context_takeover {
        s0.push(("server_no_context_takeover"@, None))
    } else {
        s0
    };
    let s2 = if c.client_no_context_takeover {
        s1.push(("client_no_context_takeover"@, None))
    } else {
        s1
    };
    let s3 = if c.server_max_window_bits != 15 {
        s2.push(("server_max_window_bits"@, Some(bits_chars(c.server_max_window_bits))))
    } else {
        s2
    };
    if c.client_max_window_bits != 15 {
        s3.push(("client_max_window_bits"@, Some(bits_chars(c.client_max_window_bits))))
    } else {
        s3
    }
}

/// A parameter list read left to right onto a configuration; the first
/// refused parameter refuses the list.
pub open spec fn spec_params_applied(pre: DeflateConfig, params: Seq<ExtensionParam>) -> Option<
    DeflateConfig,
>
    decreases params.len(),
{
    if params.len() == 0 {
        Some(pre)
    } else {
        match spec_param_applied(pre, params[0].name@, params[0].spec_value()) {
            Some(mid) => spec_params_applied(mid, params.skip(1)),
            None => None,
        }
    }
}

/// A compression level forced into what the zlib streams accept:
/// values above 9 are capped at 9, the strongest. The config builder
/// already refuses them, but the field is public and bypasses it.
fn clamp_level(level: u32) -> (r: u32)
    ensures
        r <= 9,
        level <= 9 ==> r == level,
{
    if level > 9 {
        9
    } else {
        level
    }
}

/// A window exponent forced into what the zlib streams accept: 8 is
/// promoted to 9, values above 15 capped at 15.
fn clamp_bits(bits: u8) -> (r: u8)
    ensures
        9 <= r <= 15,
        9 <= bits <= 15 ==> r == bits,
{
    if bits < 9 {
        9
    } else if bits > 15 {
        15
    } else {
        bits
    }
}

/// A byte sequence with one trailing `00 00 FF FF` Sync-flush marker
/// removed, when it ends in one.
pub open spec fn spec_strip_trailer(s: Seq<u8>) -> Seq<u8> {
    if s.len() >= 4 && s[s.len() - 4] == 0x00 && s[s.len() - 3] == 0x00 && s[s.len() - 2] == 0xff
        && s[s.len() - 1] == 0xff {
        s.take(s.len() - 4)
    } else {
        s
    }
}

/// Remove one trailing `00 00 FF FF` Sync-flush marker, exactly
/// [`spec_strip_trailer`]: this is all the post-processing the encoder's
/// collected output receives before it goes on the wire.
pub fn strip_sync_trailer(data: Vec<u8>) -> (r: Vec<u8>)
    ensures
        r@ == spec_strip_trailer(data@),
{
    let mut data = data;
    let n = data.len();
    if n >= 4 {
        let t0 = data[n - 4];
        let t1 = data[n - 3];
        let t2 = data[n - 2];
        let t3 = data[n - 1];
        if t0 == 0x00 && t1 == 0x00 && t2 == 0xff && t3 == 0xff {
            data.truncate(n - 4);
        }
    }
    data
}

/// Run the compressor over the whole input with Sync flush, collecting
/// its output; stops on stalls or after the iteration bound.
fn deflate_all(encoder: &mut flate2::Compress, data: &[u8]) -> (r: Result<Vec<u8>, Error>)
    requires
        data@.len() > 0,
    ensures
        r is Err ==> r->Err_0 matches Error::Extension(_),
{
    let mut compressed: Vec<u8> = Vec::new();
    let mut input_pos: usize = 0;
    let mut iterations: usize = 0;
    let n = data.len();
    while iterations < MAX_CODEC_ITERATIONS && input_pos < n
        invariant
            input_pos <= n,
            n == data@.len(),
        decreases MAX_CODEC_ITERATIONS - iterations,
    {
        iterations = iterations + 1;
        let remaining = vstd::slice::slice_subrange(data, input_pos, n);
        let mut scratch: Vec<u8> = new_scratch();
        let before_in = enc_total_in(encoder);
        let before_out = enc_total_out(encoder);
        match deflate_step(encoder, remaining, &mut scratch, true) {
            Ok(()) => {},
            Err(e) => {
                return Err(e);
            },
        }
        let after_in = enc_total_in(encoder);
        let after_out = enc_total_out(encoder);
        let consumed64 = if after_in >= before_in {
            after_in - before_in
        } else {
            0
        };
        let produced64 = if after_out >= before_out {
            after_out - before_out
        } else {
            0
        };
        if produced64 > CODEC_CHUNK as u64 || consumed64 > (n - input_pos) as u64 {
            return Err(Error::Extension(String::from_str("compressor progress out of range")));
        }
        let produced = produced64 as usize;
        let consumed = consumed64 as usize;
        compressed.extend_from_slice(vstd::slice::slice_subrange(scratch.as_slice(), 0, produced));
        input_pos = input_pos + consumed;
        if consumed == 0 && produced == 0 {
            break ;
        }
    }
    if input_pos < n {
        return Err(Error::Extension(String::from_str("compression stalled")));
    }
    Ok(compressed)
}

/// Run the decompressor over the input plus the `00 00 FF FF` marker,
/// collecting its output; fails the moment the output would pass the
/// absolute cap or the ratio cap, so the result respects both.
fn inflate_all(
    decoder: &mut flate2::Decompress,
    data: &[u8],
    max_size: usize,
    max_ratio_size: usize,
) -> (r: Result<Vec<u8>, Error>)
    ensures
        r matches Ok(v) ==> v@.len() <= max_size && v@.len() <= max_ratio_size,
        r is Err ==> r->Err_0 matches Error::Extension(_),
{
    let mut input: Vec<u8> = vstd::slice::slice_to_vec(data);
    input.push(0x00);
    input.push(0x00);
    input.push(0xff);
    input.push(0xff);
    let mut out: Vec<u8> = Vec::new();
    let mut input_pos: usize = 0;
    let mut iterations: usize = 0;
    let n = input.len();
    while iterations < MAX_CODEC_ITERATIONS && input_pos < n
        invariant
            input_pos <= n,
            n == input@.len(),
            out@.len() <= max_size,
            out@.len() <= max_ratio_size,
        decreases MAX_CODEC_ITERATIONS - iterations,
    {
        iterations = iterations + 1;
        let remaining = vstd::slice::slice_subrange(input.as_slice(), input_pos, n);
        let mut scratch: Vec<u8> = new_scratch();
        let before_in = dec_total_in(decoder);
        let before_out = dec_total_out(decoder);
        let stream_end = match inflate_step(decoder, remaining, &mut scratch) {
            Ok(se) => se,
            Err(e) => {
                return Err(e);
            },
        };
        let after_in = dec_total_in(decoder);
        let after_out = dec_total_out(decoder);
        let consumed64 = if after_in >= before_in {
            after_in - before_in
        } else {
            0
        };
        let produced64 = if after_out >= before_out {
            after_out - before_out
        } else {
            0
        };
        if produced64 > CODEC_CHUNK as u64 || consumed64 > (n - input_pos) as u64 {
            return Err(Error::Extension(String::from_str("decompressor progress out of range")));
        }
        let produced = produced64 as usize;
        let consumed = consumed64 as usize;
        if produced > max_size || out.len() > max_size - produced {
            return Err(Error::Extension(String::from_str("decompressed size exceeds limit")));
        }
        if produced > max_ratio_size || out.len() > max_ratio_size - produced {
            return Err(Error::Extension(String::from_str("decompression ratio exceeded")));
        }
        out.extend_from_slice(vstd::slice::slice_subrange(scratch.as_slice(), 0, produced));
        input_pos = input_pos + consumed;
        if stream_end || produced == 0 {
            break ;
        }
    }
    Ok(out)
}

/// A zeroed scratch buffer of one codec chunk.
fn new_scratch() -> (r: Vec<u8>)
    ensures
        r@.len() == CODEC_CHUNK,
{
    let mut v: Vec<u8> = Vec::new();
    let mut i: usize = 0;
    while i < CODEC_CHUNK
        invariant
            v@.len() == i,
            i <= CODEC_CHUNK,
        decreases CODEC_CHUNK - i,
    {
        v.push(0);
        i = i + 1;
    }
    v
}

/// The decimal text of a window-bits value in 8 through 15.
fn bits_text(bits: u8) -> (r: &'static str)
    ensures
        r@ == bits_chars(bits),
{
    match bits {
        8 => "8",
        9 => "9",
        10 => "10",
        11 => "11",
        12 => "12",
        13 => "13",
        14 => "14",
        _ => "15",
    }
}

impl Extension for DeflateExtension {
    /// The token `permessage-deflate`.
    open spec fn spec_name(&self) -> Seq<char> {
        "permessage-deflate"@
    }

    /// The offered parameters' texts.
    open spec fn spec_offer(&self) -> Seq<(Seq<char>, Option<Seq<char>>)> {
        spec_offer_views(self.config)
    }

    /// The claim on RSV1.
    open spec fn spec_rsv(&self) -> RsvBits {
        RsvBits { rsv1: true, rsv2: false, rsv3: false }
    }

    /// The extension's header token.
    fn name(&self) -> (r: &str) {
        "permessage-deflate"
    }

    /// Permessage-deflate claims RSV1.
    fn rsv_bits(&self) -> (r: RsvBits) {
        RsvBits { rsv1: true, rsv2: false, rsv3: false }
    }

    /// Server side: accept the offered parameters; the exact
    /// parameter-to-configuration contract is on
    /// [`DeflateExtension::negotiate_params`].
    fn negotiate(&mut self, params: &[ExtensionParam]) -> (r: Result<Vec<ExtensionParam>, Error>) {
        self.negotiate_params(params)
    }

    /// Client side: apply the server's accepted parameters; the exact
    /// contract is on [`DeflateExtension::configure_params`].
    fn configure(&mut self, params: &[ExtensionParam]) -> (r: Result<(), Error>) {
        self.configure_params(params)
    }

    /// Compress a final, non-empty data frame and set RSV1 on it; any
    /// other frame passes through untouched. The exact contract is on
    /// [`DeflateExtension::encode_frame`].
    fn encode(&mut self, frame: &mut Frame) -> (r: Result<(), Error>) {
        self.encode_frame(frame)
    }

    /// Inflate a frame carrying RSV1 and clear the bit; RSV1 on a
    /// control frame is an error; frames without RSV1 pass through. The
    /// exact contract, bomb caps included, is on
    /// [`DeflateExtension::decode_frame`].
    fn decode(&mut self, frame: &mut Frame) -> (r: Result<(), Error>) {
        self.decode_frame(frame)
    }

    /// The parameters a client offers; the exact contract is on
    /// [`DeflateExtension::offer_param_list`].
    fn offer_params(&self) -> Vec<ExtensionParam> {
        self.offer_param_list()
    }
}

} // verus!
