//! WebSocket opening handshake (RFC 6455): parse and validate the
//! HTTP/1.1 Upgrade request and response, and compute the accept key.
//!
//! Parsing works on raw bytes against the models below. Header names
//! are matched ASCII case-insensitively; the security-critical headers
//! must not repeat, which blocks request smuggling; response header
//! values may not carry CR or LF, which blocks header injection.

use base64::Engine;
use sha1::Digest;
use vstd::prelude::*;
use vstd::string::{StringExecFns, StringSliceAdditionalSpecFns};
use vstd::utf8::{decode_utf8, valid_utf8};

use crate::error::Error;
use crate::protocol::textparse::{
    bytes_eq, contains_seq, contains_sub, dec_u8_of, find_byte, find_byte_from,
    lemma_find_byte_from, lower_bytes, lower_range, parse_dec_u8, split_trim, split_trim_vec,
    tokenize_ws, trim_range, trimmed, ws_tokens,
};
use crate::protocol::utf8::{utf8_to_string, validate_utf8};

verus! {

/// The GUID appended to the client key in the accept computation
/// (RFC 6455 section 1.3).
pub const WS_GUID: &'static str = "258EAFA5-E914-47DA-95CA-C5AB0DC85B11";

/// The SHA-1 digest of a byte sequence: named, not restated — the
/// algorithm lives in the outside crate alone.
pub uninterp spec fn sha1_of(data: Seq<u8>) -> Seq<u8>;

/// Relies on `sha1::Sha1` via the one-shot `Digest::digest`: the SHA-1
/// digest of the input, always 20 bytes, a function of the input alone.
#[verifier::external_body]
fn sha1_digest(data: &[u8]) -> (r: Vec<u8>)
    ensures
        r@ == sha1_of(data@),
        r@.len() == 20,
{
    sha1::Sha1::digest(data).to_vec()
}

/// The standard base64 encoding (with padding) of a byte sequence:
/// named; only its length is stated.
pub uninterp spec fn b64_encode_of(data: Seq<u8>) -> Seq<char>;

/// Relies on `base64`'s STANDARD engine: encodes with padding, four
/// output characters for every started group of three input bytes.
#[verifier::external_body]
fn b64_encode(data: &[u8]) -> (r: String)
    ensures
        r@ == b64_encode_of(data@),
        r@.len() == 4 * ((data@.len() + 2) / 3),
{
    base64::engine::general_purpose::STANDARD.encode(data)
}

/// What the standard base64 decoding yields for a character sequence:
/// the decoded bytes when the input is well-formed standard base64 with
/// padding, nothing otherwise.
pub uninterp spec fn b64_decode_of(s: Seq<char>) -> Option<Seq<u8>>;

/// Relies on `base64`'s STANDARD engine: decodes exactly the
/// well-formed inputs, to [`b64_decode_of`].
#[verifier::external_body]
fn b64_decode(s: &str) -> (r: Option<Vec<u8>>)
    ensures
        r is Some <==> b64_decode_of(s@) is Some,
        r matches Some(v) ==> Some(v@) == b64_decode_of(s@),
{
    match base64::engine::general_purpose::STANDARD.decode(s) {
        Ok(v) => Some(v),
        Err(_) => None,
    }
}

/// Compute the Sec-WebSocket-Accept value for a client key:
/// base64(SHA-1(key || GUID)).
pub fn compute_accept_key(key: &str) -> (r: String)
    ensures
        r@ == b64_encode_of(sha1_of(key.spec_bytes() + WS_GUID.spec_bytes())),
        r@.len() == 28,
{
    let mut input: Vec<u8> = Vec::new();
    input.extend_from_slice(key.as_bytes());
    input.extend_from_slice(WS_GUID.as_bytes());
    let digest = sha1_digest(input.as_slice());
    proof {
        assert(input@ == key.spec_bytes() + WS_GUID.spec_bytes());
    }
    b64_encode(digest.as_slice())
}

/// Validate the Origin header against an allow-list. An empty list
/// accepts anything; otherwise the origin must be present and match one
/// entry exactly.
pub fn validate_origin(origin: Option<&str>, allowed: &[String]) -> (r: Result<(), Error>)
    ensures
        r is Ok <==> allowed@.len() == 0 || (origin matches Some(o) && exists|i: int|
            0 <= i < allowed@.len() && (#[trigger] allowed@[i])@ == o@),
        r is Err ==> r->Err_0 matches Error::OriginNotAllowed { .. },
{
    if allowed.len() == 0 {
        return Ok(());
    }
    if origin.is_none() {
        return Err(Error::OriginNotAllowed { origin: String::from_str("(none)") });
    }
    let o = origin.unwrap();
    let n = allowed.len();
    let mut i: usize = 0;
    while i < n
        invariant
            i <= n,
            n == allowed@.len(),
            origin == Some(o),
            forall|j: int| 0 <= j < i ==> (#[trigger] allowed@[j])@ != o@,
        decreases n - i,
    {
        let a: &String = &allowed[i];
        if bytes_eq(a.as_str().as_bytes(), o.as_bytes()) {
            proof {
                vstd::utf8::encode_utf8_decode_utf8(allowed@[i as int]@);
                vstd::utf8::encode_utf8_decode_utf8(o@);
                assert(origin matches Some(oo) && exists|k: int|
                    0 <= k < allowed@.len() && (#[trigger] allowed@[k])@ == oo@) by {
                    assert(allowed@[i as int]@ == o@);
                }
            }
            return Ok(());
        }
        proof {
            assert(allowed@[i as int]@ != o@);
        }
        i = i + 1;
    }
    Err(Error::OriginNotAllowed { origin: String::from_str(o) })
}

/// The end of the line starting at `pos`: the first newline, or the end
/// of the buffer.
pub open spec fn line_end(b: Seq<u8>, pos: int) -> int {
    find_byte_from(b, 0x0a, pos)
}

/// The line starting at `pos`, without its newline and without one
/// carriage return before it.
pub open spec fn line_at(b: Seq<u8>, pos: int) -> Seq<u8> {
    let e = line_end(b, pos);
    let e2 = if e > pos && b[e - 1] == 0x0d {
        e - 1
    } else {
        e
    };
    b.subrange(pos, e2)
}

/// Where the next line starts: one past the newline, or the end.
pub open spec fn next_line_pos(b: Seq<u8>, pos: int) -> int {
    let e = line_end(b, pos);
    if e < b.len() {
        e + 1
    } else {
        e
    }
}

/// The header fields from `pos` to the first empty line: for every line
/// with a colon, the ASCII-lowered, trimmed name and the trimmed value,
/// in order of appearance. Lines without a colon are skipped.
pub open spec fn headers_from(b: Seq<u8>, pos: int) -> Seq<(Seq<u8>, Seq<u8>)>
    decreases b.len() - pos,
    via headers_from_decreases
{
    if pos < 0 || pos >= b.len() {
        Seq::empty()
    } else {
        let l = line_at(b, pos);
        if l.len() == 0 {
            Seq::empty()
        } else {
            let rest = headers_from(b, next_line_pos(b, pos));
            let c = find_byte_from(l, 0x3a, 0);
            if c < l.len() {
                seq![(lower_bytes(trimmed(l.take(c))), trimmed(l.skip(c + 1)))] + rest
            } else {
                rest
            }
        }
    }
}

#[via_fn]
proof fn headers_from_decreases(b: Seq<u8>, pos: int) {
    if 0 <= pos < b.len() {
        lemma_find_byte_from(b, 0x0a, pos);
    }
}

/// The value of the named header: the last occurrence wins, as for a
/// map filled in order.
pub open spec fn find_header(hs: Seq<(Seq<u8>, Seq<u8>)>, name: Seq<u8>) -> Option<Seq<u8>>
    decreases hs.len(),
{
    if hs.len() == 0 {
        None
    } else if hs.last().0 == name {
        Some(hs.last().1)
    } else {
        find_header(hs.drop_last(), name)
    }
}

/// The security-critical request headers that must not repeat.
pub open spec fn is_security_name(n: Seq<u8>) -> bool {
    ||| n == "host".spec_bytes()
    ||| n == "upgrade".spec_bytes()
    ||| n == "connection".spec_bytes()
    ||| n == "sec-websocket-key".spec_bytes()
    ||| n == "sec-websocket-version".spec_bytes()
}

/// Whether some security-critical header appears twice.
pub open spec fn dup_security(hs: Seq<(Seq<u8>, Seq<u8>)>) -> bool {
    exists|i: int, j: int|
        0 <= i < j < hs.len() && (#[trigger] hs[i]).0 == (#[trigger] hs[j]).0 && is_security_name(
            hs[i].0,
        )
}

/// Whether every piece of a list is valid UTF-8.
pub open spec fn all_valid_utf8(ss: Seq<Seq<u8>>) -> bool {
    forall|i: int| 0 <= i < ss.len() ==> valid_utf8(#[trigger] ss[i])
}

/// The mathematical content of a parsed request.
pub ghost struct RequestSpec {
    pub path: Seq<u8>,
    pub host: Seq<u8>,
    pub key: Seq<u8>,
    pub version: u8,
    pub origin: Option<Seq<u8>>,
    pub protocols: Seq<Seq<u8>>,
    pub extensions: Seq<Seq<u8>>,
}

/// What parsing a request yields: the reference model for
/// [`HandshakeRequest::parse`]. The request is accepted exactly when it
/// is valid UTF-8; its request line has three tokens, `GET`, the path,
/// and a version starting with `HTTP/1.1`; no security-critical header
/// repeats; `Upgrade` equals `websocket` case-insensitively;
/// `Connection` contains the token `upgrade`; `Host`,
/// `Sec-WebSocket-Key` and a numeric `Sec-WebSocket-Version` are
/// present.
pub open spec fn spec_parse_request(b: Seq<u8>) -> Option<RequestSpec> {
    if !valid_utf8(b) {
        None
    } else {
        let rl = line_at(b, 0);
        let toks = ws_tokens(rl);
        if toks.len() != 3 {
            None
        } else if toks[0] != "GET".spec_bytes() {
            None
        } else if !(toks[2].len() >= 8 && toks[2].take(8) == "HTTP/1.1".spec_bytes()) {
            None
        } else {
            let hs = headers_from(b, next_line_pos(b, 0));
            if dup_security(hs) {
                None
            } else {
                match find_header(hs, "upgrade".spec_bytes()) {
                    None => None,
                    Some(up) => {
                        if lower_bytes(up) != "websocket".spec_bytes() {
                            None
                        } else {
                            match find_header(hs, "connection".spec_bytes()) {
                                None => None,
                                Some(conn) => {
                                    if !contains_seq(
                                        lower_bytes(conn),
                                        "upgrade".spec_bytes(),
                                    ) {
                                        None
                                    } else {
                                        spec_parse_request_fields(b, toks[1], hs)
                                    }
                                },
                            }
                        }
                    },
                }
            }
        }
    }
}

/// The field extraction half of [`spec_parse_request`]: the required
/// headers must be present, the version numeric, and every extracted
/// piece valid UTF-8.
pub open spec fn spec_parse_request_fields(
    b: Seq<u8>,
    path: Seq<u8>,
    hs: Seq<(Seq<u8>, Seq<u8>)>,
) -> Option<RequestSpec> {
    match find_header(hs, "host".spec_bytes()) {
        None => None,
        Some(host) => match find_header(hs, "sec-websocket-key".spec_bytes()) {
            None => None,
            Some(key) => match find_header(hs, "sec-websocket-version".spec_bytes()) {
                None => None,
                Some(vs) => match dec_u8_of(vs) {
                    None => None,
                    Some(version) => {
                        let origin = find_header(hs, "origin".spec_bytes());
                        let protocols = match find_header(
                            hs,
                            "sec-websocket-protocol".spec_bytes(),
                        ) {
                            None => Seq::empty(),
                            Some(p) => split_trim(p, 0x2c),
                        };
                        let extensions = match find_header(
                            hs,
                            "sec-websocket-extensions".spec_bytes(),
                        ) {
                            None => Seq::empty(),
                            Some(e) => split_trim(e, 0x2c),
                        };
                        if valid_utf8(path) && valid_utf8(host) && valid_utf8(key) && (origin
                            matches Some(o) ==> valid_utf8(o)) && all_valid_utf8(protocols)
                            && all_valid_utf8(extensions) {
                            Some(
                                RequestSpec {
                                    path,
                                    host,
                                    key,
                                    version,
                                    origin,
                                    protocols,
                                    extensions,
                                },
                            )
                        } else {
                            None
                        }
                    },
                },
            },
        },
    }
}

/// Collect the header fields from `start` up to the first empty line.
fn collect_headers(b: &[u8], start: usize) -> (r: Vec<(Vec<u8>, Vec<u8>)>)
    requires
        start <= b@.len(),
    ensures
        r@.map_values(|f: (Vec<u8>, Vec<u8>)| (f.0@, f.1@)) == headers_from(b@, start as int),
{
    let n = b.len();
    let mut out: Vec<(Vec<u8>, Vec<u8>)> = Vec::new();
    let mut p = start;
    proof {
        assert(out@.map_values(|f: (Vec<u8>, Vec<u8>)| (f.0@, f.1@)) =~= Seq::<(
            Seq<u8>,
            Seq<u8>,
        )>::empty());
    }
    while p < n
        invariant
            start <= p <= n,
            n == b@.len(),
            headers_from(b@, start as int) == out@.map_values(|f: (Vec<u8>, Vec<u8>)| (f.0@, f.1@))
                + headers_from(b@, p as int),
        decreases n - p,
    {
        let e = find_byte(b, 0x0a, p);
        proof {
            lemma_find_byte_from(b@, 0x0a, p as int);
        }
        let body_end: usize = if e > p && b[e - 1] == 0x0d {
            e - 1
        } else {
            e
        };
        if body_end == p {
            // Empty line: headers end here.
            proof {
                assert(line_at(b@, p as int) =~= Seq::<u8>::empty());
                assert(headers_from(b@, p as int) =~= Seq::<(Seq<u8>, Seq<u8>)>::empty());
                assert(out@.map_values(|f: (Vec<u8>, Vec<u8>)| (f.0@, f.1@)) + headers_from(
                    b@,
                    p as int,
                ) =~= out@.map_values(|f: (Vec<u8>, Vec<u8>)| (f.0@, f.1@)));
            }
            return out;
        }
        let line = vstd::slice::slice_subrange(b, p, body_end);
        let ghost lspec = line_at(b@, p as int);
        proof {
            assert(line@ =~= lspec);
        }
        let c = find_byte(line, 0x3a, 0);
        let next: usize = if e < n {
            e + 1
        } else {
            e
        };
        let ghost out_before = out@;
        if c < line.len() {
            let name = lower_range_trim(line, 0, c);
            let value = trim_range(line, c + 1, line.len());
            out.push((name, value));
            proof {
                assert(line@.subrange(0, c as int) =~= lspec.take(c as int));
                assert(line@.subrange(c + 1, line@.len() as int) =~= lspec.skip(c + 1));
                assert(out@ == out_before.push((name, value)));
                assert(out@.map_values(|f: (Vec<u8>, Vec<u8>)| (f.0@, f.1@))
                    =~= out_before.map_values(|f: (Vec<u8>, Vec<u8>)| (f.0@, f.1@)) + seq![
                    (name@, value@),
                ]);
                assert(out@.map_values(|f: (Vec<u8>, Vec<u8>)| (f.0@, f.1@)) + headers_from(
                    b@,
                    next as int,
                ) =~= out_before.map_values(|f: (Vec<u8>, Vec<u8>)| (f.0@, f.1@))
                    + headers_from(b@, p as int));
            }
        }
        p = next;
    }
    proof {
        assert(headers_from(b@, p as int) =~= Seq::<(Seq<u8>, Seq<u8>)>::empty());
        assert(out@.map_values(|f: (Vec<u8>, Vec<u8>)| (f.0@, f.1@)) + headers_from(b@, p as int)
            =~= out@.map_values(|f: (Vec<u8>, Vec<u8>)| (f.0@, f.1@)));
    }
    out
}

/// Trim, then ASCII-lower a range of a slice.
fn lower_range_trim(s: &[u8], from: usize, to: usize) -> (r: Vec<u8>)
    requires
        from <= to <= s@.len(),
    ensures
        r@ == lower_bytes(trimmed(s@.subrange(from as int, to as int))),
{
    let t = trim_range(s, from, to);
    let low = lower_range(t.as_slice(), 0, t.len());
    proof {
        assert(t@.subrange(0, t@.len() as int) =~= t@);
    }
    low
}

/// Look a header up by its lowered name; the last occurrence wins.
fn lookup_header(fields: &Vec<(Vec<u8>, Vec<u8>)>, name: &[u8]) -> (r: Option<Vec<u8>>)
    ensures
        ({
            let hs = fields@.map_values(|f: (Vec<u8>, Vec<u8>)| (f.0@, f.1@));
            match r {
                Some(v) => find_header(hs, name@) == Some(v@),
                None => find_header(hs, name@) is None,
            }
        }),
{
    let ghost hs = fields@.map_values(|f: (Vec<u8>, Vec<u8>)| (f.0@, f.1@));
    let mut i = fields.len();
    proof {
        assert(hs.take(fields@.len() as int) =~= hs);
    }
    while i > 0
        invariant
            i <= fields@.len(),
            hs == fields@.map_values(|f: (Vec<u8>, Vec<u8>)| (f.0@, f.1@)),
            find_header(hs, name@) == find_header(hs.take(i as int), name@),
        decreases i,
    {
        i = i - 1;
        let hit = bytes_eq(fields[i].0.as_slice(), name);
        if hit {
            proof {
                assert(hs.take(i + 1).last() == (fields@[i as int].0@, fields@[i as int].1@));
            }
            return Some(vstd::slice::slice_to_vec(fields[i].1.as_slice()));
        }
        proof {
            assert(hs.take(i + 1).last() == (fields@[i as int].0@, fields@[i as int].1@));
            assert(hs.take(i + 1).drop_last() =~= hs.take(i as int));
        }
    }
    proof {
        assert(hs.take(0) =~= Seq::<(Seq<u8>, Seq<u8>)>::empty());
    }
    None
}

/// Whether the lowered name is one of the security-critical headers.
fn is_security_header(name: &[u8]) -> (r: bool)
    ensures
        r == is_security_name(name@),
{
    bytes_eq(name, "host".as_bytes()) || bytes_eq(name, "upgrade".as_bytes()) || bytes_eq(
        name,
        "connection".as_bytes(),
    ) || bytes_eq(name, "sec-websocket-key".as_bytes()) || bytes_eq(
        name,
        "sec-websocket-version".as_bytes(),
    )
}

/// Whether some security-critical header occurs twice in the fields.
fn find_dup_security(fields: &Vec<(Vec<u8>, Vec<u8>)>) -> (r: bool)
    ensures
        r == dup_security(fields@.map_values(|f: (Vec<u8>, Vec<u8>)| (f.0@, f.1@))),
{
    let ghost hs = fields@.map_values(|f: (Vec<u8>, Vec<u8>)| (f.0@, f.1@));
    let n = fields.len();
    let mut j: usize = 0;
    while j < n
        invariant
            j <= n,
            n == fields@.len(),
            hs == fields@.map_values(|f: (Vec<u8>, Vec<u8>)| (f.0@, f.1@)),
            forall|x: int, y: int|
                0 <= x < y < j && (#[trigger] hs[x]).0 == (#[trigger] hs[y]).0
                    ==> !is_security_name(hs[x].0),
        decreases n - j,
    {
        let mut i: usize = 0;
        while i < j
            invariant
                i <= j < n,
                n == fields@.len(),
                hs == fields@.map_values(|f: (Vec<u8>, Vec<u8>)| (f.0@, f.1@)),
                forall|x: int|
                    0 <= x < i && (#[trigger] hs[x]).0 == hs[j as int].0 ==> !is_security_name(
                        hs[x].0,
                    ),
            decreases j - i,
        {
            if bytes_eq(fields[i].0.as_slice(), fields[j].0.as_slice()) {
                if is_security_header(fields[i].0.as_slice()) {
                    proof {
                        assert(hs[i as int].0 == hs[j as int].0 && is_security_name(
                            hs[i as int].0,
                        ));
                    }
                    return true;
                }
            }
            i = i + 1;
        }
        j = j + 1;
    }
    false
}

/// A parsed client handshake request.
#[derive(Debug, Clone, PartialEq, Eq)]
pub struct HandshakeRequest {
    /// The request path (for example "/chat").
    pub path: String,
    /// The Host header value.
    pub host: String,
    /// The Sec-WebSocket-Key header value.
    pub key: String,
    /// The Sec-WebSocket-Version value (13 for RFC 6455).
    pub version: u8,
    /// The Origin header value, if present.
    pub origin: Option<String>,
    /// The offered subprotocols, comma-split and trimmed.
    pub protocols: Vec<String>,
    /// The offered extensions, comma-split and trimmed.
    pub extensions: Vec<String>,
}

/// Convert a list of byte pieces to strings; accepts exactly when every
/// piece is valid UTF-8.
fn pieces_to_strings(pieces: Vec<Vec<u8>>) -> (r: Option<Vec<String>>)
    ensures
        r is Some <==> all_valid_utf8(pieces@.map_values(|p: Vec<u8>| p@)),
        r matches Some(ss) ==> ss@.len() == pieces@.len() && forall|i: int|
            0 <= i < pieces@.len() ==> (#[trigger] ss@[i])@ == decode_utf8(pieces@[i]@),
{
    let ghost pspec = pieces@.map_values(|p: Vec<u8>| p@);
    let n = pieces.len();
    let mut out: Vec<String> = Vec::new();
    let mut i: usize = 0;
    while i < n
        invariant
            i <= n,
            n == pieces@.len(),
            pspec == pieces@.map_values(|p: Vec<u8>| p@),
            out@.len() == i,
            forall|j: int| 0 <= j < i ==> valid_utf8(#[trigger] pspec[j]),
            forall|j: int| 0 <= j < i ==> (#[trigger] out@[j])@ == decode_utf8(pieces@[j]@),
        decreases n - i,
    {
        let piece = vstd::slice::slice_to_vec(pieces[i].as_slice());
        match utf8_to_string(piece) {
            Ok(s) => {
                out.push(s);
            },
            Err(_) => {
                proof {
                    assert(!valid_utf8(pspec[i as int]));
                }
                return None;
            },
        }
        i = i + 1;
    }
    Some(out)
}

/// An invalid-handshake error with the given reason.
fn bad_handshake(reason: &str) -> (r: Error)
    ensures
        r matches Error::InvalidHandshake(_),
{
    Error::InvalidHandshake(String::from_str(reason))
}

impl HandshakeRequest {
    /// Parse a client handshake request from raw HTTP bytes, exactly as
    /// [`spec_parse_request`] describes: the bytes must be valid UTF-8;
    /// the request line must be `GET <path> HTTP/1.1`; no
    /// security-critical header may repeat; `Upgrade` must equal
    /// `websocket` case-insensitively; `Connection` must contain
    /// `upgrade`; `Host`, `Sec-WebSocket-Key` and a numeric
    /// `Sec-WebSocket-Version` must be present.
    pub fn parse(data: &[u8]) -> (r: Result<Self, Error>)
        ensures
            r is Ok <==> spec_parse_request(data@) is Some,
            r matches Ok(req) ==> ({
                let m = spec_parse_request(data@)->0;
                &&& req.path@ == decode_utf8(m.path)
                &&& req.host@ == decode_utf8(m.host)
                &&& req.key@ == decode_utf8(m.key)
                &&& req.version == m.version
                &&& (match (req.origin, m.origin) {
                    (Some(s), Some(ob)) => s@ == decode_utf8(ob),
                    (None, None) => true,
                    _ => false,
                })
                &&& req.protocols@.len() == m.protocols.len()
                &&& (forall|i: int|
                    0 <= i < m.protocols.len() ==> (#[trigger] req.protocols@[i])@ == decode_utf8(
                        m.protocols[i],
                    ))
                &&& req.extensions@.len() == m.extensions.len()
                &&& (forall|i: int|
                    0 <= i < m.extensions.len() ==> (#[trigger] req.extensions@[i])@
                        == decode_utf8(m.extensions[i]))
            }),
            r is Err ==> r->Err_0 matches Error::InvalidHandshake(_),
    {
        if validate_utf8(data).is_err() {
            return Err(bad_handshake("invalid UTF-8"));
        }
        let n = data.len();
        let e = find_byte(data, 0x0a, 0);
        proof {
            lemma_find_byte_from(data@, 0x0a, 0);
        }
        let body_end: usize = if e > 0 && data[e - 1] == 0x0d {
            e - 1
        } else {
            e
        };
        let line = vstd::slice::slice_subrange(data, 0, body_end);
        proof {
            assert(line@ =~= line_at(data@, 0));
        }
        let toks = tokenize_ws(line);
        let ghost tspec = ws_tokens(line_at(data@, 0));
        if toks.len() != 3 {
            return Err(bad_handshake("invalid request line"));
        }
        proof {
            assert(tspec[0] == toks@.map_values(|t: Vec<u8>| t@)[0]);
            assert(tspec[1] == toks@.map_values(|t: Vec<u8>| t@)[1]);
            assert(tspec[2] == toks@.map_values(|t: Vec<u8>| t@)[2]);
        }
        if !bytes_eq(toks[0].as_slice(), "GET".as_bytes()) {
            return Err(bad_handshake("expected GET method"));
        }
        let t2 = &toks[2];
        if t2.len() < 8 {
            return Err(bad_handshake("expected HTTP/1.1"));
        }
        let t2_head = vstd::slice::slice_subrange(t2.as_slice(), 0, 8);
        if !bytes_eq(t2_head, "HTTP/1.1".as_bytes()) {
            proof {
                assert(t2_head@ == tspec[2].take(8));
            }
            return Err(bad_handshake("expected HTTP/1.1"));
        }
        proof {
            assert(t2_head@ == tspec[2].take(8));
        }

        let hdr_start: usize = if e < n {
            e + 1
        } else {
            e
        };
        proof {
            assert(hdr_start == next_line_pos(data@, 0));
        }
        let fields = collect_headers(data, hdr_start);
        let ghost hs = headers_from(data@, next_line_pos(data@, 0));
        if find_dup_security(&fields) {
            return Err(bad_handshake("Duplicate security-critical header"));
        }

        let upgrade = match lookup_header(&fields, "upgrade".as_bytes()) {
            Some(v) => v,
            None => {
                return Err(bad_handshake("missing Upgrade header"));
            },
        };
        let up_low = lower_range(upgrade.as_slice(), 0, upgrade.len());
        proof {
            assert(upgrade@.subrange(0, upgrade@.len() as int) =~= upgrade@);
        }
        if !bytes_eq(up_low.as_slice(), "websocket".as_bytes()) {
            return Err(bad_handshake("invalid Upgrade header"));
        }

        let connection = match lookup_header(&fields, "connection".as_bytes()) {
            Some(v) => v,
            None => {
                return Err(bad_handshake("missing Connection header"));
            },
        };
        let conn_low = lower_range(connection.as_slice(), 0, connection.len());
        proof {
            assert(connection@.subrange(0, connection@.len() as int) =~= connection@);
        }
        if !contains_sub(conn_low.as_slice(), "upgrade".as_bytes()) {
            return Err(bad_handshake("invalid Connection header"));
        }

        let host_bytes = match lookup_header(&fields, "host".as_bytes()) {
            Some(v) => v,
            None => {
                return Err(bad_handshake("missing Host header"));
            },
        };
        let key_bytes = match lookup_header(&fields, "sec-websocket-key".as_bytes()) {
            Some(v) => v,
            None => {
                return Err(bad_handshake("missing Sec-WebSocket-Key header"));
            },
        };
        let version_bytes = match lookup_header(&fields, "sec-websocket-version".as_bytes()) {
            Some(v) => v,
            None => {
                return Err(bad_handshake("missing Sec-WebSocket-Version header"));
            },
        };
        let version = match parse_dec_u8(version_bytes.as_slice()) {
            Some(v) => v,
            None => {
                return Err(bad_handshake("invalid Sec-WebSocket-Version value"));
            },
        };
        let origin_bytes = lookup_header(&fields, "origin".as_bytes());
        let protocol_pieces: Vec<Vec<u8>> = match lookup_header(
            &fields,
            "sec-websocket-protocol".as_bytes(),
        ) {
            Some(v) => split_trim_vec(v.as_slice(), 0x2c),
            None => Vec::new(),
        };
        let extension_pieces: Vec<Vec<u8>> = match lookup_header(
            &fields,
            "sec-websocket-extensions".as_bytes(),
        ) {
            Some(v) => split_trim_vec(v.as_slice(), 0x2c),
            None => Vec::new(),
        };
        proof {
            if protocol_pieces@.len() == 0 {
                assert(protocol_pieces@.map_values(|p: Vec<u8>| p@) =~= Seq::<Seq<u8>>::empty());
            }
            if extension_pieces@.len() == 0 {
                assert(extension_pieces@.map_values(|p: Vec<u8>| p@) =~= Seq::<Seq<u8>>::empty());
            }
        }

        let path_tok = vstd::slice::slice_to_vec(toks[1].as_slice());
        let path = match utf8_to_string(path_tok) {
            Ok(s) => s,
            Err(_) => {
                return Err(bad_handshake("invalid UTF-8 in request path"));
            },
        };
        let host = match utf8_to_string(host_bytes) {
            Ok(s) => s,
            Err(_) => {
                return Err(bad_handshake("invalid UTF-8 in Host header"));
            },
        };
        let key = match utf8_to_string(key_bytes) {
            Ok(s) => s,
            Err(_) => {
                return Err(bad_handshake("invalid UTF-8 in Sec-WebSocket-Key header"));
            },
        };
        let origin: Option<String> = match origin_bytes {
            Some(v) => match utf8_to_string(v) {
                Ok(s) => Some(s),
                Err(_) => {
                    return Err(bad_handshake("invalid UTF-8 in Origin header"));
                },
            },
            None => None,
        };
        let protocols = match pieces_to_strings(protocol_pieces) {
            Some(ss) => ss,
            None => {
                return Err(bad_handshake("invalid UTF-8 in Sec-WebSocket-Protocol header"));
            },
        };
        let extensions = match pieces_to_strings(extension_pieces) {
            Some(ss) => ss,
            None => {
                return Err(bad_handshake("invalid UTF-8 in Sec-WebSocket-Extensions header"));
            },
        };
        Ok(HandshakeRequest { path, host, key, version, origin, protocols, extensions })
    }

    /// Parse with a size limit first: bytes beyond `max_size` are
    /// refused before any parsing; within it the result is exactly
    /// [`HandshakeRequest::parse`]'s, field for field.
    pub fn parse_with_limit(data: &[u8], max_size: usize) -> (r: Result<Self, Error>)
        ensures
            data@.len() > max_size ==> r == Err::<HandshakeRequest, Error>(
                Error::HandshakeTooLarge { size: data@.len() as usize, max: max_size },
            ),
            data@.len() <= max_size ==> {
                &&& (r is Ok <==> spec_parse_request(data@) is Some)
                &&& (r is Err ==> r->Err_0 matches Error::InvalidHandshake(_))
                &&& (r matches Ok(req) ==> ({
                    let m = spec_parse_request(data@)->0;
                    &&& req.path@ == decode_utf8(m.path)
                    &&& req.host@ == decode_utf8(m.host)
                    &&& req.key@ == decode_utf8(m.key)
                    &&& req.version == m.version
                    &&& (match (req.origin, m.origin) {
                        (Some(s), Some(ob)) => s@ == decode_utf8(ob),
                        (None, None) => true,
                        _ => false,
                    })
                    &&& req.protocols@.len() == m.protocols.len()
                    &&& (forall|i: int|
                        0 <= i < m.protocols.len() ==> (#[trigger] req.protocols@[i])@
                            == decode_utf8(m.protocols[i]))
                    &&& req.extensions@.len() == m.extensions.len()
                    &&& (forall|i: int|
                        0 <= i < m.extensions.len() ==> (#[trigger] req.extensions@[i])@
                            == decode_utf8(m.extensions[i]))
                }))
            },
    {
        if data.len() > max_size {
            return Err(Error::HandshakeTooLarge { size: data.len(), max: max_size });
        }
        HandshakeRequest::parse(data)
    }

    /// Validate the parsed request per RFC 6455: accepted exactly when
    /// the version is 13, the key decodes from base64 to exactly 16
    /// bytes, and the host is non-empty.
    pub fn validate(&self) -> (r: Result<(), Error>)
        ensures
            r is Ok <==> self.version == 13 && (b64_decode_of(self.key@) matches Some(d)
                && d.len() == 16) && self.host@.len() > 0,
            r is Err ==> r->Err_0 matches Error::InvalidHandshake(_),
    {
        if self.version != 13 {
            return Err(bad_handshake("unsupported WebSocket version (expected 13)"));
        }
        match b64_decode(self.key.as_str()) {
            Some(decoded) => {
                if decoded.len() != 16 {
                    return Err(bad_handshake("Sec-WebSocket-Key must decode to 16 bytes"));
                }
            },
            None => {
                return Err(bad_handshake("Sec-WebSocket-Key is not valid base64"));
            },
        }
        if self.host.as_str().is_empty() {
            return Err(bad_handshake("Host header cannot be empty"));
        }
        Ok(())
    }
}

/// The mathematical content of a parsed response.
pub ghost struct ResponseSpec {
    pub accept: Seq<u8>,
    pub protocol: Option<Seq<u8>>,
    pub extensions: Seq<Seq<u8>>,
}

/// What parsing a server response yields: the reference model for
/// [`HandshakeResponse::parse`]. The response is accepted exactly when
/// it is valid UTF-8, its status line starts with `HTTP/1.1 101`,
/// `Upgrade` equals `websocket` case-insensitively, `Connection`
/// contains `upgrade`, and `Sec-WebSocket-Accept` is present.
pub open spec fn spec_parse_response(b: Seq<u8>) -> Option<ResponseSpec> {
    if !valid_utf8(b) {
        None
    } else {
        let sl = line_at(b, 0);
        if !(sl.len() >= 12 && sl.take(12) == "HTTP/1.1 101".spec_bytes()) {
            None
        } else {
            let hs = headers_from(b, next_line_pos(b, 0));
            match find_header(hs, "upgrade".spec_bytes()) {
                None => None,
                Some(up) => {
                    if lower_bytes(up) != "websocket".spec_bytes() {
                        None
                    } else {
                        match find_header(hs, "connection".spec_bytes()) {
                            None => None,
                            Some(conn) => {
                                if !contains_seq(lower_bytes(conn), "upgrade".spec_bytes()) {
                                    None
                                } else {
                                    spec_parse_response_fields(hs)
                                }
                            },
                        }
                    }
                },
            }
        }
    }
}

/// The field extraction half of [`spec_parse_response`].
pub open spec fn spec_parse_response_fields(hs: Seq<(Seq<u8>, Seq<u8>)>) -> Option<ResponseSpec> {
    match find_header(hs, "sec-websocket-accept".spec_bytes()) {
        None => None,
        Some(accept) => {
            let protocol = find_header(hs, "sec-websocket-protocol".spec_bytes());
            let extensions = match find_header(hs, "sec-websocket-extensions".spec_bytes()) {
                None => Seq::empty(),
                Some(e) => split_trim(e, 0x2c),
            };
            if valid_utf8(accept) && (protocol matches Some(p) ==> valid_utf8(p))
                && all_valid_utf8(extensions) {
                Some(ResponseSpec { accept, protocol, extensions })
            } else {
                None
            }
        },
    }
}

/// Whether the UTF-8 bytes of a header value are free of carriage
/// returns and line feeds, so the value cannot break its header line.
pub open spec fn crlf_free(s: Seq<char>) -> bool {
    let b = vstd::utf8::encode_utf8(s);
    forall|i: int| 0 <= i < b.len() ==> #[trigger] b[i] != 0x0d && b[i] != 0x0a
}

/// The exact bytes of a server handshake response.
pub open spec fn response_bytes(
    accept: Seq<char>,
    protocol: Option<Seq<char>>,
    extensions: Seq<Seq<char>>,
) -> Seq<u8> {
    "HTTP/1.1 101 Switching Protocols\r\n".spec_bytes()
        + "Upgrade: websocket\r\n".spec_bytes() + "Connection: Upgrade\r\n".spec_bytes()
        + "Sec-WebSocket-Accept: ".spec_bytes() + vstd::utf8::encode_utf8(accept)
        + "\r\n".spec_bytes() + (match protocol {
        Some(p) => "Sec-WebSocket-Protocol: ".spec_bytes() + vstd::utf8::encode_utf8(p)
            + "\r\n".spec_bytes(),
        None => Seq::empty(),
    }) + extension_lines(extensions) + "\r\n".spec_bytes()
}

/// One `Sec-WebSocket-Extensions` line per negotiated extension.
pub open spec fn extension_lines(extensions: Seq<Seq<char>>) -> Seq<u8>
    decreases extensions.len(),
{
    if extensions.len() == 0 {
        Seq::empty()
    } else {
        "Sec-WebSocket-Extensions: ".spec_bytes() + vstd::utf8::encode_utf8(extensions[0])
            + "\r\n".spec_bytes() + extension_lines(extensions.skip(1))
    }
}

/// A server's handshake response.
#[derive(Debug, Clone, PartialEq, Eq)]
pub struct HandshakeResponse {
    /// The Sec-WebSocket-Accept value.
    pub accept: String,
    /// The selected subprotocol, if any.
    pub protocol: Option<String>,
    /// The negotiated extensions.
    pub extensions: Vec<String>,
}

/// Whether a string's bytes hold a carriage return or line feed.
fn has_crlf(s: &str) -> (r: bool)
    ensures
        r == !crlf_free(s@),
{
    let b = s.as_bytes();
    let n = b.len();
    let mut i: usize = 0;
    while i < n
        invariant
            i <= n,
            n == s.spec_bytes().len(),
            b@ == s.spec_bytes(),
            forall|j: int| 0 <= j < i ==> #[trigger] s.spec_bytes()[j] != 0x0d
                && s.spec_bytes()[j] != 0x0a,
        decreases n - i,
    {
        let c = b[i];
        if c == 0x0d || c == 0x0a {
            return true;
        }
        i = i + 1;
    }
    false
}

impl HandshakeResponse {
    /// Build the response to a validated request: the accept key
    /// computed from the request's key, the client's first offered
    /// subprotocol echoed if it offered any, and no extensions.
    pub fn from_request(req: &HandshakeRequest) -> (r: Self)
        ensures
            r.accept@ == b64_encode_of(
                sha1_of(vstd::utf8::encode_utf8(req.key@) + WS_GUID.spec_bytes()),
            ),
            req.protocols@.len() == 0 ==> r.protocol is None,
            req.protocols@.len() > 0 ==> (r.protocol matches Some(p) && p@ == req.protocols@[0]@),
            r.extensions@.len() == 0,
    {
        let protocol: Option<String> = if req.protocols.len() > 0 {
            Some(String::from_str(req.protocols[0].as_str()))
        } else {
            None
        };
        HandshakeResponse {
            accept: compute_accept_key(req.key.as_str()),
            protocol,
            extensions: Vec::new(),
        }
    }

    /// Append the HTTP response to `buf`. A protocol or extension value
    /// holding a carriage return or line feed is refused — it would
    /// break its header line — and then nothing is written.
    #[verifier::rlimit(100)]
    #[verifier::spinoff_prover]
    pub fn write(&self, buf: &mut Vec<u8>) -> (r: Result<(), Error>)
        ensures
            r is Ok <==> (self.protocol matches Some(p) ==> crlf_free(p@)) && (forall|i: int|
                0 <= i < self.extensions@.len() ==> crlf_free((#[trigger] self.extensions@[i])@)),
            r is Ok ==> final(buf)@ == old(buf)@ + response_bytes(
                self.accept@,
                match self.protocol {
                    Some(p) => Some(p@),
                    None => None,
                },
                self.extensions@.map_values(|e: String| e@),
            ),
            r is Err ==> (r->Err_0 matches Error::InvalidHeaderValue { .. }) && final(buf)@
                == old(buf)@,
    {
        // Refuse values that would break their header line before
        // writing anything.
        match &self.protocol {
            Some(p) => {
                if has_crlf(p.as_str()) {
                    return Err(
                        Error::InvalidHeaderValue {
                            header: String::from_str("Sec-WebSocket-Protocol"),
                            reason: String::from_str("contains CR or LF characters"),
                        },
                    );
                }
            },
            None => {},
        }
        let next = self.extensions.len();
        let mut k: usize = 0;
        while k < next
            invariant
                k <= next,
                next == self.extensions@.len(),
                forall|i: int| 0 <= i < k ==> crlf_free((#[trigger] self.extensions@[i])@),
            decreases next - k,
        {
            if has_crlf(self.extensions[k].as_str()) {
                return Err(
                    Error::InvalidHeaderValue {
                        header: String::from_str("Sec-WebSocket-Extensions"),
                        reason: String::from_str("contains CR or LF characters"),
                    },
                );
            }
            k = k + 1;
        }

        buf.extend_from_slice("HTTP/1.1 101 Switching Protocols\r\n".as_bytes());
        buf.extend_from_slice("Upgrade: websocket\r\n".as_bytes());
        buf.extend_from_slice("Connection: Upgrade\r\n".as_bytes());
        buf.extend_from_slice("Sec-WebSocket-Accept: ".as_bytes());
        buf.extend_from_slice(self.accept.as_str().as_bytes());
        buf.extend_from_slice("\r\n".as_bytes());
        match &self.protocol {
            Some(p) => {
                buf.extend_from_slice("Sec-WebSocket-Protocol: ".as_bytes());
                buf.extend_from_slice(p.as_str().as_bytes());
                buf.extend_from_slice("\r\n".as_bytes());
            },
            None => {},
        }
        let ghost exts = self.extensions@.map_values(|e: String| e@);
        let ghost written_before_exts = buf@;
        let mut k2: usize = 0;
        while k2 < next
            invariant
                k2 <= next,
                next == self.extensions@.len(),
                exts == self.extensions@.map_values(|e: String| e@),
                buf@ == written_before_exts + extension_lines(exts.take(k2 as int)),
            decreases next - k2,
        {
            let ghost before = buf@;
            buf.extend_from_slice("Sec-WebSocket-Extensions: ".as_bytes());
            buf.extend_from_slice(self.extensions[k2].as_str().as_bytes());
            buf.extend_from_slice("\r\n".as_bytes());
            proof {
                lemma_extension_lines_snoc(exts, k2 as int);
                assert(buf@ =~= written_before_exts + extension_lines(exts.take(k2 + 1)));
            }
            k2 = k2 + 1;
        }
        buf.extend_from_slice("\r\n".as_bytes());
        proof {
            assert(exts.take(next as int) =~= exts);
            assert(final(buf)@ =~= old(buf)@ + response_bytes(
                self.accept@,
                match self.protocol {
                    Some(p) => Some(p@),
                    None => None,
                },
                exts,
            ));
        }
        Ok(())
    }

    /// Parse a server handshake response from raw HTTP bytes, exactly
    /// as [`spec_parse_response`] describes.
    pub fn parse(data: &[u8]) -> (r: Result<Self, Error>)
        ensures
            r is Ok <==> spec_parse_response(data@) is Some,
            r matches Ok(resp) ==> ({
                let m = spec_parse_response(data@)->0;
                &&& resp.accept@ == decode_utf8(m.accept)
                &&& (match (resp.protocol, m.protocol) {
                    (Some(s), Some(pb)) => s@ == decode_utf8(pb),
                    (None, None) => true,
                    _ => false,
                })
                &&& resp.extensions@.len() == m.extensions.len()
                &&& (forall|i: int|
                    0 <= i < m.extensions.len() ==> (#[trigger] resp.extensions@[i])@
                        == decode_utf8(m.extensions[i]))
            }),
            r is Err ==> r->Err_0 matches Error::InvalidHandshake(_),
    {
        if validate_utf8(data).is_err() {
            return Err(bad_handshake("invalid UTF-8"));
        }
        let n = data.len();
        let e = find_byte(data, 0x0a, 0);
        proof {
            lemma_find_byte_from(data@, 0x0a, 0);
        }
        let body_end: usize = if e > 0 && data[e - 1] == 0x0d {
            e - 1
        } else {
            e
        };
        let line = vstd::slice::slice_subrange(data, 0, body_end);
        proof {
            assert(line@ =~= line_at(data@, 0));
        }
        if line.len() < 12 {
            return Err(bad_handshake("expected 101 status"));
        }
        let head = vstd::slice::slice_subrange(line, 0, 12);
        if !bytes_eq(head, "HTTP/1.1 101".as_bytes()) {
            proof {
                assert(head@ == line_at(data@, 0).take(12));
            }
            return Err(bad_handshake("expected 101 status"));
        }
        proof {
            assert(head@ == line_at(data@, 0).take(12));
        }

        let hdr_start: usize = if e < n {
            e + 1
        } else {
            e
        };
        proof {
            assert(hdr_start == next_line_pos(data@, 0));
        }
        let fields = collect_headers(data, hdr_start);

        let upgrade = match lookup_header(&fields, "upgrade".as_bytes()) {
            Some(v) => v,
            None => {
                return Err(bad_handshake("missing Upgrade header in response"));
            },
        };
        let up_low = lower_range(upgrade.as_slice(), 0, upgrade.len());
        proof {
            assert(upgrade@.subrange(0, upgrade@.len() as int) =~= upgrade@);
        }
        if !bytes_eq(up_low.as_slice(), "websocket".as_bytes()) {
            return Err(bad_handshake("invalid Upgrade header"));
        }

        let connection = match lookup_header(&fields, "connection".as_bytes()) {
            Some(v) => v,
            None => {
                return Err(bad_handshake("missing Connection header in response"));
            },
        };
        let conn_low = lower_range(connection.as_slice(), 0, connection.len());
        proof {
            assert(connection@.subrange(0, connection@.len() as int) =~= connection@);
        }
        if !contains_sub(conn_low.as_slice(), "upgrade".as_bytes()) {
            return Err(bad_handshake("invalid Connection header"));
        }

        let accept_bytes = match lookup_header(&fields, "sec-websocket-accept".as_bytes()) {
            Some(v) => v,
            None => {
                return Err(bad_handshake("missing Sec-WebSocket-Accept header"));
            },
        };
        let protocol_bytes = lookup_header(&fields, "sec-websocket-protocol".as_bytes());
        let extension_pieces: Vec<Vec<u8>> = match lookup_header(
            &fields,
            "sec-websocket-extensions".as_bytes(),
        ) {
            Some(v) => split_trim_vec(v.as_slice(), 0x2c),
            None => Vec::new(),
        };
        proof {
            if extension_pieces@.len() == 0 {
                assert(extension_pieces@.map_values(|p: Vec<u8>| p@) =~= Seq::<Seq<u8>>::empty());
            }
        }

        let accept = match utf8_to_string(accept_bytes) {
            Ok(s) => s,
            Err(_) => {
                return Err(bad_handshake("invalid UTF-8 in Sec-WebSocket-Accept header"));
            },
        };
        let protocol: Option<String> = match protocol_bytes {
            Some(v) => match utf8_to_string(v) {
                Ok(s) => Some(s),
                Err(_) => {
                    return Err(bad_handshake("invalid UTF-8 in Sec-WebSocket-Protocol header"));
                },
            },
            None => None,
        };
        let extensions = match pieces_to_strings(extension_pieces) {
            Some(ss) => ss,
            None => {
                return Err(bad_handshake("invalid UTF-8 in Sec-WebSocket-Extensions header"));
            },
        };
        Ok(HandshakeResponse { accept, protocol, extensions })
    }
}

/// Appending one extension appends its line.
proof fn lemma_extension_lines_snoc(exts: Seq<Seq<char>>, k: int)
    requires
        0 <= k < exts.len(),
    ensures
        extension_lines(exts.take(k + 1)) == extension_lines(exts.take(k))
            + ("Sec-WebSocket-Extensions: ".spec_bytes() + vstd::utf8::encode_utf8(exts[k])
            + "\r\n".spec_bytes()),
    decreases k,
{
    if k == 0 {
        let t = exts.take(1);
        assert(t.len() == 1);
        assert(t[0] == exts[0]);
        assert(t.skip(1) =~= Seq::<Seq<char>>::empty());
        assert(extension_lines(t.skip(1)) == Seq::<u8>::empty());
        assert(extension_lines(t) == "Sec-WebSocket-Extensions: ".spec_bytes()
            + vstd::utf8::encode_utf8(t[0]) + "\r\n".spec_bytes() + extension_lines(t.skip(1)));
        assert(exts.take(0) =~= Seq::<Seq<char>>::empty());
        assert(extension_lines(exts.take(0)) == Seq::<u8>::empty());
        assert(extension_lines(exts.take(1)) =~= extension_lines(exts.take(0)) + (
        "Sec-WebSocket-Extensions: ".spec_bytes() + vstd::utf8::encode_utf8(exts[0])
            + "\r\n".spec_bytes()));
    } else {
        lemma_extension_lines_snoc(exts.skip(1), k - 1);
        assert(exts.take(k + 1)[0] == exts[0]);
        assert(exts.take(k + 1).skip(1) =~= exts.skip(1).take(k));
        assert(exts.take(k)[0] == exts[0]);
        assert(exts.take(k).skip(1) =~= exts.skip(1).take(k - 1));
        assert(exts.skip(1)[k - 1] == exts[k]);
        assert(extension_lines(exts.take(k + 1)) =~= extension_lines(exts.take(k)) + (
        "Sec-WebSocket-Extensions: ".spec_bytes() + vstd::utf8::encode_utf8(exts[k])
            + "\r\n".spec_bytes()));
    }
}

} // verus!
