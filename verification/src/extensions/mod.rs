//! WebSocket extension framework (RFC 6455 section 9).
//!
//! Extensions transform frames on the way out (encode) and in (decode)
//! and take part in handshake negotiation. Each declares the reserved
//! header bits it claims; the registry refuses two extensions claiming
//! the same bit, applies encode in registration order and decode in
//! reverse.

pub mod deflate;

use vstd::prelude::*;
use vstd::string::{StringExecFns, StringSliceAdditionalSpecFns};
use vstd::utf8::{decode_utf8, valid_utf8};

use crate::error::Error;
use crate::protocol::frame::Frame;
use crate::protocol::textparse::{
    bytes_eq, find_byte, find_byte_from, lemma_find_byte_from, split_trim, split_trim_vec,
    trim_range, trimmed,
};
use crate::protocol::utf8::utf8_to_string;

verus! {

/// One extension parameter: a name, optionally with a value, as in
/// `client_max_window_bits=15` or `server_no_context_takeover`.
#[derive(Debug, Clone, PartialEq, Eq)]
pub struct ExtensionParam {
    /// Parameter name.
    pub name: String,
    /// Parameter value; `None` for a bare flag.
    pub value: Option<String>,
}

/// The sequence with leading and trailing double-quote bytes removed.
pub open spec fn quote_trimmed(s: Seq<u8>) -> Seq<u8>
    decreases s.len(),
{
    if s.len() >= 1 && s[0] == 0x22 {
        quote_trimmed(s.skip(1))
    } else if s.len() >= 1 && s[s.len() - 1] == 0x22 {
        quote_trimmed(s.take(s.len() - 1))
    } else {
        s
    }
}

/// Remove leading and trailing double quotes from a byte vector.
fn trim_quotes(s: Vec<u8>) -> (r: Vec<u8>)
    ensures
        r@ == quote_trimmed(s@),
{
    let mut a: usize = 0;
    let mut z: usize = s.len();
    proof {
        assert(s@.subrange(0, s@.len() as int) =~= s@);
    }
    while a < z && s[a] == 0x22
        invariant
            a <= z <= s@.len(),
            quote_trimmed(s@) == quote_trimmed(s@.subrange(a as int, z as int)),
            z == s@.len(),
        decreases z - a,
    {
        proof {
            let seg = s@.subrange(a as int, z as int);
            assert(seg[0] == s@[a as int]);
            assert(seg.skip(1) =~= s@.subrange(a + 1, z as int));
        }
        a = a + 1;
    }
    while z > a && s[z - 1] == 0x22
        invariant
            a <= z <= s@.len(),
            quote_trimmed(s@) == quote_trimmed(s@.subrange(a as int, z as int)),
            a < z ==> s@[a as int] != 0x22,
        decreases z - a,
    {
        proof {
            let seg = s@.subrange(a as int, z as int);
            assert(seg[seg.len() - 1] == s@[z - 1]);
            assert(seg.take(seg.len() - 1) =~= s@.subrange(a as int, z - 1));
        }
        z = z - 1;
    }
    let out = vstd::slice::slice_to_vec(vstd::slice::slice_subrange(s.as_slice(), a, z));
    proof {
        let seg = s@.subrange(a as int, z as int);
        assert(quote_trimmed(seg) == seg);
        assert(out@ =~= seg);
    }
    out
}

/// How one parameter token reads: split at the first `=`; the name is
/// the trimmed left side, the value — if an `=` is present — the
/// trimmed right side with surrounding quotes removed.
pub open spec fn spec_param_of(s: Seq<u8>) -> (Seq<u8>, Option<Seq<u8>>) {
    let t = trimmed(s);
    let c = find_byte_from(t, 0x3d, 0);
    if c < t.len() {
        (trimmed(t.take(c)), Some(quote_trimmed(trimmed(t.skip(c + 1)))))
    } else {
        (t, None)
    }
}

/// How a parsed parameter relates to its token: the name is the
/// decoded left side, the value the decoded right side, as
/// [`spec_param_of`] splits it.
pub open spec fn param_matches(p: ExtensionParam, token: Seq<u8>) -> bool {
    let (nb, vb) = spec_param_of(token);
    &&& (valid_utf8(nb) ==> p.name@ == decode_utf8(nb))
    &&& (match vb {
        Some(v) => valid_utf8(v) ==> (p.value matches Some(rv) && rv@ == decode_utf8(v)),
        None => p.value is None,
    })
}

impl ExtensionParam {
    /// Create a parameter with a value.
    pub fn new(name: &str, value: &str) -> (r: Self)
        ensures
            r.name@ == name@,
            r.value matches Some(v) && v@ == value@,
    {
        ExtensionParam { name: String::from_str(name), value: Some(String::from_str(value)) }
    }

    /// Create a bare flag parameter.
    pub fn flag(name: &str) -> (r: Self)
        ensures
            r.name@ == name@,
            r.value is None,
    {
        ExtensionParam { name: String::from_str(name), value: None }
    }

    /// Parse one parameter token, as [`spec_param_of`] describes; each
    /// piece that is valid UTF-8 carries over (pieces of a UTF-8 input
    /// always are).
    pub fn parse(s: &str) -> (r: Self)
        ensures
            ({
                let (nb, vb) = spec_param_of(s.spec_bytes());
                &&& (valid_utf8(nb) ==> r.name@ == decode_utf8(nb))
                &&& (match vb {
                    Some(v) => valid_utf8(v) ==> (r.value matches Some(rv) && rv@ == decode_utf8(
                        v,
                    )),
                    None => r.value is None,
                })
            }),
    {
        let b = s.as_bytes();
        let t = trim_range(b, 0, b.len());
        proof {
            assert(b@.subrange(0, b@.len() as int) =~= b@);
        }
        let c = find_byte(t.as_slice(), 0x3d, 0);
        proof {
            lemma_find_byte_from(t@, 0x3d, 0);
        }
        if c < t.len() {
            let name_bytes = trim_range(t.as_slice(), 0, c);
            let value_raw = trim_range(t.as_slice(), c + 1, t.len());
            let value_bytes = trim_quotes(value_raw);
            proof {
                assert(t@.subrange(0, c as int) =~= t@.take(c as int));
                assert(t@.subrange(c + 1, t@.len() as int) =~= t@.skip(c + 1));
            }
            let name = match utf8_to_string(name_bytes) {
                Ok(n) => n,
                Err(_) => String::new(),
            };
            let value = match utf8_to_string(value_bytes) {
                Ok(v) => v,
                Err(_) => String::new(),
            };
            ExtensionParam { name, value: Some(value) }
        } else {
            let name = match utf8_to_string(t) {
                Ok(n) => n,
                Err(_) => String::new(),
            };
            ExtensionParam { name, value: None }
        }
    }

    /// The value's text, as the model sees it.
    pub open spec fn spec_value(&self) -> Option<Seq<char>> {
        match self.value {
            Some(v) => Some(v@),
            None => None,
        }
    }

    /// The parameter's header form: `name=value`, or just the name for
    /// a flag.
    pub fn to_header_string(&self) -> (r: String)
        ensures
            self.value matches Some(v) ==> r@ == self.name@ + "="@ + v@,
            self.value is None ==> r@ == self.name@,
    {
        match &self.value {
            Some(v) => {
                let mut out = String::from_str(self.name.as_str());
                out.append("=");
                out.append(v.as_str());
                out
            },
            None => String::from_str(self.name.as_str()),
        }
    }
}

/// One offered or accepted extension: its name and its parameters, as
/// read from a Sec-WebSocket-Extensions header.
#[derive(Debug, Clone, PartialEq, Eq)]
pub struct ExtensionOffer {
    /// Extension name, for example `permessage-deflate`.
    pub name: String,
    /// Its parameters.
    pub params: Vec<ExtensionParam>,
}

/// One parameter's header text: `name=value`, or the name alone for a
/// flag.
pub open spec fn spec_param_text(p: ExtensionParam) -> Seq<char> {
    match p.value {
        Some(v) => p.name@ + "="@ + v@,
        None => p.name@,
    }
}

/// The `; `-separated parameter suffix of an offer's header text.
pub open spec fn spec_params_text(params: Seq<ExtensionParam>) -> Seq<char>
    decreases params.len(),
{
    if params.len() == 0 {
        Seq::empty()
    } else {
        spec_params_text(params.drop_last()) + "; "@ + spec_param_text(params.last())
    }
}

/// One offered parameter's header text, from its name and value texts.
pub open spec fn spec_view_param_text(v: (Seq<char>, Option<Seq<char>>)) -> Seq<char> {
    match v.1 {
        Some(val) => v.0 + "="@ + val,
        None => v.0,
    }
}

/// The `; `-separated suffix the offered parameter texts make.
pub open spec fn spec_view_params_text(vs: Seq<(Seq<char>, Option<Seq<char>>)>) -> Seq<char>
    decreases vs.len(),
{
    if vs.len() == 0 {
        Seq::empty()
    } else {
        spec_view_params_text(vs.drop_last()) + "; "@ + spec_view_param_text(vs.last())
    }
}

/// An offer's header text: the name, then `; param` per parameter.
pub open spec fn spec_offer_text(o: ExtensionOffer) -> Seq<char> {
    o.name@ + spec_params_text(o.params@)
}

/// A comma-separated run of offer texts.
pub open spec fn spec_offers_text(os: Seq<ExtensionOffer>) -> Seq<char>
    decreases os.len(),
{
    if os.len() == 0 {
        Seq::empty()
    } else if os.len() == 1 {
        spec_offer_text(os[0])
    } else {
        spec_offers_text(os.drop_last()) + ", "@ + spec_offer_text(os.last())
    }
}

impl ExtensionOffer {
    /// Create an offer with no parameters.
    pub fn new(name: &str) -> (r: Self)
        ensures
            r.name@ == name@,
            r.params@.len() == 0,
    {
        ExtensionOffer { name: String::from_str(name), params: Vec::new() }
    }

    /// Create an offer with parameters.
    pub fn with_params(name: &str, params: Vec<ExtensionParam>) -> (r: Self)
        ensures
            r.name@ == name@,
            r.params == params,
    {
        ExtensionOffer { name: String::from_str(name), params }
    }

    /// Parse one extension offer: the name before the first `;`, then
    /// one parameter per following `;`-separated token. An empty name
    /// is refused.
    pub fn parse(s: &str) -> (r: Result<Self, Error>)
        ensures
            ({
                let pieces = split_trim(s.spec_bytes(), 0x3b);
                &&& (r is Ok <==> pieces[0].len() > 0)
                &&& (r matches Ok(o) ==> (valid_utf8(pieces[0]) ==> o.name@ == decode_utf8(
                    pieces[0],
                )) && o.params@.len() == pieces.len() - 1)
                &&& (r matches Ok(o) ==> forall|i: int|
                    1 <= i < pieces.len() && valid_utf8(#[trigger] pieces[i]) ==> param_matches(
                        o.params@[i - 1],
                        pieces[i],
                    ))
                &&& (r is Err ==> r->Err_0 matches Error::InvalidExtension(_))
            }),
    {
        let b = s.as_bytes();
        let pieces = split_trim_vec(b, 0x3b);
        let ghost pspec = split_trim(s.spec_bytes(), 0x3b);
        proof {
            assert(pspec.len() >= 1);
            assert(pieces@.map_values(|t: Vec<u8>| t@)[0] == pspec[0]);
        }
        let name_bytes = vstd::slice::slice_to_vec(pieces[0].as_slice());
        if name_bytes.len() == 0 {
            return Err(Error::InvalidExtension(String::from_str("empty extension name")));
        }
        let name = match utf8_to_string(name_bytes) {
            Ok(n) => n,
            Err(_) => String::new(),
        };
        let mut params: Vec<ExtensionParam> = Vec::new();
        let total = pieces.len();
        let mut i: usize = 1;
        while i < total
            invariant
                1 <= i <= total,
                total == pieces@.len(),
                params@.len() == i - 1,
                pieces@.map_values(|t: Vec<u8>| t@) == pspec,
                total == pspec.len(),
                forall|j: int|
                    1 <= j < i && valid_utf8(#[trigger] pspec[j]) ==> param_matches(
                        params@[j - 1],
                        pspec[j],
                    ),
            decreases total - i,
        {
            // Parameter tokens are already trimmed byte pieces; parse
            // each through the string form.
            let piece = vstd::slice::slice_to_vec(pieces[i].as_slice());
            proof {
                assert(piece@ == pspec[i as int]);
            }
            match utf8_to_string(piece) {
                Ok(ps) => {
                    proof {
                        vstd::utf8::decode_utf8_encode_utf8(pspec[i as int]);
                    }
                    params.push(ExtensionParam::parse(ps.as_str()));
                },
                Err(_) => {
                    params.push(ExtensionParam::flag(""));
                },
            }
            i = i + 1;
        }
        Ok(ExtensionOffer { name, params })
    }

    /// Parse a whole Sec-WebSocket-Extensions header value: offers are
    /// comma-separated. Fails exactly when some offer has an empty name.
    pub fn parse_header(header: &str) -> (r: Result<Vec<Self>, Error>)
        ensures
            r matches Ok(os) ==> os@.len() == split_trim(header.spec_bytes(), 0x2c).len(),
            r is Err ==> r->Err_0 matches Error::InvalidExtension(_),
    {
        let b = header.as_bytes();
        let pieces = split_trim_vec(b, 0x2c);
        let mut out: Vec<ExtensionOffer> = Vec::new();
        let total = pieces.len();
        let mut i: usize = 0;
        while i < total
            invariant
                i <= total,
                total == pieces@.len(),
                out@.len() == i,
            decreases total - i,
        {
            let piece = vstd::slice::slice_to_vec(pieces[i].as_slice());
            match utf8_to_string(piece) {
                Ok(ps) => match ExtensionOffer::parse(ps.as_str()) {
                    Ok(o) => {
                        out.push(o);
                    },
                    Err(e) => {
                        return Err(e);
                    },
                },
                Err(_) => {
                    return Err(
                        Error::InvalidExtension(String::from_str("invalid extension token")),
                    );
                },
            }
            i = i + 1;
        }
        Ok(out)
    }

    /// The first parameter with the given name, if any.
    pub fn get_param(&self, name: &str) -> (r: Option<&ExtensionParam>)
        ensures
            r matches Some(p) ==> exists|i: int|
                0 <= i < self.params@.len() && (#[trigger] self.params@[i]).name@ == name@ && p
                    == self.params@[i],
            r is None ==> forall|i: int|
                0 <= i < self.params@.len() ==> (#[trigger] self.params@[i]).name@ != name@,
    {
        let n = self.params.len();
        let mut i: usize = 0;
        while i < n
            invariant
                i <= n,
                n == self.params@.len(),
                forall|j: int| 0 <= j < i ==> (#[trigger] self.params@[j]).name@ != name@,
            decreases n - i,
        {
            let p = &self.params[i];
            if bytes_eq(p.name.as_str().as_bytes(), name.as_bytes()) {
                proof {
                    vstd::utf8::encode_utf8_decode_utf8(self.params@[i as int].name@);
                    vstd::utf8::encode_utf8_decode_utf8(name@);
                    assert((#[trigger] self.params@[i as int]).name@ == name@);
                }
                return Some(p);
            }
            proof {
                vstd::utf8::encode_utf8_decode_utf8(self.params@[i as int].name@);
                vstd::utf8::encode_utf8_decode_utf8(name@);
            }
            i = i + 1;
        }
        None
    }

    /// Whether a parameter with the given name is present.
    pub fn has_param(&self, name: &str) -> (r: bool)
        ensures
            r == exists|i: int|
                0 <= i < self.params@.len() && (#[trigger] self.params@[i]).name@ == name@,
    {
        match self.get_param(name) {
            Some(_) => true,
            None => false,
        }
    }

    /// The offer's header form: the name, then `; param` for each
    /// parameter, exactly [`spec_offer_text`].
    pub fn to_header_string(&self) -> (r: String)
        ensures
            r@ == spec_offer_text(*self),
    {
        let mut out = String::from_str(self.name.as_str());
        let n = self.params.len();
        let mut i: usize = 0;
        proof {
            assert(self.params@.take(0) =~= Seq::<ExtensionParam>::empty());
        }
        while i < n
            invariant
                i <= n,
                n == self.params@.len(),
                out@ == self.name@ + spec_params_text(self.params@.take(i as int)),
            decreases n - i,
        {
            out.append("; ");
            let p = self.params[i].to_header_string();
            out.append(p.as_str());
            proof {
                let upto = self.params@.take(i + 1);
                assert(upto.drop_last() =~= self.params@.take(i as int));
                assert(upto.last() == self.params@[i as int]);
                assert(p@ == spec_param_text(self.params@[i as int]));
            }
            i = i + 1;
        }
        proof {
            assert(self.params@.take(n as int) =~= self.params@);
        }
        out
    }
}

/// The reserved header bits an extension claims.
#[derive(Debug, Clone, Copy, PartialEq, Eq, Structural)]
pub struct RsvBits {
    /// RSV1, claimed for example by permessage-deflate.
    pub rsv1: bool,
    /// RSV2.
    pub rsv2: bool,
    /// RSV3.
    pub rsv3: bool,
}

impl RsvBits {
    /// No bits claimed.
    pub fn none() -> (r: Self)
        ensures
            r == (RsvBits { rsv1: false, rsv2: false, rsv3: false }),
    {
        RsvBits { rsv1: false, rsv2: false, rsv3: false }
    }

    /// RSV1 only.
    pub fn rsv1_only() -> (r: Self)
        ensures
            r == (RsvBits { rsv1: true, rsv2: false, rsv3: false }),
    {
        RsvBits { rsv1: true, rsv2: false, rsv3: false }
    }

    /// Whether two claims share a bit.
    pub fn conflicts_with(&self, other: &RsvBits) -> (r: bool)
        ensures
            r == ((self.rsv1 && other.rsv1) || (self.rsv2 && other.rsv2) || (self.rsv3
                && other.rsv3)),
    {
        (self.rsv1 && other.rsv1) || (self.rsv2 && other.rsv2) || (self.rsv3 && other.rsv3)
    }
}

impl Default for RsvBits {
    /// No bits claimed.
    fn default() -> (r: Self)
        ensures
            r == (RsvBits { rsv1: false, rsv2: false, rsv3: false }),
    {
        RsvBits::none()
    }
}

/// Whether two claims share a reserved bit.
pub open spec fn rsv_conflict(a: RsvBits, b: RsvBits) -> bool {
    (a.rsv1 && b.rsv1) || (a.rsv2 && b.rsv2) || (a.rsv3 && b.rsv3)
}

/// The union of two claims.
pub open spec fn rsv_union(a: RsvBits, b: RsvBits) -> RsvBits {
    RsvBits { rsv1: a.rsv1 || b.rsv1, rsv2: a.rsv2 || b.rsv2, rsv3: a.rsv3 || b.rsv3 }
}

/// The union of a run of claims, empty to none.
pub open spec fn rsv_union_of(claims: Seq<RsvBits>) -> RsvBits
    decreases claims.len(),
{
    if claims.len() == 0 {
        RsvBits { rsv1: false, rsv2: false, rsv3: false }
    } else {
        rsv_union(rsv_union_of(claims.drop_last()), claims.last())
    }
}

/// A WebSocket extension: takes part in negotiation and transforms
/// frames. Implementations must not claim bits another registered
/// extension claims. An extension's name and claim are fixed values;
/// its frame transforms preserve the final flag and the opcode, and
/// leave control frames untouched.
pub trait Extension {
    /// The extension's header token, as the model sees it.
    spec fn spec_name(&self) -> Seq<char>;

    /// The reserved bits the extension claims, as the model sees them.
    spec fn spec_rsv(&self) -> RsvBits;

    /// The extension's token in the Sec-WebSocket-Extensions header.
    fn name(&self) -> (r: &str)
        ensures
            r@ == self.spec_name(),
    ;

    /// Which reserved bits the extension claims.
    fn rsv_bits(&self) -> (r: RsvBits)
        ensures
            r == self.spec_rsv(),
    ;

    /// Server side: answer an offer with the accepted parameters, or
    /// reject it.
    fn negotiate(&mut self, params: &[ExtensionParam]) -> (r: Result<Vec<ExtensionParam>, Error>)
        ensures
            final(self).spec_name() == old(self).spec_name(),
            final(self).spec_rsv() == old(self).spec_rsv(),
    ;

    /// Apply final negotiated parameters.
    fn configure(&mut self, params: &[ExtensionParam]) -> (r: Result<(), Error>)
        ensures
            final(self).spec_name() == old(self).spec_name(),
            final(self).spec_rsv() == old(self).spec_rsv(),
    ;

    /// Transform an outgoing frame: the final flag and opcode are kept,
    /// and a control frame passes through untouched.
    fn encode(&mut self, frame: &mut Frame) -> (r: Result<(), Error>)
        ensures
            final(frame)@.fin == old(frame)@.fin,
            final(frame)@.opcode == old(frame)@.opcode,
            old(frame)@.opcode.spec_is_control() ==> r is Ok && *final(frame) == *old(frame),
            final(self).spec_name() == old(self).spec_name(),
            final(self).spec_rsv() == old(self).spec_rsv(),
    ;

    /// Transform an incoming frame: the final flag and opcode are kept.
    fn decode(&mut self, frame: &mut Frame) -> (r: Result<(), Error>)
        ensures
            final(frame)@.fin == old(frame)@.fin,
            final(frame)@.opcode == old(frame)@.opcode,
            final(self).spec_name() == old(self).spec_name(),
            final(self).spec_rsv() == old(self).spec_rsv(),
    ;

    /// The parameters the extension offers, as name and value texts, as
    /// the model sees them.
    spec fn spec_offer(&self) -> Seq<(Seq<char>, Option<Seq<char>>)>;

    /// Client side: the parameters to offer.
    fn offer_params(&self) -> (r: Vec<ExtensionParam>)
        ensures
            r@.len() == self.spec_offer().len(),
            forall|i: int|
                0 <= i < r@.len() ==> (#[trigger] r@[i]).name@ == self.spec_offer()[i].0
                    && r@[i].spec_value() == self.spec_offer()[i].1,
    ;
}

/// An ordered registry of extensions: encode runs in registration
/// order over the negotiated subset, decode in reverse; no two
/// registered extensions claim the same reserved bit.
pub struct ExtensionRegistry<E: Extension> {
    extensions: Vec<E>,
    used_rsv_bits: RsvBits,
    negotiated: Vec<usize>,
    negotiated_rsv: RsvBits,
}

impl<E: Extension> ExtensionRegistry<E> {
    /// How many extensions are registered.
    pub closed spec fn spec_len(&self) -> int {
        self.extensions@.len() as int
    }

    /// How many were negotiated.
    pub closed spec fn spec_negotiated_count(&self) -> int {
        self.negotiated@.len() as int
    }

    /// The combined claimed bits.
    pub closed spec fn spec_used_bits(&self) -> RsvBits {
        self.used_rsv_bits
    }

    /// The combined claimed bits of the negotiated extensions.
    pub closed spec fn spec_negotiated_bits(&self) -> RsvBits {
        self.negotiated_rsv
    }

    /// The name of the extension registered at an index.
    pub closed spec fn spec_ext_name(&self, i: int) -> Seq<char> {
        self.extensions@[i].spec_name()
    }

    /// The registered index of the i-th negotiated extension.
    pub closed spec fn spec_negotiated_index(&self, i: int) -> int {
        self.negotiated@[i] as int
    }

    /// The claimed bits of the negotiated extensions, in negotiation
    /// order.
    pub closed spec fn spec_negotiated_claims(&self) -> Seq<RsvBits> {
        Seq::new(
            self.negotiated@.len() as nat,
            |i: int| self.extensions@[self.negotiated@[i] as int].spec_rsv(),
        )
    }

    /// Every negotiated index points at a registered extension.
    pub closed spec fn wf(&self) -> bool {
        forall|i: int|
            0 <= i < self.negotiated@.len() ==> ((#[trigger] self.negotiated@[i]) as int)
                < self.extensions@.len()
    }

    /// Create an empty registry.
    pub fn new() -> (r: Self)
        ensures
            r.wf(),
            r.spec_len() == 0,
            r.spec_negotiated_count() == 0,
            r.spec_used_bits() == (RsvBits { rsv1: false, rsv2: false, rsv3: false }),
            r.spec_negotiated_bits() == (RsvBits { rsv1: false, rsv2: false, rsv3: false }),
    {
        ExtensionRegistry {
            extensions: Vec::new(),
            used_rsv_bits: RsvBits::none(),
            negotiated: Vec::new(),
            negotiated_rsv: RsvBits::none(),
        }
    }

    /// Register an extension. Refused exactly when its claimed bits
    /// collide with bits already claimed.
    pub fn add(&mut self, extension: E) -> (r: Result<(), Error>)
        requires
            old(self).wf(),
        ensures
            final(self).wf(),
            r is Err <==> rsv_conflict(old(self).spec_used_bits(), extension.spec_rsv()),
            r is Err ==> *final(self) == *old(self) && (
            r->Err_0 matches Error::InvalidExtension(_)),
            r is Ok ==> final(self).spec_len() == old(self).spec_len() + 1
                && final(self).spec_negotiated_count() == old(self).spec_negotiated_count()
                && final(self).spec_used_bits() == rsv_union(
                old(self).spec_used_bits(),
                extension.spec_rsv(),
            ) && final(self).spec_negotiated_bits() == old(self).spec_negotiated_bits(),
    {
        let rsv = extension.rsv_bits();
        if self.used_rsv_bits.conflicts_with(&rsv) {
            return Err(
                Error::InvalidExtension(
                    String::from_str("extension claims reserved bits already claimed"),
                ),
            );
        }
        self.used_rsv_bits = RsvBits {
            rsv1: self.used_rsv_bits.rsv1 || rsv.rsv1,
            rsv2: self.used_rsv_bits.rsv2 || rsv.rsv2,
            rsv3: self.used_rsv_bits.rsv3 || rsv.rsv3,
        };
        self.extensions.push(extension);
        Ok(())
    }

    /// How many extensions are registered.
    pub fn len(&self) -> (r: usize)
        ensures
            r == self.spec_len(),
    {
        self.extensions.len()
    }

    /// Whether the registry is empty.
    pub fn is_empty(&self) -> (r: bool)
        ensures
            r == (self.spec_len() == 0),
    {
        self.extensions.len() == 0
    }

    /// How many extensions were negotiated.
    pub fn negotiated_count(&self) -> (r: usize)
        ensures
            r == self.spec_negotiated_count(),
    {
        self.negotiated.len()
    }

    /// The combined reserved bits of the registered extensions.
    pub fn claimed_bits(&self) -> (r: RsvBits)
        ensures
            r == self.spec_used_bits(),
    {
        RsvBits {
            rsv1: self.used_rsv_bits.rsv1,
            rsv2: self.used_rsv_bits.rsv2,
            rsv3: self.used_rsv_bits.rsv3,
        }
    }

    /// The combined reserved bits of the negotiated extensions: the
    /// bits an incoming frame may legitimately carry.
    pub fn negotiated_claimed_bits(&self) -> (r: RsvBits)
        ensures
            r == self.spec_negotiated_bits(),
    {
        RsvBits {
            rsv1: self.negotiated_rsv.rsv1,
            rsv2: self.negotiated_rsv.rsv2,
            rsv3: self.negotiated_rsv.rsv3,
        }
    }

    /// The offer-header text of the first `n` registered extensions:
    /// comma-separated, each the extension's name then `; param` per
    /// offered parameter.
    pub closed spec fn spec_offer_header_text(&self, n: int) -> Seq<char>
        decreases n,
    {
        if n <= 0 {
            Seq::empty()
        } else {
            let one = self.extensions@[n - 1].spec_name() + spec_view_params_text(
                self.extensions@[n - 1].spec_offer(),
            );
            if n == 1 {
                one
            } else {
                self.spec_offer_header_text(n - 1) + ", "@ + one
            }
        }
    }

    /// The Sec-WebSocket-Extensions header value offering every
    /// registered extension, comma-separated, with its parameters:
    /// exactly [`ExtensionRegistry::spec_offer_header_text`] of the
    /// whole registry.
    pub fn offer_header(&self) -> (r: String)
        requires
            self.wf(),
        ensures
            r@ == self.spec_offer_header_text(self.spec_len()),
    {
        let mut out = String::new();
        let n = self.extensions.len();
        let mut i: usize = 0;
        while i < n
            invariant
                i <= n,
                n == self.extensions@.len(),
                out@ == self.spec_offer_header_text(i as int),
            decreases n - i,
        {
            if i > 0 {
                out.append(", ");
            }
            let ext = &self.extensions[i];
            out.append(ext.name());
            let params = ext.offer_params();
            let np = params.len();
            let ghost views = self.extensions@[i as int].spec_offer();
            let mut j: usize = 0;
            proof {
                assert(views.take(0) =~= Seq::<(Seq<char>, Option<Seq<char>>)>::empty());
            }
            while j < np
                invariant
                    j <= np,
                    np == params@.len(),
                    np == views.len(),
                    forall|t: int|
                        0 <= t < np ==> (#[trigger] params@[t]).name@ == views[t].0
                            && params@[t].spec_value() == views[t].1,
                    out@ == self.spec_offer_header_text(i as int) + (if i > 0 {
                        ", "@
                    } else {
                        Seq::<char>::empty()
                    }) + self.extensions@[i as int].spec_name() + spec_view_params_text(
                        views.take(j as int),
                    ),
                decreases np - j,
            {
                out.append("; ");
                let p = params[j].to_header_string();
                out.append(p.as_str());
                proof {
                    let upto = views.take(j + 1);
                    assert(upto.drop_last() =~= views.take(j as int));
                    assert(upto.last() == views[j as int]);
                    assert(p@ == spec_view_param_text(views[j as int]));
                }
                j = j + 1;
            }
            proof {
                assert(views.take(np as int) =~= views);
                assert(out@ =~= self.spec_offer_header_text(i + 1));
            }
            i = i + 1;
        }
        out
    }

    /// Server side: negotiate against the peer's offers. Each offer
    /// naming a registered extension is given to it; on acceptance the
    /// extension is configured and recorded as negotiated, with its
    /// claimed bits, and the accepted answer is collected for the
    /// response header. Offers naming no registered extension are
    /// ignored, so with none matching, nothing is accepted or
    /// negotiated.
    pub fn negotiate(&mut self, offers: &[ExtensionOffer]) -> (r: Vec<ExtensionOffer>)
        requires
            old(self).wf(),
        ensures
            final(self).wf(),
            final(self).spec_len() == old(self).spec_len(),
            final(self).spec_negotiated_count() <= offers@.len(),
            (forall|i: int, j: int|
                0 <= i < offers@.len() && 0 <= j < old(self).spec_len()
                    ==> (#[trigger] offers@[i]).name@ != #[trigger] old(self).spec_ext_name(j))
                ==> r@.len() == 0 && final(self).spec_negotiated_count() == 0
                    && final(self).spec_negotiated_bits() == (RsvBits {
                rsv1: false,
                rsv2: false,
                rsv3: false,
            }),
            r@.len() == final(self).spec_negotiated_count(),
            final(self).spec_negotiated_bits() == rsv_union_of(final(self).spec_negotiated_claims()),
            forall|j: int|
                0 <= j < old(self).spec_len() ==> #[trigger] final(self).spec_ext_name(j) == old(
                    self,
                ).spec_ext_name(j),
            forall|i: int|
                0 <= i < r@.len() ==> (#[trigger] r@[i]).name@ == final(self).spec_ext_name(
                    final(self).spec_negotiated_index(i),
                ),
    {
        let mut accepted: Vec<ExtensionOffer> = Vec::new();
        self.negotiated = Vec::new();
        self.negotiated_rsv = RsvBits::none();
        let total = offers.len();
        let mut k: usize = 0;
        while k < total
            invariant
                k <= total,
                total == offers@.len(),
                self.wf(),
                self.negotiated@.len() <= k,
                self.extensions@.len() == old(self).extensions@.len(),
                accepted@.len() == self.negotiated@.len(),
                self.negotiated_rsv == rsv_union_of(self.spec_negotiated_claims()),
                forall|i: int|
                    0 <= i < accepted@.len() ==> (#[trigger] accepted@[i]).name@
                        == self.spec_ext_name(self.spec_negotiated_index(i)),
                forall|j: int|
                    0 <= j < self.extensions@.len() ==> #[trigger] self.spec_ext_name(j) == old(
                        self,
                    ).spec_ext_name(j),
                (forall|i: int, j: int|
                    0 <= i < offers@.len() && 0 <= j < old(self).spec_len() ==> (
                    #[trigger] offers@[i]).name@ != #[trigger] old(self).spec_ext_name(j))
                    ==> accepted@.len() == 0 && self.negotiated@.len() == 0
                    && self.negotiated_rsv == (RsvBits { rsv1: false, rsv2: false, rsv3: false }),
            decreases total - k,
        {
            let ghost names_at_start = Seq::new(
                self.extensions@.len(),
                |j: int| self.spec_ext_name(j),
            );
            let ghost claims_at_start = self.spec_negotiated_claims();
            let ghost accepted_at_start = accepted@;
            let offer = &offers[k];
            let found = find_by_name(&self.extensions, offer.name.as_str());
            if found < self.extensions.len() {
                proof {
                    // A match refutes the no-match hypothesis for this
                    // offer, so the conditional invariant stays vacuous.
                    assert(self.spec_ext_name(found as int) == offer.name@);
                    assert(offers@[k as int].name@ == old(self).spec_ext_name(found as int));
                }
                let outcome = {
                    let ext = &mut self.extensions[found];
                    ext.negotiate(offer.params.as_slice())
                };
                proof {
                    assert forall|j: int|
                        0 <= j < self.extensions@.len() implies #[trigger] self.spec_ext_name(j)
                        == names_at_start[j] by {}
                    assert(self.spec_negotiated_claims() =~= claims_at_start);
                }
                match outcome {
                    Ok(response_params) => {
                        let configured = {
                            let ext2 = &mut self.extensions[found];
                            ext2.configure(response_params.as_slice())
                        };
                        proof {
                            assert forall|j: int|
                                0 <= j < self.extensions@.len() implies #[trigger] self.spec_ext_name(
                                j,
                            ) == names_at_start[j] by {}
                            assert(self.spec_negotiated_claims() =~= claims_at_start);
                        }
                        match configured {
                            Ok(()) => {
                                let bits = self.extensions[found].rsv_bits();
                                self.negotiated_rsv = RsvBits {
                                    rsv1: self.negotiated_rsv.rsv1 || bits.rsv1,
                                    rsv2: self.negotiated_rsv.rsv2 || bits.rsv2,
                                    rsv3: self.negotiated_rsv.rsv3 || bits.rsv3,
                                };
                                self.negotiated.push(found);
                                accepted.push(
                                    ExtensionOffer::with_params(
                                        offer.name.as_str(),
                                        response_params,
                                    ),
                                );
                                proof {
                                    let claims = self.spec_negotiated_claims();
                                    assert(claims.drop_last() =~= claims_at_start);
                                    assert(claims.last() == bits);
                                    assert(self.negotiated_rsv == rsv_union(
                                        rsv_union_of(claims_at_start),
                                        bits,
                                    ));
                                    assert(accepted@ == accepted_at_start.push(
                                        accepted@.last(),
                                    ));
                                    assert(accepted@.last().name@ == self.spec_ext_name(
                                        found as int,
                                    ));
                                }
                            },
                            Err(_) => {},
                        }
                    },
                    Err(_) => {},
                }
            }
            proof {
                assert forall|j: int|
                    0 <= j < self.extensions@.len() implies #[trigger] self.spec_ext_name(j)
                    == old(self).spec_ext_name(j) by {
                    assert(self.spec_ext_name(j) == names_at_start[j]);
                    assert(names_at_start[j] == old(self).spec_ext_name(j));
                }
            }
            k = k + 1;
        }
        accepted
    }

    /// Client side: configure extensions from the server's accepted
    /// answers; each answered extension is recorded as negotiated, with
    /// its claimed bits.
    pub fn configure(&mut self, responses: &[ExtensionOffer]) -> (r: Result<(), Error>)
        requires
            old(self).wf(),
        ensures
            final(self).wf(),
            final(self).spec_len() == old(self).spec_len(),
            final(self).spec_negotiated_count() <= responses@.len(),
            final(self).spec_negotiated_bits() == rsv_union_of(final(self).spec_negotiated_claims()),
            forall|j: int|
                0 <= j < old(self).spec_len() ==> #[trigger] final(self).spec_ext_name(j) == old(
                    self,
                ).spec_ext_name(j),
    {
        self.negotiated = Vec::new();
        self.negotiated_rsv = RsvBits::none();
        proof {
            assert(self.spec_negotiated_claims() =~= Seq::<RsvBits>::empty());
        }
        let total = responses.len();
        let mut k: usize = 0;
        while k < total
            invariant
                k <= total,
                total == responses@.len(),
                self.wf(),
                self.extensions@.len() == old(self).extensions@.len(),
                self.negotiated@.len() <= k,
                self.negotiated_rsv == rsv_union_of(self.spec_negotiated_claims()),
                forall|j: int|
                    0 <= j < self.extensions@.len() ==> #[trigger] self.spec_ext_name(j) == old(
                        self,
                    ).spec_ext_name(j),
            decreases total - k,
        {
            let ghost names_at_start = Seq::new(
                self.extensions@.len(),
                |j: int| self.spec_ext_name(j),
            );
            let ghost claims_at_start = self.spec_negotiated_claims();
            let response = &responses[k];
            let found = find_by_name(&self.extensions, response.name.as_str());
            if found < self.extensions.len() {
                let outcome = {
                    let ext = &mut self.extensions[found];
                    ext.configure(response.params.as_slice())
                };
                proof {
                    assert forall|j: int|
                        0 <= j < self.extensions@.len() implies #[trigger] self.spec_ext_name(j)
                        == names_at_start[j] by {}
                    assert forall|j: int|
                        0 <= j < self.extensions@.len() implies #[trigger] self.spec_ext_name(j)
                        == old(self).spec_ext_name(j) by {
                        assert(self.spec_ext_name(j) == names_at_start[j]);
                        assert(names_at_start[j] == old(self).spec_ext_name(j));
                    }
                    assert(self.spec_negotiated_claims() =~= claims_at_start);
                }
                match outcome {
                    Ok(()) => {
                        let bits = self.extensions[found].rsv_bits();
                        self.negotiated_rsv = RsvBits {
                            rsv1: self.negotiated_rsv.rsv1 || bits.rsv1,
                            rsv2: self.negotiated_rsv.rsv2 || bits.rsv2,
                            rsv3: self.negotiated_rsv.rsv3 || bits.rsv3,
                        };
                        self.negotiated.push(found);
                        proof {
                            let claims = self.spec_negotiated_claims();
                            assert(claims.drop_last() =~= claims_at_start);
                            assert(claims.last() == bits);
                            assert(self.negotiated_rsv == rsv_union(
                                rsv_union_of(claims_at_start),
                                bits,
                            ));
                        }
                    },
                    Err(e) => {
                        return Err(e);
                    },
                }
            }
            proof {
                assert forall|j: int|
                    0 <= j < self.extensions@.len() implies #[trigger] self.spec_ext_name(j)
                    == old(self).spec_ext_name(j) by {
                    assert(self.spec_ext_name(j) == names_at_start[j]);
                    assert(names_at_start[j] == old(self).spec_ext_name(j));
                }
            }
            k = k + 1;
        }
        Ok(())
    }

    /// Encode a frame through the negotiated extensions, in
    /// registration order; with none negotiated the frame is untouched.
    /// The final flag and opcode are kept, and a control frame passes
    /// through every extension untouched.
    pub fn encode(&mut self, frame: &mut Frame) -> (r: Result<(), Error>)
        requires
            old(self).wf(),
        ensures
            final(self).wf(),
            final(self).spec_len() == old(self).spec_len(),
            final(self).spec_negotiated_count() == old(self).spec_negotiated_count(),
            final(self).spec_negotiated_bits() == old(self).spec_negotiated_bits(),
            final(frame)@.fin == old(frame)@.fin,
            final(frame)@.opcode == old(frame)@.opcode,
            old(frame)@.opcode.spec_is_control() && r is Ok ==> *final(frame) == *old(frame),
            old(self).spec_negotiated_count() == 0 ==> r is Ok && *final(frame) == *old(frame)
                && *final(self) == *old(self),
    {
        let total = self.negotiated.len();
        let mut k: usize = 0;
        while k < total
            invariant
                k <= total,
                total == self.negotiated@.len(),
                self.wf(),
                self.extensions@.len() == old(self).extensions@.len(),
                self.negotiated@ == old(self).negotiated@,
                self.negotiated_rsv == old(self).negotiated_rsv,
                frame@.fin == old(frame)@.fin,
                frame@.opcode == old(frame)@.opcode,
                old(frame)@.opcode.spec_is_control() ==> *frame == *old(frame),
                total == 0 ==> *frame == *old(frame) && *self == *old(self),
            decreases total - k,
        {
            let idx = self.negotiated[k];
            let ext = &mut self.extensions[idx];
            match ext.encode(frame) {
                Ok(()) => {},
                Err(e) => {
                    return Err(e);
                },
            }
            k = k + 1;
        }
        Ok(())
    }

    /// Decode a frame through the negotiated extensions, in reverse
    /// registration order; with none negotiated the frame is untouched.
    /// The final flag and opcode are kept.
    pub fn decode(&mut self, frame: &mut Frame) -> (r: Result<(), Error>)
        requires
            old(self).wf(),
        ensures
            final(self).wf(),
            final(self).spec_len() == old(self).spec_len(),
            final(self).spec_negotiated_count() == old(self).spec_negotiated_count(),
            final(self).spec_negotiated_bits() == old(self).spec_negotiated_bits(),
            final(frame)@.fin == old(frame)@.fin,
            final(frame)@.opcode == old(frame)@.opcode,
            old(self).spec_negotiated_count() == 0 ==> r is Ok && *final(frame) == *old(frame)
                && *final(self) == *old(self),
    {
        let total = self.negotiated.len();
        let mut k: usize = total;
        while k > 0
            invariant
                k <= total,
                total == self.negotiated@.len(),
                self.wf(),
                self.extensions@.len() == old(self).extensions@.len(),
                self.negotiated@ == old(self).negotiated@,
                self.negotiated_rsv == old(self).negotiated_rsv,
                frame@.fin == old(frame)@.fin,
                frame@.opcode == old(frame)@.opcode,
                total == 0 ==> *frame == *old(frame) && *self == *old(self),
            decreases k,
        {
            k = k - 1;
            let idx = self.negotiated[k];
            let ext = &mut self.extensions[idx];
            match ext.decode(frame) {
                Ok(()) => {},
                Err(e) => {
                    return Err(e);
                },
            }
        }
        Ok(())
    }

    /// The Sec-WebSocket-Extensions response header value for a set of
    /// accepted offers, comma-separated: exactly [`spec_offers_text`].
    pub fn response_header(&self, accepted: &[ExtensionOffer]) -> (r: String)
        ensures
            r@ == spec_offers_text(accepted@),
    {
        let mut out = String::new();
        let n = accepted.len();
        let mut i: usize = 0;
        proof {
            assert(accepted@.take(0) =~= Seq::<ExtensionOffer>::empty());
        }
        while i < n
            invariant
                i <= n,
                n == accepted@.len(),
                out@ == spec_offers_text(accepted@.take(i as int)),
            decreases n - i,
        {
            if i > 0 {
                out.append(", ");
            }
            let h = accepted[i].to_header_string();
            out.append(h.as_str());
            proof {
                let upto = accepted@.take(i + 1);
                assert(upto.drop_last() =~= accepted@.take(i as int));
                assert(upto.last() == accepted@[i as int]);
            }
            i = i + 1;
        }
        proof {
            assert(accepted@.take(n as int) =~= accepted@);
        }
        out
    }
}

/// The index of the first registered extension with the given name, or
/// the count when none matches.
fn find_by_name<E: Extension>(exts: &Vec<E>, name: &str) -> (r: usize)
    ensures
        r <= exts@.len(),
        r < exts@.len() ==> (#[trigger] exts@[r as int]).spec_name() == name@,
        r == exts@.len() ==> forall|j: int|
            0 <= j < exts@.len() ==> (#[trigger] exts@[j]).spec_name() != name@,
{
    let n = exts.len();
    let mut idx: usize = 0;
    while idx < n
        invariant
            idx <= n,
            n == exts@.len(),
            forall|j: int| 0 <= j < idx ==> (#[trigger] exts@[j]).spec_name() != name@,
        decreases n - idx,
    {
        let ext: &E = &exts[idx];
        if bytes_eq(ext.name().as_bytes(), name.as_bytes()) {
            proof {
                vstd::utf8::encode_utf8_decode_utf8(exts@[idx as int].spec_name());
                vstd::utf8::encode_utf8_decode_utf8(name@);
            }
            return idx;
        }
        proof {
            assert(exts@[idx as int].spec_name() != name@);
        }
        idx = idx + 1;
    }
    n
}

} // verus!
