//! Byte-level text scanning helpers for the handshake parser.
//!
//! HTTP handshakes arrive as bytes. These helpers split lines, trim
//! ASCII whitespace, lower-case ASCII letters, split comma-separated
//! lists and read small decimal numbers, each proved against a spec
//! twin on byte sequences.

use vstd::prelude::*;

verus! {

/// ASCII lower-casing of one byte: letters `A`-`Z` shift down, all else
/// stays.
pub open spec fn lower_byte(b: u8) -> u8 {
    if 0x41 <= b <= 0x5a {
        (b + 0x20) as u8
    } else {
        b
    }
}

/// ASCII lower-casing of a byte sequence.
pub open spec fn lower_bytes(s: Seq<u8>) -> Seq<u8> {
    s.map_values(|b: u8| lower_byte(b))
}

/// Whether a byte counts as blank space for trimming: ASCII control
/// bytes and the space character.
pub open spec fn is_blank(b: u8) -> bool {
    b <= 0x20
}

/// The count of leading blank bytes.
pub open spec fn leading_blanks(s: Seq<u8>) -> int
    decreases s.len(),
{
    if s.len() == 0 || !is_blank(s[0]) {
        0int
    } else {
        1 + leading_blanks(s.skip(1))
    }
}

/// The count of trailing blank bytes.
pub open spec fn trailing_blanks(s: Seq<u8>) -> int
    decreases s.len(),
{
    if s.len() == 0 || !is_blank(s[s.len() - 1]) {
        0int
    } else {
        1 + trailing_blanks(s.take(s.len() - 1))
    }
}

/// The sequence with leading and trailing blank bytes removed.
pub open spec fn trimmed(s: Seq<u8>) -> Seq<u8> {
    let a = leading_blanks(s);
    let b = trailing_blanks(s);
    if a + b <= s.len() {
        s.subrange(a, s.len() - b)
    } else {
        Seq::empty()
    }
}

/// The position of the first occurrence of `b` at or after `pos`, or
/// the length if there is none.
pub open spec fn find_byte_from(s: Seq<u8>, b: u8, pos: int) -> int
    decreases s.len() - pos,
{
    if pos < 0 || pos >= s.len() {
        s.len() as int
    } else if s[pos] == b {
        pos
    } else {
        find_byte_from(s, b, pos + 1)
    }
}

/// The found position is within range, holds `b` when in range, and no
/// earlier position at or after `pos` does.
pub proof fn lemma_find_byte_from(s: Seq<u8>, b: u8, pos: int)
    requires
        0 <= pos <= s.len(),
    ensures
        pos <= find_byte_from(s, b, pos) <= s.len(),
        find_byte_from(s, b, pos) < s.len() ==> s[find_byte_from(s, b, pos)] == b,
        forall|j: int| pos <= j < find_byte_from(s, b, pos) ==> s[j] != b,
    decreases s.len() - pos,
{
    if pos < s.len() && s[pos] != b {
        lemma_find_byte_from(s, b, pos + 1);
    }
}

/// Find the first occurrence of `b` at or after `pos`, or the length.
pub fn find_byte(s: &[u8], b: u8, pos: usize) -> (r: usize)
    requires
        pos <= s@.len(),
    ensures
        r == find_byte_from(s@, b, pos as int),
{
    proof {
        lemma_find_byte_from(s@, b, pos as int);
    }
    let n = s.len();
    let mut i = pos;
    while i < n
        invariant
            pos <= i <= n,
            n == s@.len(),
            forall|j: int| pos <= j < i ==> s@[j] != b,
            find_byte_from(s@, b, pos as int) == find_byte_from(s@, b, i as int),
        decreases n - i,
    {
        if s[i] == b {
            return i;
        }
        i = i + 1;
    }
    n
}

/// Copy `s[from..to]` lower-cased into a fresh vector.
pub fn lower_range(s: &[u8], from: usize, to: usize) -> (r: Vec<u8>)
    requires
        from <= to <= s@.len(),
    ensures
        r@ == lower_bytes(s@.subrange(from as int, to as int)),
{
    let mut out: Vec<u8> = Vec::new();
    let mut i = from;
    while i < to
        invariant
            from <= i <= to <= s@.len(),
            out@.len() == i - from,
            forall|j: int| 0 <= j < out@.len() ==> out@[j] == lower_byte(s@[from + j]),
        decreases to - i,
    {
        let b = s[i];
        if 0x41 <= b && b <= 0x5a {
            out.push(b + 0x20);
        } else {
            out.push(b);
        }
        i = i + 1;
    }
    proof {
        assert(out@ =~= lower_bytes(s@.subrange(from as int, to as int)));
    }
    out
}

/// Copy `s[from..to]` with leading and trailing blanks removed.
pub fn trim_range(s: &[u8], from: usize, to: usize) -> (r: Vec<u8>)
    requires
        from <= to <= s@.len(),
    ensures
        r@ == trimmed(s@.subrange(from as int, to as int)),
{
    let ghost seg = s@.subrange(from as int, to as int);
    let mut a = from;
    proof {
        assert(seg.skip(0) =~= seg);
    }
    while a < to && s[a] <= 0x20
        invariant
            from <= a <= to <= s@.len(),
            seg == s@.subrange(from as int, to as int),
            leading_blanks(seg) == a - from + leading_blanks(seg.skip(a - from)),
            forall|j: int| from <= j < a ==> is_blank(s@[j]),
        decreases to - a,
    {
        proof {
            assert(seg.skip(a - from)[0] == s@[a as int]);
            assert(seg.skip(a - from).skip(1) =~= seg.skip(a + 1 - from));
        }
        a = a + 1;
    }
    proof {
        if a < to {
            assert(seg.skip(a - from)[0] == s@[a as int]);
        }
        assert(leading_blanks(seg) == a - from);
    }
    let mut z = to;
    proof {
        assert(seg.take(to - from) =~= seg);
    }
    while z > a && s[z - 1] <= 0x20
        invariant
            from <= a <= z <= to <= s@.len(),
            seg == s@.subrange(from as int, to as int),
            leading_blanks(seg) == a - from,
            trailing_blanks(seg) == to - z + trailing_blanks(seg.take(z - from)),
            a < to ==> !is_blank(s@[a as int]),
            forall|j: int| from <= j < a ==> is_blank(s@[j]),
            z > a || a == to,
        decreases z - a,
    {
        proof {
            let t = seg.take(z - from);
            assert(t[t.len() - 1] == s@[z - 1]);
            assert(t.take(t.len() - 1) =~= seg.take(z - 1 - from));
        }
        z = z - 1;
    }
    let out = vstd::slice::slice_to_vec(vstd::slice::slice_subrange(s, a, z));
    proof {
        if z > a {
            let t = seg.take(z - from);
            assert(t[t.len() - 1] == s@[z - 1]);
            assert(trailing_blanks(t) == 0);
            assert(trailing_blanks(seg) == to - z);
            assert(out@ == s@.subrange(a as int, z as int));
            assert(out@ =~= trimmed(seg));
        } else {
            // The whole segment is blank: trimming leaves nothing.
            assert(a == to && z == to);
            assert(forall|j: int| 0 <= j < seg.len() ==> is_blank(#[trigger] seg[j]));
            assert(seg.take(seg.len() as int) =~= seg);
            lemma_blank_prefix_trailing(seg, seg.len() as int);
            assert(out@ =~= trimmed(seg));
        }
    }
    out
}

proof fn lemma_blank_prefix_trailing(seg: Seq<u8>, k: int)
    requires
        0 <= k <= seg.len(),
        forall|j: int| 0 <= j < k ==> is_blank(seg[j]),
    ensures
        trailing_blanks(seg.take(k)) == k,
    decreases k,
{
    if k > 0 {
        let t = seg.take(k);
        assert(is_blank(t[t.len() - 1]));
        assert(t.take(t.len() - 1) =~= seg.take(k - 1));
        lemma_blank_prefix_trailing(seg, k - 1);
    }
}

/// Whether every byte is an ASCII digit.
pub open spec fn all_digits(d: Seq<u8>) -> bool {
    forall|j: int| 0 <= j < d.len() ==> 0x30 <= #[trigger] d[j] <= 0x39
}

/// The value of a decimal number token, mirroring how small unsigned
/// integers parse: an optional leading plus sign, then at least one
/// digit, no other bytes, and a value within `u8`.
pub open spec fn dec_u8_of(s: Seq<u8>) -> Option<u8> {
    let d = if s.len() >= 1 && s[0] == 0x2b {
        s.skip(1)
    } else {
        s
    };
    if d.len() >= 1 && all_digits(d) && dec_val(d) <= 255 {
        Some(dec_val(d) as u8)
    } else {
        None
    }
}

/// The numeric value of a digit sequence.
pub open spec fn dec_val(d: Seq<u8>) -> int
    decreases d.len(),
{
    if d.len() == 0 {
        0int
    } else {
        10 * dec_val(d.take(d.len() - 1)) + (d[d.len() - 1] - 0x30)
    }
}

/// Parse a small decimal number, as [`dec_u8_of`] describes.
pub fn parse_dec_u8(s: &[u8]) -> (r: Option<u8>)
    ensures
        r == dec_u8_of(s@),
{
    let n = s.len();
    let start: usize = if n >= 1 && s[0] == 0x2b {
        1
    } else {
        0
    };
    let ghost d = if s@.len() >= 1 && s@[0] == 0x2b {
        s@.skip(1)
    } else {
        s@
    };
    if n == start {
        proof {
            assert(d.len() == 0);
        }
        return None;
    }
    let mut v: u32 = 0;
    let mut i = start;
    proof {
        assert(d.take(0) =~= Seq::<u8>::empty());
        assert(all_digits(d.take(0)));
    }
    while i < n
        invariant
            start <= i <= n,
            n == s@.len(),
            d == (if s@.len() >= 1 && s@[0] == 0x2b {
                s@.skip(1)
            } else {
                s@
            }),
            d.len() == n - start,
            start == 0 || start == 1,
            (start == 1 <==> (s@.len() >= 1 && s@[0] == 0x2b)),
            all_digits(d.take(i - start)),
            v == dec_val(d.take(i - start)),
            v <= 0xffff,
        decreases n - i,
    {
        let b = s[i];
        proof {
            assert(d[i - start] == s@[i as int]);
        }
        if !(0x30 <= b && b <= 0x39) {
            proof {
                assert(!all_digits(d));
            }
            return None;
        }
        if v > 255 {
            // Already too large for the target type; if the rest are
            // digits too, they cannot bring the value back down.
            proof {
                if all_digits(d) {
                    lemma_dec_val_monotone(d, i - start);
                }
            }
            return None;
        }
        proof {
            let t0 = d.take(i - start);
            let t1 = d.take(i + 1 - start);
            assert(t1.take(t1.len() - 1) =~= t0);
            assert(t1[t1.len() - 1] == d[i - start]);
            assert(all_digits(t1)) by {
                assert forall|j: int| 0 <= j < t1.len() implies 0x30 <= #[trigger] t1[j]
                    <= 0x39 by {
                    if j < t0.len() {
                        assert(t1[j] == t0[j]);
                    } else {
                        assert(t1[j] == d[i - start]);
                    }
                }
            }
        }
        v = 10 * v + ((b - 0x30) as u32);
        i = i + 1;
    }
    proof {
        assert(d.take(n - start) =~= d);
    }
    if v > 255 {
        None
    } else {
        Some(v as u8)
    }
}

/// A digit sequence's value only grows as digits are appended.
proof fn lemma_dec_val_monotone(d: Seq<u8>, k: int)
    requires
        0 <= k <= d.len(),
        all_digits(d),
    ensures
        dec_val(d.take(k)) <= dec_val(d),
    decreases d.len() - k,
{
    if k < d.len() {
        assert(d.take(k + 1).take(k) =~= d.take(k));
        assert(dec_val(d.take(k + 1)) == 10 * dec_val(d.take(k)) + (d.take(k + 1)[k] - 0x30));
        assert(all_digits(d.take(k))) by {
            assert forall|j: int| 0 <= j < k implies 0x30 <= #[trigger] d.take(k)[j] <= 0x39 by {
                assert(d.take(k)[j] == d[j]);
            }
        }
        lemma_dec_val_nonneg(d.take(k));
        assert(d.take(k + 1)[k] == d[k]);
        lemma_dec_val_monotone(d, k + 1);
    } else {
        assert(d.take(k) =~= d);
    }
}

proof fn lemma_dec_val_nonneg(d: Seq<u8>)
    requires
        all_digits(d),
    ensures
        dec_val(d) >= 0,
    decreases d.len(),
{
    if d.len() > 0 {
        assert(all_digits(d.take(d.len() - 1))) by {
            assert forall|j: int|
                0 <= j < d.len() - 1 implies 0x30 <= #[trigger] d.take(d.len() - 1)[j]
                <= 0x39 by {
                assert(d.take(d.len() - 1)[j] == d[j]);
            }
        }
        lemma_dec_val_nonneg(d.take(d.len() - 1));
    }
}

/// Compare two byte slices for equality.
pub fn bytes_eq(a: &[u8], b: &[u8]) -> (r: bool)
    ensures
        r == (a@ == b@),
{
    if a.len() != b.len() {
        proof {
            assert(a@.len() != b@.len());
        }
        return false;
    }
    let n = a.len();
    let mut i: usize = 0;
    while i < n
        invariant
            i <= n,
            n == a@.len() == b@.len(),
            forall|j: int| 0 <= j < i ==> a@[j] == b@[j],
        decreases n - i,
    {
        if a[i] != b[i] {
            return false;
        }
        i = i + 1;
    }
    proof {
        assert(a@ =~= b@);
    }
    true
}

/// Whether `needle` occurs as a contiguous run inside `hay`.
pub open spec fn contains_seq(hay: Seq<u8>, needle: Seq<u8>) -> bool {
    exists|i: int|
        0 <= i && i + needle.len() <= hay.len() && #[trigger] hay.subrange(i, i + needle.len())
            == needle
}

/// Search for `needle` inside `hay`.
pub fn contains_sub(hay: &[u8], needle: &[u8]) -> (r: bool)
    ensures
        r == contains_seq(hay@, needle@),
{
    let n = hay.len();
    let m = needle.len();
    if m > n {
        proof {
            assert(!contains_seq(hay@, needle@));
        }
        return false;
    }
    if m == 0 {
        proof {
            assert(hay@.subrange(0, 0 + needle@.len() as int) =~= needle@);
            assert(contains_seq(hay@, needle@));
        }
        return true;
    }
    let mut i: usize = 0;
    while i <= n - m
        invariant
            0 <= i,
            i <= n - m + 1,
            1 <= m <= n,
            n == hay@.len(),
            m == needle@.len(),
            forall|k: int|
                0 <= k < i && k + m <= n ==> #[trigger] hay@.subrange(k, k + m as int)
                    != needle@,
        decreases n - m + 1 - i,
    {
        let mut j: usize = 0;
        let mut matches_here = true;
        while j < m && matches_here
            invariant
                j <= m,
                i + m <= n,
                n == hay@.len(),
                m == needle@.len(),
                matches_here ==> forall|k: int| 0 <= k < j ==> hay@[i + k] == needle@[k],
                !matches_here ==> hay@.subrange(i as int, i + m as int) != needle@,
            decreases m - j + (if matches_here {
                1int
            } else {
                0int
            }),
        {
            if hay[i + j] != needle[j] {
                proof {
                    assert(hay@.subrange(i as int, i + m as int)[j as int]
                        != needle@[j as int]);
                }
                matches_here = false;
            } else {
                j = j + 1;
            }
        }
        if matches_here {
            proof {
                assert(hay@.subrange(i as int, i + m as int) =~= needle@);
            }
            return true;
        }
        i = i + 1;
    }
    proof {
        assert(!contains_seq(hay@, needle@));
    }
    false
}

/// The position of the first blank byte at or after `pos`, or the
/// length if there is none.
pub open spec fn find_blank_from(s: Seq<u8>, pos: int) -> int
    decreases s.len() - pos,
{
    if pos < 0 || pos >= s.len() {
        s.len() as int
    } else if is_blank(s[pos]) {
        pos
    } else {
        find_blank_from(s, pos + 1)
    }
}

/// The found position is in range, blank when in range, with nothing
/// blank before it at or after `pos`.
pub proof fn lemma_find_blank_from(s: Seq<u8>, pos: int)
    requires
        0 <= pos <= s.len(),
    ensures
        pos <= find_blank_from(s, pos) <= s.len(),
        find_blank_from(s, pos) < s.len() ==> is_blank(s[find_blank_from(s, pos)]),
        forall|j: int| pos <= j < find_blank_from(s, pos) ==> !is_blank(s[j]),
    decreases s.len() - pos,
{
    if pos < s.len() && !is_blank(s[pos]) {
        lemma_find_blank_from(s, pos + 1);
    }
}

/// The tokens of a byte sequence: maximal runs of non-blank bytes,
/// separated by runs of blanks.
pub open spec fn ws_tokens(s: Seq<u8>) -> Seq<Seq<u8>>
    decreases s.len(),
    via ws_tokens_decreases
{
    let a = leading_blanks(s);
    if a >= s.len() {
        Seq::empty()
    } else {
        let e = find_blank_from(s, a);
        seq![s.subrange(a, e)] + ws_tokens(s.skip(e))
    }
}

#[via_fn]
proof fn ws_tokens_decreases(s: Seq<u8>) {
    lemma_leading_blanks_bounds(s);
    let a = leading_blanks(s);
    if a < s.len() {
        lemma_find_blank_from(s, a);
        assert(!is_blank(s[a]));
        assert(find_blank_from(s, a) > a);
    }
}

/// The leading-blank count stays within the sequence, and the byte
/// after it is not blank.
pub proof fn lemma_leading_blanks_bounds(s: Seq<u8>)
    ensures
        0 <= leading_blanks(s) <= s.len(),
        leading_blanks(s) < s.len() ==> !is_blank(s[leading_blanks(s)]),
        forall|j: int| 0 <= j < leading_blanks(s) ==> is_blank(s[j]),
    decreases s.len(),
{
    if s.len() > 0 && is_blank(s[0]) {
        lemma_leading_blanks_bounds(s.skip(1));
        assert forall|j: int| 0 <= j < leading_blanks(s) implies is_blank(s[j]) by {
            if j > 0 {
                assert(s.skip(1)[j - 1] == s[j]);
            }
        }
        if leading_blanks(s) < s.len() {
            assert(s.skip(1)[leading_blanks(s) - 1] == s[leading_blanks(s)]);
        }
    }
}

/// Split a byte slice into its whitespace-separated tokens.
pub fn tokenize_ws(s: &[u8]) -> (r: Vec<Vec<u8>>)
    ensures
        r@.map_values(|t: Vec<u8>| t@) == ws_tokens(s@),
{
    let n = s.len();
    let mut out: Vec<Vec<u8>> = Vec::new();
    let mut p: usize = 0;
    proof {
        assert(s@.skip(0) =~= s@);
        assert(out@.map_values(|t: Vec<u8>| t@) =~= Seq::<Seq<u8>>::empty());
    }
    while p < n
        invariant
            p <= n,
            n == s@.len(),
            ws_tokens(s@) == out@.map_values(|t: Vec<u8>| t@) + ws_tokens(s@.skip(p as int)),
        decreases n - p,
    {
        let ghost suffix = s@.skip(p as int);
        proof {
            lemma_leading_blanks_bounds(suffix);
        }
        // Skip the blank run.
        let mut a = p;
        while a < n && s[a] <= 0x20
            invariant
                p <= a <= n,
                n == s@.len(),
                suffix == s@.skip(p as int),
                leading_blanks(suffix) >= a - p,
                forall|j: int| p <= j < a ==> is_blank(s@[j]),
            decreases n - a,
        {
            proof {
                lemma_leading_blanks_bounds(suffix);
                assert forall|j: int| 0 <= j < a + 1 - p implies is_blank(suffix[j]) by {
                    assert(suffix[j] == s@[p + j]);
                }
                lemma_blank_count_lower(suffix, a + 1 - p);
            }
            a = a + 1;
        }
        proof {
            lemma_leading_blanks_bounds(suffix);
            if a < n {
                assert(suffix[a - p] == s@[a as int]);
                assert(leading_blanks(suffix) <= a - p) by {
                    if leading_blanks(suffix) > a - p {
                        assert(is_blank(suffix[a - p]));
                    }
                }
            } else {
                assert(leading_blanks(suffix) <= suffix.len());
            }
        }
        if a == n {
            proof {
                assert(leading_blanks(suffix) == suffix.len()) by {
                    lemma_blank_count_lower(suffix, n - p);
                }
                assert(ws_tokens(suffix) =~= Seq::<Seq<u8>>::empty());
                assert(out@.map_values(|t: Vec<u8>| t@) + ws_tokens(suffix) =~= out@.map_values(
                    |t: Vec<u8>| t@,
                ));
            }
            return out;
        }
        proof {
            assert(leading_blanks(suffix) == a - p) by {
                lemma_blank_count_lower(suffix, a - p);
            }
        }
        // Take the token run.
        let mut e = a;
        while e < n && s[e] > 0x20
            invariant
                a <= e <= n,
                n == s@.len(),
                suffix == s@.skip(p as int),
                forall|j: int| a <= j < e ==> !is_blank(s@[j]),
            decreases n - e,
        {
            e = e + 1;
        }
        proof {
            lemma_find_blank_from(suffix, a - p);
            assert forall|j: int| a - p <= j < e - p implies !is_blank(suffix[j]) by {
                assert(suffix[j] == s@[p + j]);
            }
            if e < n {
                assert(suffix[e - p] == s@[e as int]);
                assert(is_blank(suffix[e - p]));
            }
            lemma_find_blank_exact(suffix, a - p, e - p);
        }
        let token = vstd::slice::slice_to_vec(vstd::slice::slice_subrange(s, a, e));
        let ghost out_before = out@;
        out.push(token);
        proof {
            assert(token@ == s@.subrange(a as int, e as int));
            assert(suffix.subrange(a - p, e - p) =~= s@.subrange(a as int, e as int));
            assert(suffix.skip(e - p) =~= s@.skip(e as int));
            assert(ws_tokens(suffix) == seq![suffix.subrange(a - p, e - p)] + ws_tokens(
                suffix.skip(e - p),
            ));
            assert(out@.map_values(|t: Vec<u8>| t@) =~= out_before.map_values(|t: Vec<u8>| t@)
                + seq![token@]);
            assert(out@.map_values(|t: Vec<u8>| t@) + ws_tokens(s@.skip(e as int))
                =~= out_before.map_values(|t: Vec<u8>| t@) + ws_tokens(suffix));
        }
        p = e;
    }
    proof {
        assert(s@.skip(n as int) =~= Seq::<u8>::empty());
        assert(ws_tokens(s@.skip(n as int)) =~= Seq::<Seq<u8>>::empty());
        assert(out@.map_values(|t: Vec<u8>| t@) + ws_tokens(s@.skip(n as int))
            =~= out@.map_values(|t: Vec<u8>| t@));
    }
    out
}

/// When the first `k` bytes are blank, at least `k` blanks lead.
proof fn lemma_blank_count_lower(s: Seq<u8>, k: int)
    requires
        0 <= k <= s.len(),
        forall|j: int| 0 <= j < k ==> is_blank(#[trigger] s[j]),
    ensures
        leading_blanks(s) >= k,
    decreases k,
{
    lemma_leading_blanks_bounds(s);
    if k > 0 {
        assert(is_blank(s[0]));
        assert forall|j: int| 0 <= j < k - 1 implies is_blank(#[trigger] s.skip(1)[j]) by {
            assert(s.skip(1)[j] == s[j + 1]);
        }
        lemma_blank_count_lower(s.skip(1), k - 1);
        assert(leading_blanks(s) == 1 + leading_blanks(s.skip(1)));
    }
}

/// The first blank at or after `from` is exactly `e` when nothing
/// before `e` is blank and `e` is blank or the end.
proof fn lemma_find_blank_exact(s: Seq<u8>, from: int, e: int)
    requires
        0 <= from <= e <= s.len(),
        forall|j: int| from <= j < e ==> !is_blank(s[j]),
        e < s.len() ==> is_blank(s[e]),
    ensures
        find_blank_from(s, from) == e,
    decreases e - from,
{
    if from < e {
        lemma_find_blank_exact(s, from + 1, e);
    }
}

/// Split on a separator byte; every piece is trimmed. An input without
/// the separator is a single piece, so an empty input is one empty
/// piece.
pub open spec fn split_trim(s: Seq<u8>, sep: u8) -> Seq<Seq<u8>>
    decreases s.len(),
    via split_trim_decreases
{
    let c = find_byte_from(s, sep, 0);
    if c >= s.len() {
        seq![trimmed(s)]
    } else {
        seq![trimmed(s.take(c))] + split_trim(s.skip(c + 1), sep)
    }
}

#[via_fn]
proof fn split_trim_decreases(s: Seq<u8>, sep: u8) {
    lemma_find_byte_from(s, sep, 0);
}

/// Split a byte slice on a separator, trimming every piece.
pub fn split_trim_vec(s: &[u8], sep: u8) -> (r: Vec<Vec<u8>>)
    ensures
        r@.map_values(|t: Vec<u8>| t@) == split_trim(s@, sep),
    decreases s@.len(),
{
    let c = find_byte(s, sep, 0);
    proof {
        lemma_find_byte_from(s@, sep, 0);
    }
    if c >= s.len() {
        let piece = trim_range(s, 0, s.len());
        let mut out: Vec<Vec<u8>> = Vec::new();
        out.push(piece);
        proof {
            assert(s@.subrange(0, s@.len() as int) =~= s@);
            assert(out@.map_values(|t: Vec<u8>| t@) =~= seq![trimmed(s@)]);
        }
        out
    } else {
        let piece = trim_range(s, 0, c);
        let rest_slice = vstd::slice::slice_subrange(s, c + 1, s.len());
        let mut out: Vec<Vec<u8>> = Vec::new();
        out.push(piece);
        let mut rest = split_trim_vec(rest_slice, sep);
        let ghost out_one = out@;
        let ghost rest_seq = rest@;
        out.append(&mut rest);
        proof {
            assert(rest_slice@ =~= s@.skip(c + 1));
            assert(s@.subrange(0, c as int) =~= s@.take(c as int));
            assert(out@ == out_one + rest_seq);
            assert(out@.map_values(|t: Vec<u8>| t@) =~= out_one.map_values(|t: Vec<u8>| t@)
                + rest_seq.map_values(|t: Vec<u8>| t@));
            assert(out_one.map_values(|t: Vec<u8>| t@) =~= seq![trimmed(s@.take(c as int))]);
            assert(out@.map_values(|t: Vec<u8>| t@) =~= split_trim(s@, sep));
        }
        out
    }
}

} // verus!
