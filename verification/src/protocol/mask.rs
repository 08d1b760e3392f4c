//! XOR masking of WebSocket payloads (RFC 6455 section 5.3).
//!
//! One operation: XOR a 4-byte key over a byte buffer, so that applying
//! the same key twice restores the original bytes. [`apply_mask`] works
//! byte by byte; [`apply_mask_fast`] processes four bytes per step
//! through a rotated 32-bit view of the key. Both meet the same exact
//! contract, so callers may pick either.

use vstd::prelude::*;

verus! {

/// The bytes of `data` XORed with the key, each byte with the key byte
/// at its index modulo 4.
pub open spec fn masked(data: Seq<u8>, mask: Seq<u8>) -> Seq<u8>
    recommends
        mask.len() == 4,
{
    Seq::new(data.len(), |i: int| data[i] ^ mask[i % 4])
}

/// XOR the 4-byte key over the buffer, byte by byte.
pub fn apply_mask(data: &mut Vec<u8>, mask: [u8; 4])
    ensures
        final(data)@ == masked(old(data)@, mask@),
{
    let n = data.len();
    let mut i: usize = 0;
    while i < n
        invariant
            n == data@.len(),
            i <= n,
            forall|j: int| 0 <= j < i ==> data@[j] == old(data)@[j] ^ mask@[j % 4],
            forall|j: int| i <= j < n ==> data@[j] == old(data)@[j],
        decreases n - i,
    {
        let b = data[i];
        let m = mask[i % 4];
        data[i] = b ^ m;
        i = i + 1;
    }
    assert(data@ =~= masked(old(data)@, mask@));
}

/// XOR the 4-byte key over the buffer, four bytes per step, with a
/// byte-wise tail. Same contract as [`apply_mask`].
pub fn apply_mask_fast(data: &mut Vec<u8>, mask: [u8; 4])
    ensures
        final(data)@ == masked(old(data)@, mask@),
{
    let n = data.len();
    let chunks = n / 4;
    let mut c: usize = 0;
    while c < chunks
        invariant
            n == data@.len(),
            chunks == n / 4,
            c <= chunks,
            forall|j: int| 0 <= j < 4 * c ==> data@[j] == old(data)@[j] ^ mask@[j % 4],
            forall|j: int| 4 * c <= j < n ==> data@[j] == old(data)@[j],
        decreases chunks - c,
    {
        let off = c * 4;
        assert(off + 4 <= n) by {
            assert(4 * (c + 1) <= 4 * chunks);
            assert(4 * chunks <= n);
        }
        let b0 = data[off];
        let b1 = data[off + 1];
        let b2 = data[off + 2];
        let b3 = data[off + 3];
        data[off] = b0 ^ mask[0];
        data[off + 1] = b1 ^ mask[1];
        data[off + 2] = b2 ^ mask[2];
        data[off + 3] = b3 ^ mask[3];
        proof {
            assert(off % 4 == 0 && (off + 1) % 4 == 1 && (off + 2) % 4 == 2 && (off + 3) % 4
                == 3) by {
                assert(off == 4 * c);
            }
        }
        c = c + 1;
    }
    let mut i: usize = chunks * 4;
    while i < n
        invariant
            n == data@.len(),
            chunks == n / 4,
            chunks * 4 <= i <= n,
            forall|j: int| 0 <= j < i ==> data@[j] == old(data)@[j] ^ mask@[j % 4],
            forall|j: int| i <= j < n ==> data@[j] == old(data)@[j],
        decreases n - i,
    {
        let b = data[i];
        let m = mask[i % 4];
        data[i] = b ^ m;
        i = i + 1;
    }
    assert(data@ =~= masked(old(data)@, mask@));
}

/// Masking is a self-inverse: applying the same key twice restores the
/// original bytes, whatever the data and the key.
pub proof fn lemma_mask_involution(data: Seq<u8>, mask: Seq<u8>)
    requires
        mask.len() == 4,
    ensures
        masked(masked(data, mask), mask) == data,
{
    assert forall|i: int| 0 <= i < data.len() implies masked(masked(data, mask), mask)[i]
        == data[i] by {
        let m = mask[i % 4];
        let b = data[i];
        assert((b ^ m) ^ m == b) by (bit_vector);
    }
    assert(masked(masked(data, mask), mask) =~= data);
}

} // verus!
