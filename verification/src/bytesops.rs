//! Byte-level helpers: big-endian integer encodings, fixed-width padding,
//! and constant-width comparisons used throughout the message layer.

use vstd::bytes::*;
use vstd::prelude::*;

verus! {

/// Big-endian encoding of a `u64`, as the reversal of the little-endian one.
pub open spec fn spec_u64_to_be_bytes(x: u64) -> Seq<u8> {
    spec_u64_to_le_bytes(x).reverse()
}

/// The `u64` read back from 8 big-endian bytes.
pub open spec fn spec_u64_from_be_bytes(s: Seq<u8>) -> u64
    recommends
        s.len() == 8,
{
    spec_u64_from_le_bytes(s.reverse())
}

/// Big-endian encoding of a `u128`.
pub open spec fn spec_u128_to_be_bytes(x: u128) -> Seq<u8> {
    spec_u128_to_le_bytes(x).reverse()
}

/// The `u128` read back from 16 big-endian bytes.
pub open spec fn spec_u128_from_be_bytes(s: Seq<u8>) -> u128
    recommends
        s.len() == 16,
{
    spec_u128_from_le_bytes(s.reverse())
}

/// An 8-byte big-endian encoding decodes to the number it encodes.
pub proof fn lemma_u64_be_bytes(x: u64)
    ensures
        spec_u64_to_be_bytes(x).len() == 8,
        spec_u64_from_be_bytes(spec_u64_to_be_bytes(x)) == x,
{
    lemma_auto_spec_u64_to_from_le_bytes();
    assert(spec_u64_to_le_bytes(x).reverse().reverse() =~= spec_u64_to_le_bytes(x));
}

/// A 16-byte big-endian encoding decodes to the number it encodes.
pub proof fn lemma_u128_be_bytes(x: u128)
    ensures
        spec_u128_to_be_bytes(x).len() == 16,
        spec_u128_from_be_bytes(spec_u128_to_be_bytes(x)) == x,
{
    lemma_auto_spec_u128_to_from_le_bytes();
    assert(spec_u128_to_le_bytes(x).reverse().reverse() =~= spec_u128_to_le_bytes(x));
}

/// A copy of `s` in reverse order.
pub fn reverse_bytes(s: &[u8]) -> (r: Vec<u8>)
    ensures
        r@ == s@.reverse(),
{
    let n = s.len();
    let mut out: Vec<u8> = Vec::new();
    let mut i: usize = n;
    while i > 0
        invariant
            i <= n,
            n == s@.len(),
            out@.len() == n - i,
            forall|k: int| 0 <= k < out@.len() ==> out@[k] == s@.reverse()[k],
        decreases i,
    {
        i = i - 1;
        out.push(s[i]);
    }
    proof {
        assert(out@ =~= s@.reverse());
    }
    out
}

/// The 8 big-endian bytes of `x`.
pub fn u64_to_be_bytes(x: u64) -> (r: Vec<u8>)
    ensures
        r@ == spec_u64_to_be_bytes(x),
        r@.len() == 8,
{
    proof {
        lemma_auto_spec_u64_to_from_le_bytes();
    }
    let le = u64_to_le_bytes(x);
    reverse_bytes(le.as_slice())
}

/// The `u64` read from 8 big-endian bytes.
pub fn u64_from_be_bytes(s: &[u8]) -> (r: u64)
    requires
        s@.len() == 8,
    ensures
        r == spec_u64_from_be_bytes(s@),
{
    let rev = reverse_bytes(s);
    u64_from_le_bytes(rev.as_slice())
}

/// The 16 big-endian bytes of `x`.
pub fn u128_to_be_bytes(x: u128) -> (r: Vec<u8>)
    ensures
        r@ == spec_u128_to_be_bytes(x),
        r@.len() == 16,
{
    proof {
        lemma_auto_spec_u128_to_from_le_bytes();
    }
    let le = u128_to_le_bytes(x);
    reverse_bytes(le.as_slice())
}

/// The `u128` read from 16 big-endian bytes.
pub fn u128_from_be_bytes(s: &[u8]) -> (r: u128)
    requires
        s@.len() == 16,
    ensures
        r == spec_u128_from_be_bytes(s@),
{
    let rev = reverse_bytes(s);
    u128_from_le_bytes(rev.as_slice())
}

/// `s` truncated or zero-padded on the right to exactly 32 bytes.
pub open spec fn spec_pad32(s: Seq<u8>) -> Seq<u8> {
    Seq::new(32, |i: int| if i < s.len() { s[i] } else { 0u8 })
}

/// Zero-pad (or truncate) a byte string to a fixed 32-byte identifier.
pub fn pad32(s: &[u8]) -> (r: [u8; 32])
    ensures
        r@ == spec_pad32(s@),
{
    let mut out: [u8; 32] = [0u8; 32];
    let n = if s.len() < 32 {
        s.len()
    } else {
        32
    };
    let mut i: usize = 0;
    while i < n
        invariant
            i <= n,
            n <= 32,
            n <= s@.len(),
            n == if s@.len() < 32 {
                s@.len() as int
            } else {
                32
            },
            out@.len() == 32,
            forall|k: int| 0 <= k < i ==> out@[k] == s@[k],
            forall|k: int| i <= k < 32 ==> out@[k] == 0u8,
        decreases n - i,
    {
        out[i] = s[i];
        i = i + 1;
    }
    proof {
        assert(out@ =~= spec_pad32(s@));
    }
    out
}

/// Whether two 32-byte identifiers hold the same bytes.
pub fn bytes32_eq(a: &[u8; 32], b: &[u8; 32]) -> (r: bool)
    ensures
        r == (a@ == b@),
{
    let mut i: usize = 0;
    while i < 32
        invariant
            i <= 32,
            forall|k: int| 0 <= k < i ==> a@[k] == b@[k],
        decreases 32 - i,
    {
        if a[i] != b[i] {
            return false;
        }
        i = i + 1;
    }
    proof {
        assert(a@ =~= b@);
    }
    true
}

/// Append every byte of `src` to `out`.
pub fn push_bytes(out: &mut Vec<u8>, src: &[u8])
    ensures
        final(out)@ == old(out)@ + src@,
{
    let mut i: usize = 0;
    while i < src.len()
        invariant
            i <= src@.len(),
            out@ == old(out)@ + src@.subrange(0, i as int),
        decreases src@.len() - i,
    {
        proof {
            assert(src@.subrange(0, i + 1) =~= src@.subrange(0, i as int).push(src@[i as int]));
        }
        out.push(src[i]);
        i = i + 1;
    }
    proof {
        assert(src@.subrange(0, src@.len() as int) =~= src@);
    }
}

/// Copy `len` bytes of `data` starting at `start` into a fresh vector.
pub fn copy_range(data: &[u8], start: usize, len: usize) -> (r: Vec<u8>)
    requires
        start + len <= data@.len(),
    ensures
        r@ == data@.subrange(start as int, start + len),
{
    let dlen: usize = data.len();
    let mut out: Vec<u8> = Vec::new();
    let mut i: usize = 0;
    while i < len
        invariant
            i <= len,
            start + len <= dlen,
            dlen == data@.len(),
            out@.len() == i,
            forall|k: int| 0 <= k < i ==> out@[k] == data@[start + k],
        decreases len - i,
    {
        out.push(data[start + i]);
        i = i + 1;
    }
    proof {
        assert(out@ =~= data@.subrange(start as int, start + len));
    }
    out
}

/// Copy 32 bytes of `data` starting at `start` into a fixed array.
pub fn copy_range32(data: &[u8], start: usize) -> (r: [u8; 32])
    requires
        start + 32 <= data@.len(),
    ensures
        r@ == data@.subrange(start as int, start + 32),
{
    let dlen: usize = data.len();
    let mut out: [u8; 32] = [0u8; 32];
    let mut i: usize = 0;
    while i < 32
        invariant
            i <= 32,
            start + 32 <= dlen,
            dlen == data@.len(),
            out@.len() == 32,
            forall|k: int| 0 <= k < i ==> out@[k] == data@[start + k],
        decreases 32 - i,
    {
        out[i] = data[start + i];
        i = i + 1;
    }
    proof {
        assert(out@ =~= data@.subrange(start as int, start + 32));
    }
    out
}

/// Copy 64 bytes of `data` starting at `start` into a fixed array.
pub fn copy_range64(data: &[u8], start: usize) -> (r: [u8; 64])
    requires
        start + 64 <= data@.len(),
    ensures
        r@ == data@.subrange(start as int, start + 64),
{
    let dlen: usize = data.len();
    let mut out: [u8; 64] = [0u8; 64];
    let mut i: usize = 0;
    while i < 64
        invariant
            i <= 64,
            start + 64 <= dlen,
            dlen == data@.len(),
            out@.len() == 64,
            forall|k: int| 0 <= k < i ==> out@[k] == data@[start + k],
        decreases 64 - i,
    {
        out[i] = data[start + i];
        i = i + 1;
    }
    proof {
        assert(out@ =~= data@.subrange(start as int, start + 64));
    }
    out
}

} // verus!
