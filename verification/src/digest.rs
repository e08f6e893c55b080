//! 32-byte content digests and the hash that produces them.
//!
//! A digest names a block or a signing request by the SHA-256 of its
//! canonical encoding. It is held as four little-endian 64-bit words so that
//! equality and copying are structural; its canonical byte form is the
//! concatenation of the words' little-endian bytes.

use vstd::prelude::*;
use crate::codec::{u64_le_bytes, lemma_u64_le_len};

verus! {

/// A 32-byte digest, as four little-endian 64-bit words.
#[derive(Clone, Copy, Debug, PartialEq, Eq, Structural)]
pub struct Digest {
    pub w0: u64,
    pub w1: u64,
    pub w2: u64,
    pub w3: u64,
}

impl View for Digest {
    type V = Seq<u8>;

    /// The canonical 32-byte form of the digest.
    open spec fn view(&self) -> Seq<u8> {
        u64_le_bytes(self.w0) + u64_le_bytes(self.w1) + u64_le_bytes(self.w2)
            + u64_le_bytes(self.w3)
    }
}

impl Digest {
    /// The all-zero digest; names nothing real, used by genesis.
    pub fn zero() -> (d: Digest)
        ensures
            d == (Digest { w0: 0, w1: 0, w2: 0, w3: 0 }),
    {
        Digest { w0: 0, w1: 0, w2: 0, w3: 0 }
    }

    /// Reads a digest back from its canonical 32-byte form.
    pub fn from_bytes(b: &Vec<u8>) -> (d: Digest)
        requires
            b@.len() == 32,
        ensures
            d@ == b@,
            d == crate::codec::spec_digest_of(b@),
    {
        proof {
            reveal(crate::codec::sp_digest);
            reveal(crate::codec::sp_u64);
        }
        let w0 = le_word(b, 0);
        let w1 = le_word(b, 8);
        let w2 = le_word(b, 16);
        let w3 = le_word(b, 24);
        let d = Digest { w0, w1, w2, w3 };
        proof {
            broadcast use lemma_u64_le_len;
            assert(d@ =~= b@);
        }
        d
    }

    /// Writes the canonical 32-byte form.
    pub fn to_bytes(&self) -> (r: Vec<u8>)
        ensures
            r@ == self@,
            r@.len() == 32,
    {
        let mut r: Vec<u8> = Vec::new();
        push_u64_le(&mut r, self.w0);
        push_u64_le(&mut r, self.w1);
        push_u64_le(&mut r, self.w2);
        push_u64_le(&mut r, self.w3);
        proof {
            broadcast use lemma_u64_le_len;
            assert(r@ =~= self@);
        }
        r
    }

    /// The low 64 bits of the digest read little-endian: the word `w0`.
    /// Used to pick a proposer deterministically from a message hash.
    pub fn low_u64_le(&self) -> (r: u64)
        ensures
            r == self.w0,
    {
        self.w0
    }
}

/// Reads one little-endian 64-bit word out of `b` at `at`.
pub(crate) fn le_word(b: &Vec<u8>, at: usize) -> (w: u64)
    requires
        at + 8 <= b@.len(),
    ensures
        u64_le_bytes(w) == b@.subrange(at as int, at + 8),
        w == crate::codec::le_to_u64(b@[at as int], b@[at + 1], b@[at + 2], b@[at + 3],
            b@[at + 4], b@[at + 5], b@[at + 6], b@[at + 7]),
{
    let n = b.len();
    proof {
        assert(at + 8 <= n);
    }
    let w: u64 = (b[at] as u64) | ((b[at + 1] as u64) << 8) | ((b[at + 2] as u64) << 16)
        | ((b[at + 3] as u64) << 24) | ((b[at + 4] as u64) << 32) | ((b[at + 5] as u64) << 40)
        | ((b[at + 6] as u64) << 48) | ((b[at + 7] as u64) << 56);
    proof {
        reveal(crate::codec::u64_le_bytes);
        lemma_le_word_bytes(w, b@[at as int], b@[at + 1], b@[at + 2], b@[at + 3], b@[at + 4],
            b@[at + 5], b@[at + 6], b@[at + 7]);
        assert(u64_le_bytes(w) =~= b@.subrange(at as int, at + 8));
    }
    w
}

/// Appends the little-endian bytes of `w` to `out`.
fn push_u64_le(out: &mut Vec<u8>, w: u64)
    ensures
        final(out)@ == old(out)@ + u64_le_bytes(w),
{
    out.push((w & 0xff) as u8);
    out.push(((w >> 8) & 0xff) as u8);
    out.push(((w >> 16) & 0xff) as u8);
    out.push(((w >> 24) & 0xff) as u8);
    out.push(((w >> 32) & 0xff) as u8);
    out.push(((w >> 40) & 0xff) as u8);
    out.push(((w >> 48) & 0xff) as u8);
    out.push(((w >> 56) & 0xff) as u8);
    proof {
        reveal(crate::codec::u64_le_bytes);
        assert(final(out)@ =~= old(out)@ + u64_le_bytes(w));
    }
}

/// A word assembled from eight bytes extracts back to those bytes.
proof fn lemma_le_word_bytes(w: u64, b0: u8, b1: u8, b2: u8, b3: u8, b4: u8, b5: u8, b6: u8, b7: u8)
    requires
        w == (b0 as u64) | ((b1 as u64) << 8) | ((b2 as u64) << 16) | ((b3 as u64) << 24)
            | ((b4 as u64) << 32) | ((b5 as u64) << 40) | ((b6 as u64) << 48)
            | ((b7 as u64) << 56),
    ensures
        (w & 0xff) as u8 == b0,
        ((w >> 8) & 0xff) as u8 == b1,
        ((w >> 16) & 0xff) as u8 == b2,
        ((w >> 24) & 0xff) as u8 == b3,
        ((w >> 32) & 0xff) as u8 == b4,
        ((w >> 40) & 0xff) as u8 == b5,
        ((w >> 48) & 0xff) as u8 == b6,
        ((w >> 56) & 0xff) as u8 == b7,
{
    assert((w & 0xff) as u8 == b0 && ((w >> 8) & 0xff) as u8 == b1
        && ((w >> 16) & 0xff) as u8 == b2 && ((w >> 24) & 0xff) as u8 == b3
        && ((w >> 32) & 0xff) as u8 == b4 && ((w >> 40) & 0xff) as u8 == b5
        && ((w >> 48) & 0xff) as u8 == b6 && ((w >> 56) & 0xff) as u8 == b7) by (bit_vector)
        requires
            w == (b0 as u64) | ((b1 as u64) << 8) | ((b2 as u64) << 16) | ((b3 as u64) << 24)
                | ((b4 as u64) << 32) | ((b5 as u64) << 40) | ((b6 as u64) << 48)
                | ((b7 as u64) << 56),
    ;
}

/// What SHA-256 returns on the given bytes; a function of the bytes alone.
pub uninterp spec fn sha256_of(input: Seq<u8>) -> Seq<u8>;

/// Relies on `eth2_hashing::hash`: the SHA-256 digest of the input, 32 bytes,
/// a function of the input bytes alone.
#[verifier::external_body]
fn sha256(input: &Vec<u8>) -> (r: Vec<u8>)
    ensures
        r@ == sha256_of(input@),
        r@.len() == 32,
{
    eth2_hashing::hash(input)
}

/// The fingerprint of a message to sign: the digest of its bytes.
pub fn fingerprint(msg: &Vec<u8>) -> (d: Digest)
    ensures
        d@ == sha256_of(msg@),
        d == crate::codec::spec_digest_of(sha256_of(msg@)),
{
    let h = sha256(msg);
    Digest::from_bytes(&h)
}

} // verus!
