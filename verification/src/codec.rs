//! The wire codec.
//!
//! Every on-the-wire frame is the canonical encoding of
//! `{version: u16, validator_id: u64, inner: bytes}`, and `inner` decodes as
//! a tagged union of the consensus messages. All integers are little-endian,
//! digests are 32 bytes, byte strings and lists carry a 64-bit count.
//!
//! The encoding is specified by the `enc_*` spec functions, the decoding by
//! the `sp_*` spec functions, and the exec functions are proved against
//! them; `lemma_message_round_trip` and `lemma_frame_round_trip` prove that
//! decoding inverts encoding on every well-formed value.

use vstd::prelude::*;
use crate::digest::Digest;
use crate::messages::{
    QcVote, QC, Block, Vote, Timeout, PartialSig, ConsensusMessage, Frame,
    QcVoteView, QcView, BlockView, VoteView, TimeoutView, PartialSigView, MessageView, FrameView,
    wf_bytes, wf_qc, wf_block, wf_vote, wf_timeout, wf_partial, wf_message, wf_frame,
};

verus! {

/// Wire tag of a `Propose` message.
pub const TAG_PROPOSE: u8 = 0;

/// Wire tag of a `Vote` message.
pub const TAG_VOTE: u8 = 1;

/// Wire tag of a `Timeout` message.
pub const TAG_TIMEOUT: u8 = 2;

/// Wire tag of a `SyncRequest` message.
pub const TAG_SYNC_REQUEST: u8 = 3;

/// Wire tag of a `SyncReply` message.
pub const TAG_SYNC_REPLY: u8 = 4;

/// Wire tag of a `PartialSignature` message.
pub const TAG_PARTIAL_SIGNATURE: u8 = 5;

// ------------------------------------------------------------------
// Little-endian bytes of integers

#[verifier::opaque]
pub open spec fn u16_le_bytes(v: u16) -> Seq<u8> {
    seq![(v & 0xff) as u8, ((v >> 8) & 0xff) as u8]
}

#[verifier::opaque]
pub open spec fn u64_le_bytes(v: u64) -> Seq<u8> {
    seq![
        (v & 0xff) as u8,
        ((v >> 8) & 0xff) as u8,
        ((v >> 16) & 0xff) as u8,
        ((v >> 24) & 0xff) as u8,
        ((v >> 32) & 0xff) as u8,
        ((v >> 40) & 0xff) as u8,
        ((v >> 48) & 0xff) as u8,
        ((v >> 56) & 0xff) as u8,
    ]
}

pub open spec fn le_to_u16(b0: u8, b1: u8) -> u16 {
    (b0 as u16) | ((b1 as u16) << 8)
}

pub open spec fn le_to_u64(b0: u8, b1: u8, b2: u8, b3: u8, b4: u8, b5: u8, b6: u8, b7: u8) -> u64 {
    (b0 as u64) | ((b1 as u64) << 8) | ((b2 as u64) << 16) | ((b3 as u64) << 24)
        | ((b4 as u64) << 32) | ((b5 as u64) << 40) | ((b6 as u64) << 48) | ((b7 as u64) << 56)
}

/// The little-endian bytes of a 16-bit word are 2 bytes.
pub broadcast proof fn lemma_u16_le_len(v: u16)
    ensures
        (#[trigger] u16_le_bytes(v)).len() == 2,
{
    reveal(u16_le_bytes);
}

/// The little-endian bytes of a 64-bit word are 8 bytes.
pub broadcast proof fn lemma_u64_le_len(v: u64)
    ensures
        (#[trigger] u64_le_bytes(v)).len() == 8,
{
    reveal(u64_le_bytes);
}

/// An encoded byte string is its count plus its bytes.
pub broadcast proof fn lemma_enc_bytes_len(s: Seq<u8>)
    ensures
        (#[trigger] enc_bytes(s)).len() == 8 + s.len(),
{
    reveal(enc_bytes);
    broadcast use lemma_u64_le_len;
}

/// The canonical form of a digest is 32 bytes.
pub broadcast proof fn lemma_digest_len(d: Digest)
    ensures
        (#[trigger] d.view()).len() == 32,
{
    broadcast use lemma_u64_le_len;
}

/// Reassembling the little-endian bytes of a 16-bit word gives the word back.
pub proof fn lemma_u16_id(v: u16)
    ensures
        le_to_u16((v & 0xff) as u8, ((v >> 8) & 0xff) as u8) == v,
{
    assert((((v & 0xff) as u8) as u16) | (((((v >> 8) & 0xff) as u8) as u16) << 8) == v)
        by (bit_vector);
}

/// Reassembling the little-endian bytes of a 64-bit word gives the word back.
pub proof fn lemma_u64_id(v: u64)
    ensures
        le_to_u64(
            (v & 0xff) as u8,
            ((v >> 8) & 0xff) as u8,
            ((v >> 16) & 0xff) as u8,
            ((v >> 24) & 0xff) as u8,
            ((v >> 32) & 0xff) as u8,
            ((v >> 40) & 0xff) as u8,
            ((v >> 48) & 0xff) as u8,
            ((v >> 56) & 0xff) as u8,
        ) == v,
{
    assert((((v & 0xff) as u8) as u64) | (((((v >> 8) & 0xff) as u8) as u64) << 8)
        | (((((v >> 16) & 0xff) as u8) as u64) << 16) | (((((v >> 24) & 0xff) as u8) as u64) << 24)
        | (((((v >> 32) & 0xff) as u8) as u64) << 32) | (((((v >> 40) & 0xff) as u8) as u64) << 40)
        | (((((v >> 48) & 0xff) as u8) as u64) << 48) | (((((v >> 56) & 0xff) as u8) as u64) << 56)
        == v) by (bit_vector);
}

// ------------------------------------------------------------------
// Spec parsers for the primitives. Each returns the value read and the
// position just past it, or `None` where the buffer is too short.

#[verifier::opaque]
pub open spec fn sp_u8(b: Seq<u8>, i: int) -> Option<(u8, int)> {
    if 0 <= i && i + 1 <= b.len() {
        Some((b[i], i + 1))
    } else {
        None
    }
}

#[verifier::opaque]
pub open spec fn sp_u16(b: Seq<u8>, i: int) -> Option<(u16, int)> {
    if 0 <= i && i + 2 <= b.len() {
        Some((le_to_u16(b[i], b[i + 1]), i + 2))
    } else {
        None
    }
}

#[verifier::opaque]
pub open spec fn sp_u64(b: Seq<u8>, i: int) -> Option<(u64, int)> {
    if 0 <= i && i + 8 <= b.len() {
        Some(
            (
                le_to_u64(
                    b[i],
                    b[i + 1],
                    b[i + 2],
                    b[i + 3],
                    b[i + 4],
                    b[i + 5],
                    b[i + 6],
                    b[i + 7],
                ),
                i + 8,
            ),
        )
    } else {
        None
    }
}

#[verifier::opaque]
pub open spec fn sp_digest(b: Seq<u8>, i: int) -> Option<(Digest, int)> {
    if 0 <= i && i + 32 <= b.len() {
        Some(
            (
                Digest {
                    w0: sp_u64(b, i)->Some_0.0,
                    w1: sp_u64(b, i + 8)->Some_0.0,
                    w2: sp_u64(b, i + 16)->Some_0.0,
                    w3: sp_u64(b, i + 24)->Some_0.0,
                },
                i + 32,
            ),
        )
    } else {
        None
    }
}

/// A byte string: a 64-bit count, then that many bytes.
#[verifier::opaque]
pub open spec fn enc_bytes(s: Seq<u8>) -> Seq<u8> {
    u64_le_bytes(s.len() as u64) + s
}

#[verifier::opaque]
pub open spec fn sp_bytes(b: Seq<u8>, i: int) -> Option<(Seq<u8>, int)> {
    match sp_u64(b, i) {
        Some((n, j)) => if j + n <= b.len() {
            Some((b.subrange(j, j + n), j + n))
        } else {
            None
        },
        None => None,
    }
}

// ------------------------------------------------------------------
// Round-trip lemmas for the primitives, stated over an arbitrary
// surrounding buffer so that they compose.

/// Concatenation of sequences is associative.
pub proof fn lemma_seq_assoc<A>(a: Seq<A>, b: Seq<A>, c: Seq<A>)
    ensures
        (a + b) + c == a + (b + c),
{
    assert((a + b) + c =~= a + (b + c));
}

pub proof fn lemma_rt_u16(pre: Seq<u8>, v: u16, rest: Seq<u8>)
    ensures
        sp_u16(pre + u16_le_bytes(v) + rest, pre.len() as int)
            == Some((v, pre.len() + 2 as int)),
{
    reveal(sp_u16);
    reveal(u16_le_bytes);
    let b = pre + u16_le_bytes(v) + rest;
    let i = pre.len() as int;
    assert(b[i] == u16_le_bytes(v)[0]);
    assert(b[i + 1] == u16_le_bytes(v)[1]);
    lemma_u16_id(v);
}

pub proof fn lemma_rt_u64(pre: Seq<u8>, v: u64, rest: Seq<u8>)
    ensures
        sp_u64(pre + u64_le_bytes(v) + rest, pre.len() as int)
            == Some((v, pre.len() + 8 as int)),
{
    reveal(sp_u64);
    reveal(u64_le_bytes);
    let b = pre + u64_le_bytes(v) + rest;
    let i = pre.len() as int;
    assert(b[i] == u64_le_bytes(v)[0]);
    assert(b[i + 1] == u64_le_bytes(v)[1]);
    assert(b[i + 2] == u64_le_bytes(v)[2]);
    assert(b[i + 3] == u64_le_bytes(v)[3]);
    assert(b[i + 4] == u64_le_bytes(v)[4]);
    assert(b[i + 5] == u64_le_bytes(v)[5]);
    assert(b[i + 6] == u64_le_bytes(v)[6]);
    assert(b[i + 7] == u64_le_bytes(v)[7]);
    lemma_u64_id(v);
}

pub proof fn lemma_rt_digest(pre: Seq<u8>, d: Digest, rest: Seq<u8>)
    ensures
        sp_digest(pre + d@ + rest, pre.len() as int) == Some((d, pre.len() + 32 as int)),
{
    reveal(sp_digest);
    broadcast use lemma_u64_le_len;
    let e0 = u64_le_bytes(d.w0);
    let e1 = u64_le_bytes(d.w1);
    let e2 = u64_le_bytes(d.w2);
    let e3 = u64_le_bytes(d.w3);
    let b = pre + d@ + rest;
    let i = pre.len() as int;
    lemma_seq_assoc(pre, d@, rest);
    lemma_seq_assoc(e0 + e1, e2, e3);
    lemma_seq_assoc(e0, e1, e2 + e3);
    lemma_seq_assoc(e0, e1 + (e2 + e3), rest);
    lemma_seq_assoc(e1, e2 + e3, rest);
    lemma_seq_assoc(e2, e3, rest);
    lemma_seq_assoc(pre, e0, e1 + (e2 + (e3 + rest)));
    lemma_rt_u64(pre, d.w0, e1 + (e2 + (e3 + rest)));
    let p1 = pre + e0;
    lemma_seq_assoc(p1, e1, e2 + (e3 + rest));
    lemma_rt_u64(p1, d.w1, e2 + (e3 + rest));
    let p2 = p1 + e1;
    lemma_seq_assoc(p2, e2, e3 + rest);
    lemma_rt_u64(p2, d.w2, e3 + rest);
    let p3 = p2 + e2;
    lemma_seq_assoc(p3, e3, rest);
    lemma_rt_u64(p3, d.w3, rest);
    assert(sp_u64(b, i) == Some((d.w0, i + 8)));
    assert(sp_u64(b, i + 8) == Some((d.w1, i + 16)));
    assert(sp_u64(b, i + 16) == Some((d.w2, i + 24)));
    assert(sp_u64(b, i + 24) == Some((d.w3, i + 32)));
}

pub proof fn lemma_rt_bytes(pre: Seq<u8>, s: Seq<u8>, rest: Seq<u8>)
    requires
        s.len() <= u64::MAX,
    ensures
        sp_bytes(pre + enc_bytes(s) + rest, pre.len() as int)
            == Some((s, pre.len() + 8 + s.len() as int)),
{
    reveal(sp_bytes);
    reveal(enc_bytes);
    broadcast use lemma_u64_le_len;
    let n = s.len() as u64;
    let e1 = u64_le_bytes(n);
    let b = pre + enc_bytes(s) + rest;
    let i = pre.len() as int;
    lemma_seq_assoc(pre, e1 + s, rest);
    lemma_seq_assoc(e1, s, rest);
    lemma_seq_assoc(pre, e1, s + rest);
    lemma_rt_u64(pre, n, s + rest);
    assert(sp_u64(b, i) == Some((n, i + 8)));
    assert(b.subrange(i + 8, i + 8 + n) =~= s);
}

// ------------------------------------------------------------------
// Message encodings

pub open spec fn enc_qc_vote(v: QcVoteView) -> Seq<u8> {
    u64_le_bytes(v.signer) + enc_bytes(v.signature)
}

pub open spec fn enc_qc_votes(vs: Seq<QcVoteView>) -> Seq<u8>
    decreases vs.len(),
{
    if vs.len() == 0 {
        Seq::empty()
    } else {
        enc_qc_vote(vs[0]) + enc_qc_votes(vs.drop_first())
    }
}

pub open spec fn enc_qc(q: QcView) -> Seq<u8> {
    q.digest@ + u64_le_bytes(q.round) + u64_le_bytes(q.votes.len() as u64) + enc_qc_votes(q.votes)
}

pub open spec fn enc_block(b: BlockView) -> Seq<u8> {
    u64_le_bytes(b.round) + u64_le_bytes(b.author) + enc_qc(b.qc) + enc_bytes(b.payload)
        + enc_bytes(b.signature)
}

pub open spec fn enc_vote(v: VoteView) -> Seq<u8> {
    v.digest@ + u64_le_bytes(v.round) + u64_le_bytes(v.voter) + enc_bytes(v.signature)
}

pub open spec fn enc_timeout(t: TimeoutView) -> Seq<u8> {
    u64_le_bytes(t.round) + enc_qc(t.high_qc) + u64_le_bytes(t.author) + enc_bytes(t.signature)
}

pub open spec fn enc_partial(p: PartialSigView) -> Seq<u8> {
    p.fp@ + u64_le_bytes(p.operator_id) + enc_bytes(p.share)
}

pub open spec fn enc_message(m: MessageView) -> Seq<u8> {
    match m {
        MessageView::Propose(b) => seq![TAG_PROPOSE] + enc_block(b),
        MessageView::VoteMsg(v) => seq![TAG_VOTE] + enc_vote(v),
        MessageView::TimeoutMsg(t) => seq![TAG_TIMEOUT] + enc_timeout(t),
        MessageView::SyncRequest(d, who) => seq![TAG_SYNC_REQUEST] + d@ + u64_le_bytes(who),
        MessageView::SyncReply(b) => seq![TAG_SYNC_REPLY] + enc_block(b),
        MessageView::PartialSignature(p) => seq![TAG_PARTIAL_SIGNATURE] + enc_partial(p),
    }
}

pub open spec fn enc_frame(f: FrameView) -> Seq<u8> {
    u16_le_bytes(f.version) + u64_le_bytes(f.validator_id) + enc_bytes(f.inner)
}

// ------------------------------------------------------------------
// Message parsers

pub open spec fn sp_qc_vote(b: Seq<u8>, i: int) -> Option<(QcVoteView, int)> {
    match sp_u64(b, i) {
        Some((signer, j)) => match sp_bytes(b, j) {
            Some((sig, k)) => Some((QcVoteView { signer, signature: sig }, k)),
            None => None,
        },
        None => None,
    }
}

pub open spec fn sp_qc_votes(b: Seq<u8>, i: int, n: nat) -> Option<(Seq<QcVoteView>, int)>
    decreases n,
{
    if n == 0 {
        Some((Seq::empty(), i))
    } else {
        match sp_qc_vote(b, i) {
            Some((v, j)) => match sp_qc_votes(b, j, (n - 1) as nat) {
                Some((vs, k)) => Some((seq![v] + vs, k)),
                None => None,
            },
            None => None,
        }
    }
}

pub open spec fn sp_qc(b: Seq<u8>, i: int) -> Option<(QcView, int)> {
    match sp_digest(b, i) {
        Some((d, j)) => match sp_u64(b, j) {
            Some((round, k)) => match sp_u64(b, k) {
                Some((n, l)) => match sp_qc_votes(b, l, n as nat) {
                    Some((vs, end)) => Some((QcView { digest: d, round, votes: vs }, end)),
                    None => None,
                },
                None => None,
            },
            None => None,
        },
        None => None,
    }
}

pub open spec fn sp_block(b: Seq<u8>, i: int) -> Option<(BlockView, int)> {
    match sp_u64(b, i) {
        Some((round, j)) => match sp_u64(b, j) {
            Some((author, k)) => match sp_qc(b, k) {
                Some((qc, l)) => match sp_bytes(b, l) {
                    Some((payload, m)) => match sp_bytes(b, m) {
                        Some((sig, end)) => Some(
                            (BlockView { round, author, qc, payload, signature: sig }, end),
                        ),
                        None => None,
                    },
                    None => None,
                },
                None => None,
            },
            None => None,
        },
        None => None,
    }
}

pub open spec fn sp_vote(b: Seq<u8>, i: int) -> Option<(VoteView, int)> {
    match sp_digest(b, i) {
        Some((d, j)) => match sp_u64(b, j) {
            Some((round, k)) => match sp_u64(b, k) {
                Some((voter, l)) => match sp_bytes(b, l) {
                    Some((sig, end)) => Some(
                        (VoteView { digest: d, round, voter, signature: sig }, end),
                    ),
                    None => None,
                },
                None => None,
            },
            None => None,
        },
        None => None,
    }
}

pub open spec fn sp_timeout(b: Seq<u8>, i: int) -> Option<(TimeoutView, int)> {
    match sp_u64(b, i) {
        Some((round, j)) => match sp_qc(b, j) {
            Some((qc, k)) => match sp_u64(b, k) {
                Some((author, l)) => match sp_bytes(b, l) {
                    Some((sig, end)) => Some(
                        (TimeoutView { round, high_qc: qc, author, signature: sig }, end),
                    ),
                    None => None,
                },
                None => None,
            },
            None => None,
        },
        None => None,
    }
}

pub open spec fn sp_partial(b: Seq<u8>, i: int) -> Option<(PartialSigView, int)> {
    match sp_digest(b, i) {
        Some((fp, j)) => match sp_u64(b, j) {
            Some((op, k)) => match sp_bytes(b, k) {
                Some((share, end)) => Some(
                    (PartialSigView { fp, operator_id: op, share }, end),
                ),
                None => None,
            },
            None => None,
        },
        None => None,
    }
}

pub open spec fn sp_message(b: Seq<u8>, i: int) -> Option<(MessageView, int)> {
    match sp_u8(b, i) {
        Some((tag, j)) => if tag == TAG_PROPOSE {
            match sp_block(b, j) {
                Some((bl, end)) => Some((MessageView::Propose(bl), end)),
                None => None,
            }
        } else if tag == TAG_VOTE {
            match sp_vote(b, j) {
                Some((v, end)) => Some((MessageView::VoteMsg(v), end)),
                None => None,
            }
        } else if tag == TAG_TIMEOUT {
            match sp_timeout(b, j) {
                Some((t, end)) => Some((MessageView::TimeoutMsg(t), end)),
                None => None,
            }
        } else if tag == TAG_SYNC_REQUEST {
            match sp_digest(b, j) {
                Some((d, k)) => match sp_u64(b, k) {
                    Some((who, end)) => Some((MessageView::SyncRequest(d, who), end)),
                    None => None,
                },
                None => None,
            }
        } else if tag == TAG_SYNC_REPLY {
            match sp_block(b, j) {
                Some((bl, end)) => Some((MessageView::SyncReply(bl), end)),
                None => None,
            }
        } else if tag == TAG_PARTIAL_SIGNATURE {
            match sp_partial(b, j) {
                Some((p, end)) => Some((MessageView::PartialSignature(p), end)),
                None => None,
            }
        } else {
            None
        },
        None => None,
    }
}

pub open spec fn sp_frame(b: Seq<u8>, i: int) -> Option<(FrameView, int)> {
    match sp_u16(b, i) {
        Some((version, j)) => match sp_u64(b, j) {
            Some((vid, k)) => match sp_bytes(b, k) {
                Some((inner, end)) => Some(
                    (FrameView { version, validator_id: vid, inner }, end),
                ),
                None => None,
            },
            None => None,
        },
        None => None,
    }
}

// ------------------------------------------------------------------
// Round trip: parsing an encoding embedded in any buffer yields the value.

pub proof fn lemma_rt_qc_vote(pre: Seq<u8>, v: QcVoteView, rest: Seq<u8>)
    requires
        wf_bytes(v.signature),
    ensures
        sp_qc_vote(pre + enc_qc_vote(v) + rest, pre.len() as int)
            == Some((v, pre.len() + enc_qc_vote(v).len() as int)),
{
    broadcast use lemma_u16_le_len, lemma_u64_le_len, lemma_enc_bytes_len, lemma_digest_len;
    let e1 = u64_le_bytes(v.signer);
    let e2 = enc_bytes(v.signature);
    let b = pre + enc_qc_vote(v) + rest;
    lemma_seq_assoc(pre, e1 + e2, rest);
    lemma_seq_assoc(e1, e2, rest);
    lemma_seq_assoc(pre, e1, e2 + rest);
    lemma_rt_u64(pre, v.signer, e2 + rest);
    let p1 = pre + e1;
    lemma_seq_assoc(p1, e2, rest);
    lemma_rt_bytes(p1, v.signature, rest);
    assert((QcVoteView { signer: v.signer, signature: v.signature }) =~= v);
}

pub proof fn lemma_rt_qc_votes(pre: Seq<u8>, vs: Seq<QcVoteView>, rest: Seq<u8>)
    requires
        forall|i: int| 0 <= i < vs.len() ==> wf_bytes(#[trigger] vs[i].signature),
    ensures
        sp_qc_votes(pre + enc_qc_votes(vs) + rest, pre.len() as int, vs.len())
            == Some((vs, pre.len() + enc_qc_votes(vs).len() as int)),
    decreases vs.len(),
{
    broadcast use lemma_u16_le_len, lemma_u64_le_len, lemma_enc_bytes_len, lemma_digest_len;
    let b = pre + enc_qc_votes(vs) + rest;
    if vs.len() == 0 {
        assert(vs =~= Seq::<QcVoteView>::empty());
        assert(b =~= pre + rest);
    } else {
        let v0 = vs[0];
        let tail = vs.drop_first();
        let e1 = enc_qc_vote(v0);
        let e2 = enc_qc_votes(tail);
        assert(enc_qc_votes(vs) == e1 + e2);
        lemma_seq_assoc(pre, e1 + e2, rest);
        lemma_seq_assoc(e1, e2, rest);
        lemma_seq_assoc(pre, e1, e2 + rest);
        lemma_rt_qc_vote(pre, v0, e2 + rest);
        let p1 = pre + e1;
        lemma_seq_assoc(p1, e2, rest);
        assert(forall|i: int| 0 <= i < tail.len() ==> wf_bytes(#[trigger] tail[i].signature));
        lemma_rt_qc_votes(p1, tail, rest);
        assert(seq![v0] + tail =~= vs);
    }
}

pub proof fn lemma_rt_qc(pre: Seq<u8>, q: QcView, rest: Seq<u8>)
    requires
        wf_qc(q),
    ensures
        sp_qc(pre + enc_qc(q) + rest, pre.len() as int)
            == Some((q, pre.len() + enc_qc(q).len() as int)),
{
    broadcast use lemma_u16_le_len, lemma_u64_le_len, lemma_enc_bytes_len, lemma_digest_len;
    let n = q.votes.len() as u64;
    let e1 = q.digest@;
    let e2 = u64_le_bytes(q.round);
    let e3 = u64_le_bytes(n);
    let e4 = enc_qc_votes(q.votes);
    let b = pre + enc_qc(q) + rest;
    lemma_seq_assoc(pre, enc_qc(q), rest);
    lemma_seq_assoc(e1 + e2, e3, e4);
    lemma_seq_assoc(e1, e2, e3 + e4);
    lemma_seq_assoc(e1, e2 + (e3 + e4), rest);
    lemma_seq_assoc(e2, e3 + e4, rest);
    lemma_seq_assoc(e3, e4, rest);
    lemma_seq_assoc(pre, e1, e2 + (e3 + (e4 + rest)));
    lemma_rt_digest(pre, q.digest, e2 + (e3 + (e4 + rest)));
    let p1 = pre + e1;
    lemma_seq_assoc(p1, e2, e3 + (e4 + rest));
    lemma_rt_u64(p1, q.round, e3 + (e4 + rest));
    let p2 = p1 + e2;
    lemma_seq_assoc(p2, e3, e4 + rest);
    lemma_rt_u64(p2, n, e4 + rest);
    let p3 = p2 + e3;
    lemma_seq_assoc(p3, e4, rest);
    lemma_rt_qc_votes(p3, q.votes, rest);
    assert((QcView { digest: q.digest, round: q.round, votes: q.votes }) =~= q);
}

pub proof fn lemma_rt_block(pre: Seq<u8>, bl: BlockView, rest: Seq<u8>)
    requires
        wf_block(bl),
    ensures
        sp_block(pre + enc_block(bl) + rest, pre.len() as int)
            == Some((bl, pre.len() + enc_block(bl).len() as int)),
{
    broadcast use lemma_u16_le_len, lemma_u64_le_len, lemma_enc_bytes_len, lemma_digest_len;
    let e1 = u64_le_bytes(bl.round);
    let e2 = u64_le_bytes(bl.author);
    let e3 = enc_qc(bl.qc);
    let e4 = enc_bytes(bl.payload);
    let e5 = enc_bytes(bl.signature);
    let b = pre + enc_block(bl) + rest;
    lemma_seq_assoc(pre, enc_block(bl), rest);
    lemma_seq_assoc(e1 + e2 + e3, e4, e5);
    lemma_seq_assoc(e1 + e2, e3, e4 + e5);
    lemma_seq_assoc(e1, e2, e3 + (e4 + e5));
    lemma_seq_assoc(e1, e2 + (e3 + (e4 + e5)), rest);
    lemma_seq_assoc(e2, e3 + (e4 + e5), rest);
    lemma_seq_assoc(e3, e4 + e5, rest);
    lemma_seq_assoc(e4, e5, rest);
    lemma_seq_assoc(pre, e1, e2 + (e3 + (e4 + (e5 + rest))));
    lemma_rt_u64(pre, bl.round, e2 + (e3 + (e4 + (e5 + rest))));
    let p1 = pre + e1;
    lemma_seq_assoc(p1, e2, e3 + (e4 + (e5 + rest)));
    lemma_rt_u64(p1, bl.author, e3 + (e4 + (e5 + rest)));
    let p2 = p1 + e2;
    lemma_seq_assoc(p2, e3, e4 + (e5 + rest));
    lemma_rt_qc(p2, bl.qc, e4 + (e5 + rest));
    let p3 = p2 + e3;
    lemma_seq_assoc(p3, e4, e5 + rest);
    lemma_rt_bytes(p3, bl.payload, e5 + rest);
    let p4 = p3 + e4;
    lemma_seq_assoc(p4, e5, rest);
    lemma_rt_bytes(p4, bl.signature, rest);
    assert((BlockView {
        round: bl.round,
        author: bl.author,
        qc: bl.qc,
        payload: bl.payload,
        signature: bl.signature,
    }) =~= bl);
}

pub proof fn lemma_rt_vote(pre: Seq<u8>, v: VoteView, rest: Seq<u8>)
    requires
        wf_vote(v),
    ensures
        sp_vote(pre + enc_vote(v) + rest, pre.len() as int)
            == Some((v, pre.len() + enc_vote(v).len() as int)),
{
    broadcast use lemma_u16_le_len, lemma_u64_le_len, lemma_enc_bytes_len, lemma_digest_len;
    let e1 = v.digest@;
    let e2 = u64_le_bytes(v.round);
    let e3 = u64_le_bytes(v.voter);
    let e4 = enc_bytes(v.signature);
    let b = pre + enc_vote(v) + rest;
    lemma_seq_assoc(pre, enc_vote(v), rest);
    lemma_seq_assoc(e1 + e2, e3, e4);
    lemma_seq_assoc(e1, e2, e3 + e4);
    lemma_seq_assoc(e1, e2 + (e3 + e4), rest);
    lemma_seq_assoc(e2, e3 + e4, rest);
    lemma_seq_assoc(e3, e4, rest);
    lemma_seq_assoc(pre, e1, e2 + (e3 + (e4 + rest)));
    lemma_rt_digest(pre, v.digest, e2 + (e3 + (e4 + rest)));
    let p1 = pre + e1;
    lemma_seq_assoc(p1, e2, e3 + (e4 + rest));
    lemma_rt_u64(p1, v.round, e3 + (e4 + rest));
    let p2 = p1 + e2;
    lemma_seq_assoc(p2, e3, e4 + rest);
    lemma_rt_u64(p2, v.voter, e4 + rest);
    let p3 = p2 + e3;
    lemma_seq_assoc(p3, e4, rest);
    lemma_rt_bytes(p3, v.signature, rest);
    assert((VoteView { digest: v.digest, round: v.round, voter: v.voter, signature: v.signature })
        =~= v);
}

pub proof fn lemma_rt_timeout(pre: Seq<u8>, t: TimeoutView, rest: Seq<u8>)
    requires
        wf_timeout(t),
    ensures
        sp_timeout(pre + enc_timeout(t) + rest, pre.len() as int)
            == Some((t, pre.len() + enc_timeout(t).len() as int)),
{
    broadcast use lemma_u16_le_len, lemma_u64_le_len, lemma_enc_bytes_len, lemma_digest_len;
    let e1 = u64_le_bytes(t.round);
    let e2 = enc_qc(t.high_qc);
    let e3 = u64_le_bytes(t.author);
    let e4 = enc_bytes(t.signature);
    let b = pre + enc_timeout(t) + rest;
    lemma_seq_assoc(pre, enc_timeout(t), rest);
    lemma_seq_assoc(e1 + e2, e3, e4);
    lemma_seq_assoc(e1, e2, e3 + e4);
    lemma_seq_assoc(e1, e2 + (e3 + e4), rest);
    lemma_seq_assoc(e2, e3 + e4, rest);
    lemma_seq_assoc(e3, e4, rest);
    lemma_seq_assoc(pre, e1, e2 + (e3 + (e4 + rest)));
    lemma_rt_u64(pre, t.round, e2 + (e3 + (e4 + rest)));
    let p1 = pre + e1;
    lemma_seq_assoc(p1, e2, e3 + (e4 + rest));
    lemma_rt_qc(p1, t.high_qc, e3 + (e4 + rest));
    let p2 = p1 + e2;
    lemma_seq_assoc(p2, e3, e4 + rest);
    lemma_rt_u64(p2, t.author, e4 + rest);
    let p3 = p2 + e3;
    lemma_seq_assoc(p3, e4, rest);
    lemma_rt_bytes(p3, t.signature, rest);
    assert((TimeoutView {
        round: t.round,
        high_qc: t.high_qc,
        author: t.author,
        signature: t.signature,
    }) =~= t);
}

pub proof fn lemma_rt_partial(pre: Seq<u8>, p: PartialSigView, rest: Seq<u8>)
    requires
        wf_partial(p),
    ensures
        sp_partial(pre + enc_partial(p) + rest, pre.len() as int)
            == Some((p, pre.len() + enc_partial(p).len() as int)),
{
    broadcast use lemma_u16_le_len, lemma_u64_le_len, lemma_enc_bytes_len, lemma_digest_len;
    let e1 = p.fp@;
    let e2 = u64_le_bytes(p.operator_id);
    let e3 = enc_bytes(p.share);
    let b = pre + enc_partial(p) + rest;
    lemma_seq_assoc(pre, enc_partial(p), rest);
    lemma_seq_assoc(e1, e2, e3);
    lemma_seq_assoc(e1, e2 + e3, rest);
    lemma_seq_assoc(e2, e3, rest);
    lemma_seq_assoc(pre, e1, e2 + (e3 + rest));
    lemma_rt_digest(pre, p.fp, e2 + (e3 + rest));
    let p1 = pre + e1;
    lemma_seq_assoc(p1, e2, e3 + rest);
    lemma_rt_u64(p1, p.operator_id, e3 + rest);
    let p2 = p1 + e2;
    lemma_seq_assoc(p2, e3, rest);
    lemma_rt_bytes(p2, p.share, rest);
    assert((PartialSigView { fp: p.fp, operator_id: p.operator_id, share: p.share }) =~= p);
}

pub proof fn lemma_rt_message(pre: Seq<u8>, m: MessageView, rest: Seq<u8>)
    requires
        wf_message(m),
    ensures
        sp_message(pre + enc_message(m) + rest, pre.len() as int)
            == Some((m, pre.len() + enc_message(m).len() as int)),
{
    broadcast use lemma_u16_le_len, lemma_u64_le_len, lemma_enc_bytes_len, lemma_digest_len;
    let b = pre + enc_message(m) + rest;
    let i = pre.len() as int;
    match m {
        MessageView::Propose(bl) => {
            lemma_rt_tagged(pre, TAG_PROPOSE, enc_block(bl), rest);
            lemma_rt_block(pre + seq![TAG_PROPOSE], bl, rest);
        },
        MessageView::VoteMsg(v) => {
            lemma_rt_tagged(pre, TAG_VOTE, enc_vote(v), rest);
            lemma_rt_vote(pre + seq![TAG_VOTE], v, rest);
        },
        MessageView::TimeoutMsg(t) => {
            lemma_rt_tagged(pre, TAG_TIMEOUT, enc_timeout(t), rest);
            lemma_rt_timeout(pre + seq![TAG_TIMEOUT], t, rest);
        },
        MessageView::SyncRequest(d, who) => {
            let e2 = d@;
            let e3 = u64_le_bytes(who);
            lemma_seq_assoc(seq![TAG_SYNC_REQUEST], e2, e3);
            lemma_rt_tagged(pre, TAG_SYNC_REQUEST, e2 + e3, rest);
            let p1 = pre + seq![TAG_SYNC_REQUEST];
            lemma_seq_assoc(p1, e2 + e3, rest);
            lemma_seq_assoc(e2, e3, rest);
            lemma_seq_assoc(p1, e2, e3 + rest);
            lemma_rt_digest(p1, d, e3 + rest);
            let p2 = p1 + e2;
            lemma_seq_assoc(p2, e3, rest);
            lemma_rt_u64(p2, who, rest);
        },
        MessageView::SyncReply(bl) => {
            lemma_rt_tagged(pre, TAG_SYNC_REPLY, enc_block(bl), rest);
            lemma_rt_block(pre + seq![TAG_SYNC_REPLY], bl, rest);
        },
        MessageView::PartialSignature(p) => {
            lemma_rt_tagged(pre, TAG_PARTIAL_SIGNATURE, enc_partial(p), rest);
            lemma_rt_partial(pre + seq![TAG_PARTIAL_SIGNATURE], p, rest);
        },
    }
}

/// A tag byte followed by a body parses back to the tag, with the body laid
/// out right after it.
proof fn lemma_rt_tagged(pre: Seq<u8>, tag: u8, body: Seq<u8>, rest: Seq<u8>)
    ensures
        sp_u8(pre + (seq![tag] + body) + rest, pre.len() as int)
            == Some((tag, pre.len() + 1 as int)),
        pre + (seq![tag] + body) + rest == (pre + seq![tag]) + body + rest,
{
    broadcast use lemma_u16_le_len, lemma_u64_le_len, lemma_enc_bytes_len, lemma_digest_len;
    reveal(sp_u8);
    let b = pre + (seq![tag] + body) + rest;
    lemma_seq_assoc(pre, seq![tag] + body, rest);
    lemma_seq_assoc(seq![tag], body, rest);
    lemma_seq_assoc(pre, seq![tag], body + rest);
    let p1 = pre + seq![tag];
    lemma_seq_assoc(p1, body, rest);
    assert(b[pre.len() as int] == p1[pre.len() as int]);
}

pub proof fn lemma_rt_frame(pre: Seq<u8>, f: FrameView, rest: Seq<u8>)
    requires
        wf_frame(f),
    ensures
        sp_frame(pre + enc_frame(f) + rest, pre.len() as int)
            == Some((f, pre.len() + enc_frame(f).len() as int)),
{
    broadcast use lemma_u16_le_len, lemma_u64_le_len, lemma_enc_bytes_len, lemma_digest_len;
    let e1 = u16_le_bytes(f.version);
    let e2 = u64_le_bytes(f.validator_id);
    let e3 = enc_bytes(f.inner);
    let b = pre + enc_frame(f) + rest;
    lemma_seq_assoc(pre, enc_frame(f), rest);
    lemma_seq_assoc(e1, e2, e3);
    lemma_seq_assoc(e1, e2 + e3, rest);
    lemma_seq_assoc(e2, e3, rest);
    lemma_seq_assoc(pre, e1, e2 + (e3 + rest));
    lemma_rt_u16(pre, f.version, e2 + (e3 + rest));
    let p1 = pre + e1;
    lemma_seq_assoc(p1, e2, e3 + rest);
    lemma_rt_u64(p1, f.validator_id, e3 + rest);
    let p2 = p1 + e2;
    lemma_seq_assoc(p2, e3, rest);
    lemma_rt_bytes(p2, f.inner, rest);
    assert((FrameView { version: f.version, validator_id: f.validator_id, inner: f.inner }) =~= f);
}

/// Decoding inverts encoding: every well-formed message comes back from its
/// own bytes, with nothing left over.
pub proof fn lemma_message_round_trip(m: MessageView)
    requires
        wf_message(m),
    ensures
        sp_message(enc_message(m), 0) == Some((m, enc_message(m).len() as int)),
{
    broadcast use lemma_u16_le_len, lemma_u64_le_len, lemma_enc_bytes_len, lemma_digest_len;
    lemma_rt_message(Seq::empty(), m, Seq::empty());
    assert(Seq::empty() + enc_message(m) + Seq::empty() =~= enc_message(m));
}

/// Decoding inverts encoding for whole wire frames.
pub proof fn lemma_frame_round_trip(f: FrameView)
    requires
        wf_frame(f),
    ensures
        sp_frame(enc_frame(f), 0) == Some((f, enc_frame(f).len() as int)),
{
    broadcast use lemma_u16_le_len, lemma_u64_le_len, lemma_enc_bytes_len, lemma_digest_len;
    lemma_rt_frame(Seq::empty(), f, Seq::empty());
    assert(Seq::empty() + enc_frame(f) + Seq::empty() =~= enc_frame(f));
}



// ------------------------------------------------------------------
// Exec encoders. Each appends the canonical bytes of one value.

/// The views of a list of certificate votes.
pub open spec fn view_qc_votes(vs: Seq<QcVote>) -> Seq<QcVoteView> {
    Seq::new(vs.len(), |i: int| vs[i]@)
}

fn put_u16(out: &mut Vec<u8>, v: u16)
    ensures
        final(out)@ == old(out)@ + u16_le_bytes(v),
{
    out.push((v & 0xff) as u8);
    out.push(((v >> 8) & 0xff) as u8);
    proof {
        reveal(u16_le_bytes);
        assert(out@ =~= old(out)@ + u16_le_bytes(v));
    }
}

pub(crate) fn put_u64(out: &mut Vec<u8>, v: u64)
    ensures
        final(out)@ == old(out)@ + u64_le_bytes(v),
{
    out.push((v & 0xff) as u8);
    out.push(((v >> 8) & 0xff) as u8);
    out.push(((v >> 16) & 0xff) as u8);
    out.push(((v >> 24) & 0xff) as u8);
    out.push(((v >> 32) & 0xff) as u8);
    out.push(((v >> 40) & 0xff) as u8);
    out.push(((v >> 48) & 0xff) as u8);
    out.push(((v >> 56) & 0xff) as u8);
    proof {
        reveal(u64_le_bytes);
        assert(out@ =~= old(out)@ + u64_le_bytes(v));
    }
}

fn put_digest(out: &mut Vec<u8>, d: &Digest)
    ensures
        final(out)@ == old(out)@ + d@,
{
    put_u64(out, d.w0);
    put_u64(out, d.w1);
    put_u64(out, d.w2);
    put_u64(out, d.w3);
    proof {
        assert(out@ =~= old(out)@ + d@);
    }
}

fn put_bytes(out: &mut Vec<u8>, s: &Vec<u8>)
    ensures
        final(out)@ == old(out)@ + enc_bytes(s@),
{
    put_u64(out, s.len() as u64);
    let ghost mid: Seq<u8> = out@;
    let mut i: usize = 0;
    while i < s.len()
        invariant
            i <= s@.len(),
            out@ == mid + s@.subrange(0, i as int),
        decreases s@.len() - i,
    {
        out.push(s[i]);
        proof {
            assert(out@ =~= mid + s@.subrange(0, i + 1));
        }
        i = i + 1;
    }
    proof {
        reveal(enc_bytes);
        assert(s@.subrange(0, s@.len() as int) =~= s@);
        assert(out@ =~= old(out)@ + enc_bytes(s@));
    }
}

/// Appending one more vote extends the encoding of a vote list at its end.
proof fn lemma_enc_qc_votes_snoc(vs: Seq<QcVoteView>, v: QcVoteView)
    ensures
        enc_qc_votes(vs.push(v)) == enc_qc_votes(vs) + enc_qc_vote(v),
    decreases vs.len(),
{
    if vs.len() == 0 {
        assert(vs.push(v)[0] == v);
        assert(vs.push(v).drop_first() =~= Seq::<QcVoteView>::empty());
        assert(enc_qc_vote(v) + enc_qc_votes(Seq::<QcVoteView>::empty()) =~= enc_qc_vote(v));
        assert(enc_qc_votes(vs) + enc_qc_vote(v) =~= enc_qc_vote(v));
    } else {
        assert(vs.push(v)[0] == vs[0]);
        assert(vs.push(v).drop_first() =~= vs.drop_first().push(v));
        lemma_enc_qc_votes_snoc(vs.drop_first(), v);
        lemma_seq_assoc(enc_qc_vote(vs[0]), enc_qc_votes(vs.drop_first()), enc_qc_vote(v));
    }
}

fn put_qc_votes(out: &mut Vec<u8>, vs: &Vec<QcVote>)
    ensures
        final(out)@ == old(out)@ + enc_qc_votes(view_qc_votes(vs@)),
{
    let ghost base: Seq<u8> = out@;
    let ghost vw: Seq<QcVoteView> = view_qc_votes(vs@);
    let mut i: usize = 0;
    proof {
        assert(vw.subrange(0, 0) =~= Seq::<QcVoteView>::empty());
        assert(base + enc_qc_votes(vw.subrange(0, 0)) =~= base);
    }
    while i < vs.len()
        invariant
            i <= vs@.len(),
            vw == view_qc_votes(vs@),
            out@ == base + enc_qc_votes(vw.subrange(0, i as int)),
        decreases vs@.len() - i,
    {
        let ghost pre: Seq<u8> = out@;
        put_u64(out, vs[i].signer);
        put_bytes(out, &vs[i].signature);
        proof {
            assert(out@ == pre + u64_le_bytes(vs@[i as int].signer)
                + enc_bytes(vs@[i as int].signature@));
            lemma_seq_assoc(pre, u64_le_bytes(vs@[i as int].signer),
                enc_bytes(vs@[i as int].signature@));
            assert(out@ == pre + enc_qc_vote(vw[i as int]));
            lemma_enc_qc_votes_snoc(vw.subrange(0, i as int), vw[i as int]);
            assert(vw.subrange(0, i as int).push(vw[i as int]) =~= vw.subrange(0, i + 1));
            lemma_seq_assoc(base, enc_qc_votes(vw.subrange(0, i as int)),
                enc_qc_vote(vw[i as int]));
        }
        i = i + 1;
    }
    proof {
        assert(vw.subrange(0, vw.len() as int) =~= vw);
    }
}

fn put_qc(out: &mut Vec<u8>, q: &QC)
    ensures
        final(out)@ == old(out)@ + enc_qc(q@),
{
    put_digest(out, &q.digest);
    put_u64(out, q.round);
    put_u64(out, q.votes.len() as u64);
    put_qc_votes(out, &q.votes);
    proof {
        assert(view_qc_votes(q.votes@) =~= q@.votes);
        assert(q@.votes.len() == q.votes@.len());
        assert(out@ =~= old(out)@ + enc_qc(q@));
    }
}

fn put_block(out: &mut Vec<u8>, b: &Block)
    ensures
        final(out)@ == old(out)@ + enc_block(b@),
{
    put_u64(out, b.round);
    put_u64(out, b.author);
    put_qc(out, &b.qc);
    put_bytes(out, &b.payload);
    put_bytes(out, &b.signature);
    proof {
        assert(out@ =~= old(out)@ + enc_block(b@));
    }
}

fn put_vote(out: &mut Vec<u8>, v: &Vote)
    ensures
        final(out)@ == old(out)@ + enc_vote(v@),
{
    put_digest(out, &v.digest);
    put_u64(out, v.round);
    put_u64(out, v.voter);
    put_bytes(out, &v.signature);
    proof {
        assert(out@ =~= old(out)@ + enc_vote(v@));
    }
}

fn put_timeout(out: &mut Vec<u8>, t: &Timeout)
    ensures
        final(out)@ == old(out)@ + enc_timeout(t@),
{
    put_u64(out, t.round);
    put_qc(out, &t.high_qc);
    put_u64(out, t.author);
    put_bytes(out, &t.signature);
    proof {
        assert(out@ =~= old(out)@ + enc_timeout(t@));
    }
}

fn put_partial(out: &mut Vec<u8>, p: &PartialSig)
    ensures
        final(out)@ == old(out)@ + enc_partial(p@),
{
    put_digest(out, &p.fp);
    put_u64(out, p.operator_id);
    put_bytes(out, &p.share);
    proof {
        assert(out@ =~= old(out)@ + enc_partial(p@));
    }
}

/// The digest whose canonical 32-byte form is `s` (meaningful when `s` has
/// 32 bytes).
pub open spec fn spec_digest_of(s: Seq<u8>) -> Digest {
    sp_digest(s, 0)->Some_0.0
}

/// Encodes a certificate into its canonical bytes, the form the store
/// persists under the reserved high-certificate key.
pub fn encode_qc(q: &QC) -> (r: Vec<u8>)
    ensures
        r@ == enc_qc(q@),
{
    let mut out: Vec<u8> = Vec::new();
    put_qc(&mut out, q);
    proof {
        assert(out@ =~= enc_qc(q@));
    }
    out
}

/// Decodes a certificate from its canonical bytes. Returns
/// `MalformedMessage` exactly where the bytes are not the full encoding of
/// one certificate.
pub fn decode_qc(b: &Vec<u8>) -> (r: Result<QC, crate::errors::ProtocolError>)
    ensures
        match r {
            Ok(q) => sp_qc(b@, 0) == Some((q@, b@.len() as int)),
            Err(e) => {
                &&& e == crate::errors::ProtocolError::MalformedMessage
                &&& (sp_qc(b@, 0) is None || sp_qc(b@, 0)->Some_0.1 != b@.len())
            },
        },
{
    match get_qc(b, 0) {
        Some((q, p)) => if p == b.len() {
            Ok(q)
        } else {
            Err(crate::errors::ProtocolError::MalformedMessage)
        },
        None => Err(crate::errors::ProtocolError::MalformedMessage),
    }
}

/// Encodes a block into its canonical bytes, the form the store persists.
pub fn encode_block(b: &Block) -> (r: Vec<u8>)
    ensures
        r@ == enc_block(b@),
{
    let mut out: Vec<u8> = Vec::new();
    put_block(&mut out, b);
    proof {
        assert(out@ =~= enc_block(b@));
    }
    out
}

/// Decodes a block from its canonical bytes. Returns `MalformedMessage`
/// exactly where the bytes are not the full encoding of one block.
pub fn decode_block(b: &Vec<u8>) -> (r: Result<Block, crate::errors::ProtocolError>)
    ensures
        match r {
            Ok(bl) => sp_block(b@, 0) == Some((bl@, b@.len() as int)),
            Err(e) => {
                &&& e == crate::errors::ProtocolError::MalformedMessage
                &&& (sp_block(b@, 0) is None || sp_block(b@, 0)->Some_0.1 != b@.len())
            },
        },
{
    match get_block(b, 0) {
        Some((bl, p)) => if p == b.len() {
            Ok(bl)
        } else {
            Err(crate::errors::ProtocolError::MalformedMessage)
        },
        None => Err(crate::errors::ProtocolError::MalformedMessage),
    }
}

/// Encodes a consensus message into its canonical bytes.
pub fn encode_message(m: &ConsensusMessage) -> (r: Vec<u8>)
    ensures
        r@ == enc_message(m@),
{
    let mut out: Vec<u8> = Vec::new();
    match m {
        ConsensusMessage::Propose(b) => {
            out.push(TAG_PROPOSE);
            put_block(&mut out, b);
        },
        ConsensusMessage::VoteMsg(v) => {
            out.push(TAG_VOTE);
            put_vote(&mut out, v);
        },
        ConsensusMessage::TimeoutMsg(t) => {
            out.push(TAG_TIMEOUT);
            put_timeout(&mut out, t);
        },
        ConsensusMessage::SyncRequest(d, who) => {
            out.push(TAG_SYNC_REQUEST);
            put_digest(&mut out, d);
            put_u64(&mut out, *who);
        },
        ConsensusMessage::SyncReply(b) => {
            out.push(TAG_SYNC_REPLY);
            put_block(&mut out, b);
        },
        ConsensusMessage::PartialSignature(p) => {
            out.push(TAG_PARTIAL_SIGNATURE);
            put_partial(&mut out, p);
        },
    }
    proof {
        assert(out@ =~= enc_message(m@));
    }
    out
}

/// Encodes a wire frame into its canonical bytes.
pub fn encode_frame(f: &Frame) -> (r: Vec<u8>)
    ensures
        r@ == enc_frame(f@),
{
    let mut out: Vec<u8> = Vec::new();
    put_u16(&mut out, f.version);
    put_u64(&mut out, f.validator_id);
    put_bytes(&mut out, &f.inner);
    proof {
        assert(out@ =~= enc_frame(f@));
    }
    out
}


// ------------------------------------------------------------------
// Exec decoders. Each mirrors its spec parser exactly.

fn get_u8(b: &Vec<u8>, pos: usize) -> (r: Option<(u8, usize)>)
    ensures
        match r {
            Some((v, p)) => sp_u8(b@, pos as int) == Some((v, p as int)) && p == pos + 1
                && p <= b@.len(),
            None => sp_u8(b@, pos as int) is None,
        },
{
    proof {
        reveal(sp_u8);
    }
    if pos < b.len() {
        Some((b[pos], pos + 1))
    } else {
        None
    }
}

fn get_u16(b: &Vec<u8>, pos: usize) -> (r: Option<(u16, usize)>)
    ensures
        match r {
            Some((v, p)) => sp_u16(b@, pos as int) == Some((v, p as int)) && p == pos + 2
                && p <= b@.len(),
            None => sp_u16(b@, pos as int) is None,
        },
{
    proof {
        reveal(sp_u16);
    }
    let n = b.len();
    if pos >= n || n - pos < 2 {
        return None;
    }
    let v = (b[pos] as u16) | ((b[pos + 1] as u16) << 8);
    Some((v, pos + 2))
}

fn get_u64(b: &Vec<u8>, pos: usize) -> (r: Option<(u64, usize)>)
    ensures
        match r {
            Some((v, p)) => sp_u64(b@, pos as int) == Some((v, p as int)) && p == pos + 8
                && p <= b@.len(),
            None => sp_u64(b@, pos as int) is None,
        },
{
    proof {
        reveal(sp_u64);
    }
    let n = b.len();
    if pos >= n || n - pos < 8 {
        return None;
    }
    let v = (b[pos] as u64) | ((b[pos + 1] as u64) << 8) | ((b[pos + 2] as u64) << 16)
        | ((b[pos + 3] as u64) << 24) | ((b[pos + 4] as u64) << 32) | ((b[pos + 5] as u64) << 40)
        | ((b[pos + 6] as u64) << 48) | ((b[pos + 7] as u64) << 56);
    Some((v, pos + 8))
}

fn get_digest(b: &Vec<u8>, pos: usize) -> (r: Option<(Digest, usize)>)
    ensures
        match r {
            Some((d, p)) => sp_digest(b@, pos as int) == Some((d, p as int)) && p == pos + 32
                && p <= b@.len(),
            None => sp_digest(b@, pos as int) is None,
        },
{
    proof {
        reveal(sp_digest);
    }
    let n = b.len();
    if pos >= n || n - pos < 32 {
        return None;
    }
    let r0 = get_u64(b, pos);
    let r1 = get_u64(b, pos + 8);
    let r2 = get_u64(b, pos + 16);
    let r3 = get_u64(b, pos + 24);
    match (r0, r1, r2, r3) {
        (Some((w0, _)), Some((w1, _)), Some((w2, _)), Some((w3, _))) => {
            Some((Digest { w0, w1, w2, w3 }, pos + 32))
        },
        _ => {
            proof {
                reveal(sp_u64);
                assert(false);
            }
            None
        },
    }
}

fn get_bytes(b: &Vec<u8>, pos: usize) -> (r: Option<(Vec<u8>, usize)>)
    ensures
        match r {
            Some((v, p)) => sp_bytes(b@, pos as int) == Some((v@, p as int)) && pos <= p
                && p <= b@.len(),
            None => sp_bytes(b@, pos as int) is None,
        },
{
    proof {
        reveal(sp_bytes);
    }
    let total = b.len();
    let (n, j) = match get_u64(b, pos) {
        Some(x) => x,
        None => {
            return None;
        },
    };
    if n > (total - j) as u64 {
        return None;
    }
    let count = n as usize;
    let mut out: Vec<u8> = Vec::new();
    let mut i: usize = 0;
    while i < count
        invariant
            i <= count,
            j + count <= b@.len(),
            b@.len() <= usize::MAX,
            out@ == b@.subrange(j as int, j + i),
        decreases count - i,
    {
        out.push(b[j + i]);
        proof {
            assert(out@ =~= b@.subrange(j as int, j + i + 1));
        }
        i = i + 1;
    }
    Some((out, j + count))
}

fn get_qc_vote(b: &Vec<u8>, pos: usize) -> (r: Option<(QcVote, usize)>)
    ensures
        match r {
            Some((v, p)) => sp_qc_vote(b@, pos as int) == Some((v@, p as int)),
            None => sp_qc_vote(b@, pos as int) is None,
        },
{
    let (signer, j) = match get_u64(b, pos) {
        Some(x) => x,
        None => {
            return None;
        },
    };
    let (sig, k) = match get_bytes(b, j) {
        Some(x) => x,
        None => {
            return None;
        },
    };
    Some((QcVote { signer, signature: sig }, k))
}

fn get_qc_votes(b: &Vec<u8>, pos: usize, n: u64) -> (r: Option<(Vec<QcVote>, usize)>)
    ensures
        match r {
            Some((vs, p)) => sp_qc_votes(b@, pos as int, n as nat)
                == Some((view_qc_votes(vs@), p as int)),
            None => sp_qc_votes(b@, pos as int, n as nat) is None,
        },
    decreases n,
{
    if n == 0 {
        let empty: Vec<QcVote> = Vec::new();
        proof {
            assert(view_qc_votes(empty@) =~= Seq::<QcVoteView>::empty());
        }
        return Some((empty, pos));
    }
    let (v, j) = match get_qc_vote(b, pos) {
        Some(x) => x,
        None => {
            return None;
        },
    };
    let (mut vs, p) = match get_qc_votes(b, j, n - 1) {
        Some(x) => x,
        None => {
            return None;
        },
    };
    let ghost tail_view = view_qc_votes(vs@);
    vs.insert(0, v);
    proof {
        assert(view_qc_votes(vs@) =~= seq![v@] + tail_view);
    }
    Some((vs, p))
}

fn get_qc(b: &Vec<u8>, pos: usize) -> (r: Option<(QC, usize)>)
    ensures
        match r {
            Some((q, p)) => sp_qc(b@, pos as int) == Some((q@, p as int)),
            None => sp_qc(b@, pos as int) is None,
        },
{
    let (digest, j) = match get_digest(b, pos) {
        Some(x) => x,
        None => {
            return None;
        },
    };
    let (round, k) = match get_u64(b, j) {
        Some(x) => x,
        None => {
            return None;
        },
    };
    let (n, l) = match get_u64(b, k) {
        Some(x) => x,
        None => {
            return None;
        },
    };
    let (votes, p) = match get_qc_votes(b, l, n) {
        Some(x) => x,
        None => {
            return None;
        },
    };
    let q = QC { digest, round, votes };
    proof {
        assert(q@.votes =~= view_qc_votes(q.votes@));
    }
    Some((q, p))
}

fn get_block(b: &Vec<u8>, pos: usize) -> (r: Option<(Block, usize)>)
    ensures
        match r {
            Some((bl, p)) => sp_block(b@, pos as int) == Some((bl@, p as int)),
            None => sp_block(b@, pos as int) is None,
        },
{
    let (round, j) = match get_u64(b, pos) {
        Some(x) => x,
        None => {
            return None;
        },
    };
    let (author, k) = match get_u64(b, j) {
        Some(x) => x,
        None => {
            return None;
        },
    };
    let (qc, l) = match get_qc(b, k) {
        Some(x) => x,
        None => {
            return None;
        },
    };
    let (payload, m) = match get_bytes(b, l) {
        Some(x) => x,
        None => {
            return None;
        },
    };
    let (signature, p) = match get_bytes(b, m) {
        Some(x) => x,
        None => {
            return None;
        },
    };
    Some((Block { round, author, qc, payload, signature }, p))
}

fn get_vote(b: &Vec<u8>, pos: usize) -> (r: Option<(Vote, usize)>)
    ensures
        match r {
            Some((v, p)) => sp_vote(b@, pos as int) == Some((v@, p as int)),
            None => sp_vote(b@, pos as int) is None,
        },
{
    let (digest, j) = match get_digest(b, pos) {
        Some(x) => x,
        None => {
            return None;
        },
    };
    let (round, k) = match get_u64(b, j) {
        Some(x) => x,
        None => {
            return None;
        },
    };
    let (voter, l) = match get_u64(b, k) {
        Some(x) => x,
        None => {
            return None;
        },
    };
    let (signature, p) = match get_bytes(b, l) {
        Some(x) => x,
        None => {
            return None;
        },
    };
    Some((Vote { digest, round, voter, signature }, p))
}

fn get_timeout(b: &Vec<u8>, pos: usize) -> (r: Option<(Timeout, usize)>)
    ensures
        match r {
            Some((t, p)) => sp_timeout(b@, pos as int) == Some((t@, p as int)),
            None => sp_timeout(b@, pos as int) is None,
        },
{
    let (round, j) = match get_u64(b, pos) {
        Some(x) => x,
        None => {
            return None;
        },
    };
    let (high_qc, k) = match get_qc(b, j) {
        Some(x) => x,
        None => {
            return None;
        },
    };
    let (author, l) = match get_u64(b, k) {
        Some(x) => x,
        None => {
            return None;
        },
    };
    let (signature, p) = match get_bytes(b, l) {
        Some(x) => x,
        None => {
            return None;
        },
    };
    Some((Timeout { round, high_qc, author, signature }, p))
}

fn get_partial(b: &Vec<u8>, pos: usize) -> (r: Option<(PartialSig, usize)>)
    ensures
        match r {
            Some((ps, p)) => sp_partial(b@, pos as int) == Some((ps@, p as int)),
            None => sp_partial(b@, pos as int) is None,
        },
{
    let (fp, j) = match get_digest(b, pos) {
        Some(x) => x,
        None => {
            return None;
        },
    };
    let (operator_id, k) = match get_u64(b, j) {
        Some(x) => x,
        None => {
            return None;
        },
    };
    let (share, p) = match get_bytes(b, k) {
        Some(x) => x,
        None => {
            return None;
        },
    };
    Some((PartialSig { fp, operator_id, share }, p))
}

/// Decodes a consensus message from its canonical bytes. Returns
/// `MalformedMessage` exactly where the bytes are not the full encoding of
/// one message.
pub fn decode_message(b: &Vec<u8>) -> (r: Result<ConsensusMessage, crate::errors::ProtocolError>)
    ensures
        match r {
            Ok(m) => sp_message(b@, 0) == Some((m@, b@.len() as int)),
            Err(e) => {
                &&& e == crate::errors::ProtocolError::MalformedMessage
                &&& (sp_message(b@, 0) is None || sp_message(b@, 0)->Some_0.1 != b@.len())
            },
        },
{
    let (tag, j) = match get_u8(b, 0) {
        Some(x) => x,
        None => {
            return Err(crate::errors::ProtocolError::MalformedMessage);
        },
    };
    let parsed: Option<(ConsensusMessage, usize)> = if tag == TAG_PROPOSE {
        match get_block(b, j) {
            Some((bl, p)) => Some((ConsensusMessage::Propose(bl), p)),
            None => None,
        }
    } else if tag == TAG_VOTE {
        match get_vote(b, j) {
            Some((v, p)) => Some((ConsensusMessage::VoteMsg(v), p)),
            None => None,
        }
    } else if tag == TAG_TIMEOUT {
        match get_timeout(b, j) {
            Some((t, p)) => Some((ConsensusMessage::TimeoutMsg(t), p)),
            None => None,
        }
    } else if tag == TAG_SYNC_REQUEST {
        match get_digest(b, j) {
            Some((d, k)) => match get_u64(b, k) {
                Some((who, p)) => Some((ConsensusMessage::SyncRequest(d, who), p)),
                None => None,
            },
            None => None,
        }
    } else if tag == TAG_SYNC_REPLY {
        match get_block(b, j) {
            Some((bl, p)) => Some((ConsensusMessage::SyncReply(bl), p)),
            None => None,
        }
    } else if tag == TAG_PARTIAL_SIGNATURE {
        match get_partial(b, j) {
            Some((ps, p)) => Some((ConsensusMessage::PartialSignature(ps), p)),
            None => None,
        }
    } else {
        None
    };
    match parsed {
        Some((m, p)) => if p == b.len() {
            Ok(m)
        } else {
            Err(crate::errors::ProtocolError::MalformedMessage)
        },
        None => Err(crate::errors::ProtocolError::MalformedMessage),
    }
}

/// Decodes a wire frame from its canonical bytes. Returns
/// `MalformedMessage` exactly where the bytes are not the full encoding of
/// one frame.
pub fn decode_frame(b: &Vec<u8>) -> (r: Result<Frame, crate::errors::ProtocolError>)
    ensures
        match r {
            Ok(f) => sp_frame(b@, 0) == Some((f@, b@.len() as int)),
            Err(e) => {
                &&& e == crate::errors::ProtocolError::MalformedMessage
                &&& (sp_frame(b@, 0) is None || sp_frame(b@, 0)->Some_0.1 != b@.len())
            },
        },
{
    let (version, j) = match get_u16(b, 0) {
        Some(x) => x,
        None => {
            return Err(crate::errors::ProtocolError::MalformedMessage);
        },
    };
    let (validator_id, k) = match get_u64(b, j) {
        Some(x) => x,
        None => {
            return Err(crate::errors::ProtocolError::MalformedMessage);
        },
    };
    let (inner, p) = match get_bytes(b, k) {
        Some(x) => x,
        None => {
            return Err(crate::errors::ProtocolError::MalformedMessage);
        },
    };
    if p == b.len() {
        Ok(Frame { version, validator_id, inner })
    } else {
        Err(crate::errors::ProtocolError::MalformedMessage)
    }
}

} // verus!
