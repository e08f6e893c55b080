//! The messages that operators exchange, and their mathematical views.
//!
//! Every exec type here has a view struct over `Seq<u8>` so that contracts
//! can speak of message contents independently of heap identity. Quorum and
//! timeout certificates are derived values; a block embeds the certificate
//! that justifies it.

use vstd::prelude::*;
use crate::digest::Digest;

verus! {

/// One vote inside a quorum certificate: the signer and their signature.
pub struct QcVote {
    pub signer: u64,
    pub signature: Vec<u8>,
}

/// Quorum certificate: at least `2f + 1` distinct signers over
/// `(block_digest, round)`.
pub struct QC {
    pub digest: Digest,
    pub round: u64,
    pub votes: Vec<QcVote>,
}

/// A proposed block of the chained consensus.
pub struct Block {
    pub round: u64,
    pub author: u64,
    pub qc: QC,
    pub payload: Vec<u8>,
    pub signature: Vec<u8>,
}

/// A replica's vote on one block in one round.
pub struct Vote {
    pub digest: Digest,
    pub round: u64,
    pub voter: u64,
    pub signature: Vec<u8>,
}

/// A replica's declaration that its round timer expired, carrying its
/// highest known quorum certificate.
pub struct Timeout {
    pub round: u64,
    pub high_qc: QC,
    pub author: u64,
    pub signature: Vec<u8>,
}

/// One operator's partial signature over a request fingerprint.
pub struct PartialSig {
    pub fp: Digest,
    pub operator_id: u64,
    pub share: Vec<u8>,
}

/// The tagged union carried inside every wire frame.
pub enum ConsensusMessage {
    Propose(Block),
    VoteMsg(Vote),
    TimeoutMsg(Timeout),
    /// A request for the block with the given digest, with the requester's id.
    SyncRequest(Digest, u64),
    SyncReply(Block),
    PartialSignature(PartialSig),
}

/// A wire frame: protocol version, validator the message belongs to, and the
/// encoded inner message. Peers drop mismatched versions silently.
pub struct Frame {
    pub version: u16,
    pub validator_id: u64,
    pub inner: Vec<u8>,
}

// ------------------------------------------------------------------
// Views

#[verifier::ext_equal]
pub struct QcVoteView {
    pub signer: u64,
    pub signature: Seq<u8>,
}

#[verifier::ext_equal]
pub struct QcView {
    pub digest: Digest,
    pub round: u64,
    pub votes: Seq<QcVoteView>,
}

#[verifier::ext_equal]
pub struct BlockView {
    pub round: u64,
    pub author: u64,
    pub qc: QcView,
    pub payload: Seq<u8>,
    pub signature: Seq<u8>,
}

#[verifier::ext_equal]
pub struct VoteView {
    pub digest: Digest,
    pub round: u64,
    pub voter: u64,
    pub signature: Seq<u8>,
}

#[verifier::ext_equal]
pub struct TimeoutView {
    pub round: u64,
    pub high_qc: QcView,
    pub author: u64,
    pub signature: Seq<u8>,
}

#[verifier::ext_equal]
pub struct PartialSigView {
    pub fp: Digest,
    pub operator_id: u64,
    pub share: Seq<u8>,
}

#[verifier::ext_equal]
pub enum MessageView {
    Propose(BlockView),
    VoteMsg(VoteView),
    TimeoutMsg(TimeoutView),
    SyncRequest(Digest, u64),
    SyncReply(BlockView),
    PartialSignature(PartialSigView),
}

#[verifier::ext_equal]
pub struct FrameView {
    pub version: u16,
    pub validator_id: u64,
    pub inner: Seq<u8>,
}

impl View for QcVote {
    type V = QcVoteView;

    open spec fn view(&self) -> QcVoteView {
        QcVoteView { signer: self.signer, signature: self.signature@ }
    }
}

impl View for QC {
    type V = QcView;

    open spec fn view(&self) -> QcView {
        QcView {
            digest: self.digest,
            round: self.round,
            votes: Seq::new(self.votes@.len(), |i: int| self.votes@[i]@),
        }
    }
}

impl View for Block {
    type V = BlockView;

    open spec fn view(&self) -> BlockView {
        BlockView {
            round: self.round,
            author: self.author,
            qc: self.qc@,
            payload: self.payload@,
            signature: self.signature@,
        }
    }
}

impl View for Vote {
    type V = VoteView;

    open spec fn view(&self) -> VoteView {
        VoteView {
            digest: self.digest,
            round: self.round,
            voter: self.voter,
            signature: self.signature@,
        }
    }
}

impl View for Timeout {
    type V = TimeoutView;

    open spec fn view(&self) -> TimeoutView {
        TimeoutView {
            round: self.round,
            high_qc: self.high_qc@,
            author: self.author,
            signature: self.signature@,
        }
    }
}

impl View for PartialSig {
    type V = PartialSigView;

    open spec fn view(&self) -> PartialSigView {
        PartialSigView { fp: self.fp, operator_id: self.operator_id, share: self.share@ }
    }
}

impl View for ConsensusMessage {
    type V = MessageView;

    open spec fn view(&self) -> MessageView {
        match self {
            ConsensusMessage::Propose(b) => MessageView::Propose(b@),
            ConsensusMessage::VoteMsg(v) => MessageView::VoteMsg(v@),
            ConsensusMessage::TimeoutMsg(t) => MessageView::TimeoutMsg(t@),
            ConsensusMessage::SyncRequest(d, who) => MessageView::SyncRequest(*d, *who),
            ConsensusMessage::SyncReply(b) => MessageView::SyncReply(b@),
            ConsensusMessage::PartialSignature(p) => MessageView::PartialSignature(p@),
        }
    }
}

impl View for Frame {
    type V = FrameView;

    open spec fn view(&self) -> FrameView {
        FrameView { version: self.version, validator_id: self.validator_id, inner: self.inner@ }
    }
}

// ------------------------------------------------------------------
// Well-formedness: every length the codec writes as a 64-bit count fits.

pub open spec fn wf_bytes(b: Seq<u8>) -> bool {
    b.len() <= u64::MAX
}

pub open spec fn wf_qc(q: QcView) -> bool {
    &&& q.votes.len() <= u64::MAX
    &&& forall|i: int| 0 <= i < q.votes.len() ==> wf_bytes(#[trigger] q.votes[i].signature)
}

pub open spec fn wf_block(b: BlockView) -> bool {
    &&& wf_qc(b.qc)
    &&& wf_bytes(b.payload)
    &&& wf_bytes(b.signature)
}

pub open spec fn wf_vote(v: VoteView) -> bool {
    wf_bytes(v.signature)
}

pub open spec fn wf_timeout(t: TimeoutView) -> bool {
    &&& wf_qc(t.high_qc)
    &&& wf_bytes(t.signature)
}

pub open spec fn wf_partial(p: PartialSigView) -> bool {
    wf_bytes(p.share)
}

pub open spec fn wf_message(m: MessageView) -> bool {
    match m {
        MessageView::Propose(b) => wf_block(b),
        MessageView::VoteMsg(v) => wf_vote(v),
        MessageView::TimeoutMsg(t) => wf_timeout(t),
        MessageView::SyncRequest(_, _) => true,
        MessageView::SyncReply(b) => wf_block(b),
        MessageView::PartialSignature(p) => wf_partial(p),
    }
}

pub open spec fn wf_frame(f: FrameView) -> bool {
    wf_bytes(f.inner)
}

impl Frame {
    /// Whether a peer accepts this frame: the protocol version and the
    /// validator must both match; anything else is dropped silently.
    pub fn acceptable(&self, version: u16, validator_id: u64) -> (r: bool)
        ensures
            r == (self@.version == version && self@.validator_id == validator_id),
    {
        self.version == version && self.validator_id == validator_id
    }
}

// ------------------------------------------------------------------
// Genesis

impl QC {
    /// The empty certificate that genesis carries; every node agrees on it.
    pub fn genesis() -> (q: QC)
        ensures
            q@ == genesis_qc(),
    {
        let q = QC { digest: Digest::zero(), round: 0, votes: Vec::new() };
        proof {
            assert(q@ =~= genesis_qc());
        }
        q
    }
}

impl Block {
    /// The hard-coded block at round 0; every honest node agrees on it
    /// byte for byte.
    pub fn genesis() -> (b: Block)
        ensures
            b@ == genesis_block(),
    {
        let b = Block {
            round: 0,
            author: 0,
            qc: QC::genesis(),
            payload: Vec::new(),
            signature: Vec::new(),
        };
        proof {
            assert(b@ =~= genesis_block());
        }
        b
    }

    /// The digest of this block: the hash of its canonical encoding.
    pub fn digest(&self) -> (d: Digest)
        ensures
            d == block_digest(self@),
            d@ == crate::digest::sha256_of(crate::codec::enc_block(self@)),
    {
        let bytes = crate::codec::encode_block(self);
        crate::digest::fingerprint(&bytes)
    }

    /// The digest of the parent block, as named by the embedded certificate.
    pub fn parent(&self) -> (d: Digest)
        ensures
            d == self@.qc.digest,
    {
        self.qc.digest
    }

    /// Whether this block's certificate is the genesis certificate, i.e. the
    /// block claims genesis as its parent.
    pub fn extends_genesis(&self) -> (r: bool)
        ensures
            r == (self@.qc == genesis_qc()),
    {
        let r = self.qc.digest == Digest::zero() && self.qc.round == 0 && self.qc.votes.len() == 0;
        proof {
            assert(self@.qc.votes.len() == self.qc.votes@.len());
            if r {
                assert(self@.qc =~= genesis_qc());
            } else {
                if self@.qc == genesis_qc() {
                    assert(self@.qc.votes.len() == 0);
                    assert(self@.qc.digest == (Digest { w0: 0, w1: 0, w2: 0, w3: 0 }));
                    assert(false);
                }
            }
        }
        r
    }
}

/// The digest of a block is the hash of its canonical encoding.
pub open spec fn block_digest(b: BlockView) -> Digest {
    crate::codec::spec_digest_of(crate::digest::sha256_of(crate::codec::enc_block(b)))
}

/// The view of the genesis certificate.
pub open spec fn genesis_qc() -> QcView {
    QcView { digest: Digest { w0: 0, w1: 0, w2: 0, w3: 0 }, round: 0, votes: Seq::empty() }
}

/// The view of the genesis block.
pub open spec fn genesis_block() -> BlockView {
    BlockView {
        round: 0,
        author: 0,
        qc: genesis_qc(),
        payload: Seq::empty(),
        signature: Seq::empty(),
    }
}

} // verus!
