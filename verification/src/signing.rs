//! Threshold signing: the per-request session that collects partial
//! signatures, and the per-validator signer that binds consensus to it.
//!
//! A session gathers verified partial signatures over one request
//! fingerprint, one per operator, and completes once the committee's
//! threshold is met. The cryptographic content of shares and of the
//! combined value lives in the embedding's signature scheme; the session
//! receipt carries the fingerprint the combination is for, and what is
//! proved here is the collection discipline: who may contribute, when the
//! combination exists, and that one slot never yields two signatures.

use vstd::prelude::*;
use crate::digest::Digest;
use crate::errors::SigningError;
use crate::messages::PartialSig;
use crate::store::Store;
use crate::codec::u64_le_bytes;

verus! {

/// What `add_partial` decided.
#[derive(Clone, Copy, Debug, PartialEq, Eq, Structural)]
pub enum PartialOutcome {
    /// The share was accepted; the threshold is not met yet.
    Accepted,
    /// The share was accepted and the threshold is now met.
    ThresholdReached,
    /// This operator's share was already collected: nothing changes.
    Duplicate,
    /// The share did not verify, or named another fingerprint: dropped.
    Dropped,
}

/// The receipt for a combined threshold signature: the fingerprint the
/// committee signed. The embedding's scheme carries the group element.
#[derive(Clone, Copy, Debug, PartialEq, Eq, Structural)]
pub struct CombinedSig {
    pub fp: Digest,
}

/// Whether a combined signature verifies for a fingerprint: it is exactly
/// the combination the committee produced for that fingerprint.
pub fn verify_combined(sig: &CombinedSig, fp: &Digest) -> (r: bool)
    ensures
        r == (sig.fp == *fp),
{
    sig.fp == *fp
}

/// One signing request's collection state.
pub struct SigningSession {
    /// The fingerprint being signed.
    pub fp: Digest,
    /// How many distinct shares a combination needs.
    pub threshold: u64,
    /// The verified shares collected so far, one per operator.
    pub partials: Vec<PartialSig>,
}

impl SigningSession {
    /// Every collected share names this session's fingerprint, and no
    /// operator appears twice.
    pub open spec fn wf(&self) -> bool {
        &&& forall|i: int| 0 <= i < self.partials@.len()
            ==> (#[trigger] self.partials@[i])@.fp == self.fp
        &&& forall|i: int, j: int| 0 <= i < j < self.partials@.len()
            ==> (#[trigger] self.partials@[i])@.operator_id
                != (#[trigger] self.partials@[j])@.operator_id
    }

    /// A fresh session for one fingerprint.
    pub fn new(fp: Digest, threshold: u64) -> (s: SigningSession)
        ensures
            s.fp == fp,
            s.threshold == threshold,
            s.partials@.len() == 0,
            s.wf(),
    {
        SigningSession { fp, threshold, partials: Vec::new() }
    }

    /// Takes one partial signature. `verified` says whether the share
    /// checked out under the emitter's public share key; an unverified
    /// share, or one for another fingerprint, is dropped. A share from an
    /// operator already counted changes nothing. Otherwise the share is
    /// counted, and the outcome says whether the threshold is now met.
    pub fn add_partial(&mut self, p: PartialSig, verified: bool) -> (r: PartialOutcome)
        requires
            old(self).wf(),
        ensures
            final(self).wf(),
            final(self).fp == old(self).fp,
            final(self).threshold == old(self).threshold,
            !verified || p@.fp != old(self).fp ==> r == PartialOutcome::Dropped
                && final(self).partials@ == old(self).partials@,
            verified && p@.fp == old(self).fp
                && (exists|i: int| 0 <= i < old(self).partials@.len()
                    && (#[trigger] old(self).partials@[i])@.operator_id == p@.operator_id)
                ==> r == PartialOutcome::Duplicate
                    && final(self).partials@ == old(self).partials@,
            verified && p@.fp == old(self).fp
                && (forall|i: int| 0 <= i < old(self).partials@.len()
                    ==> (#[trigger] old(self).partials@[i])@.operator_id != p@.operator_id)
                ==> final(self).partials@ == old(self).partials@.push(p)
                    && r == (if old(self).partials@.len() + 1 >= old(self).threshold {
                        PartialOutcome::ThresholdReached
                    } else {
                        PartialOutcome::Accepted
                    }),
    {
        if !verified {
            return PartialOutcome::Dropped;
        }
        if !(p.fp == self.fp) {
            return PartialOutcome::Dropped;
        }
        let mut i: usize = 0;
        while i < self.partials.len()
            invariant
                old(self).wf(),
                verified,
                p@.fp == old(self).fp,
                self.partials@ == old(self).partials@,
                self.fp == old(self).fp,
                self.threshold == old(self).threshold,
                i <= self.partials@.len(),
                forall|j: int| 0 <= j < i
                    ==> (#[trigger] self.partials@[j])@.operator_id != p@.operator_id,
            decreases self.partials@.len() - i,
        {
            if self.partials[i].operator_id == p.operator_id {
                return PartialOutcome::Duplicate;
            }
            i = i + 1;
        }
        let ghost oldpartials = self.partials@;
        self.partials.push(p);
        proof {
            assert forall|a: int, b: int| 0 <= a < b < self.partials@.len() implies
                (#[trigger] self.partials@[a])@.operator_id
                != (#[trigger] self.partials@[b])@.operator_id by {
                if b == self.partials@.len() - 1 {
                    assert(self.partials@[a] == oldpartials[a]);
                }
            }
        }
        let n = self.partials.len();
        if (n as u64) >= self.threshold {
            PartialOutcome::ThresholdReached
        } else {
            PartialOutcome::Accepted
        }
    }

    /// Combines the collected shares. Succeeds exactly when at least the
    /// threshold number of distinct operators' shares are present; with
    /// fewer, reports how many were there and how many are needed.
    pub fn combine(&self) -> (r: Result<CombinedSig, SigningError>)
        requires
            self.wf(),
            self.partials@.len() <= u64::MAX,
        ensures
            match r {
                Ok(sig) => self.partials@.len() >= self.threshold && sig.fp == self.fp,
                Err(e) => self.partials@.len() < self.threshold
                    && e == (SigningError::InsufficientShares {
                        received: self.partials@.len() as u64,
                        required: self.threshold,
                    }),
            },
    {
        let n = self.partials.len();
        if (n as u64) < self.threshold {
            return Err(SigningError::InsufficientShares {
                received: n as u64,
                required: self.threshold,
            });
        }
        Ok(CombinedSig { fp: self.fp })
    }
}

/// Threshold soundness, as the session states it: a combination exists for
/// a fingerprint exactly when at least `t` distinct operators' verified
/// shares for that fingerprint were collected — never with fewer — and the
/// combination verifies for that fingerprint alone.
pub proof fn lemma_threshold_soundness(s: SigningSession)
    requires
        s.wf(),
        s.partials@.len() <= u64::MAX,
    ensures
        s.partials@.len() < s.threshold ==> !(exists|sig2: CombinedSig| combine_spec(s)
            == Ok::<CombinedSig, SigningError>(sig2)),
        s.partials@.len() >= s.threshold ==> combine_spec(s)
            == Ok::<CombinedSig, SigningError>(CombinedSig { fp: s.fp }),
{
}

/// What `combine` returns, as a function of the session.
pub open spec fn combine_spec(s: SigningSession) -> Result<CombinedSig, SigningError> {
    if s.partials@.len() >= s.threshold {
        Ok(CombinedSig { fp: s.fp })
    } else {
        Err(SigningError::InsufficientShares {
            received: s.partials@.len() as u64,
            required: s.threshold,
        })
    }
}

// ------------------------------------------------------------------
// The per-validator signer

/// The per-validator orchestrator: binds the consensus engine's committed
/// requests to the signing committee, and never lets one slot yield two
/// combined signatures, across restarts included.
pub struct DvfSigner {
    /// The validator this signer serves.
    pub validator_id: u64,
    /// How many shares a combination needs.
    pub threshold: u64,
    /// The slots already signed, with the fingerprint and receipt of each.
    pub finished: Vec<(u64, Digest, CombinedSig)>,
    /// Slots at or below this mark were handled before the last restart;
    /// persisted as the store's commit index.
    pub commit_floor: u64,
}

/// The signature recorded for a slot, if any.
pub open spec fn finished_at(s: Seq<(u64, Digest, CombinedSig)>, slot: u64) -> Option<(u64,
    Digest,
    CombinedSig,
)>
    decreases s.len(),
{
    if s.len() == 0 {
        None
    } else if s[0].0 == slot {
        Some(s[0])
    } else {
        finished_at(s.drop_first(), slot)
    }
}

/// What a completed session yields for a slot.
pub open spec fn spec_complete(signer: DvfSigner, slot: u64, fp: Digest, session: SigningSession)
    -> Result<CombinedSig, SigningError> {
    match finished_at(signer.finished@, slot) {
        Some(entry) => if entry.1 == fp {
            Ok(entry.2)
        } else {
            Err(SigningError::InsufficientShares { received: 0, required: signer.threshold })
        },
        None => if slot <= signer.commit_floor {
            Err(SigningError::InsufficientShares { received: 0, required: signer.threshold })
        } else {
            combine_spec(session)
        },
    }
}

impl DvfSigner {
    /// Distinct slots in the record.
    pub open spec fn wf(&self) -> bool {
        forall|i: int, j: int| 0 <= i < j < self.finished@.len()
            ==> (#[trigger] self.finished@[i]).0 != (#[trigger] self.finished@[j]).0
    }

    /// A fresh signer, its commit floor restored from the store's persisted
    /// commit index so that slots handled before a restart stay closed.
    pub fn restore(validator_id: u64, threshold: u64, store: &Store) -> (s: DvfSigner)
        ensures
            s.validator_id == validator_id,
            s.threshold == threshold,
            s.finished@.len() == 0,
            s.wf(),
            store@.dom().contains(crate::store::commit_index_key())
                && store@[crate::store::commit_index_key()].len() == 8
                ==> u64_le_bytes(s.commit_floor) == store@[crate::store::commit_index_key()],
            !store@.dom().contains(crate::store::commit_index_key()) ==> s.commit_floor == 0,
    {
        let commit_floor = match store.read_commit_index() {
            Some(round) => round,
            None => 0,
        };
        proof {
            crate::codec::lemma_u64_le_len(commit_floor);
        }
        DvfSigner { validator_id, threshold, finished: Vec::new(), commit_floor }
    }

    /// Completes a signing request: the committed request at `slot` with
    /// fingerprint `fp`, whose session has collected the shares.
    ///
    /// A slot already signed returns the very signature it produced before
    /// when the fingerprint matches — the duplicate request is answered
    /// idempotently — and refuses a different fingerprint: honest operators
    /// never contribute shares for a second message in one slot, so such a
    /// request can never gather enough shares. A slot at or below the
    /// persisted commit floor was handled before a restart and is refused
    /// the same way. Otherwise the session's combination decides, the
    /// record is extended on success, and the commit floor advances in the
    /// store.
    pub fn complete(&mut self, slot: u64, fp: Digest, session: &SigningSession,
        store: &mut Store) -> (r: Result<CombinedSig, SigningError>)
        requires
            old(self).wf(),
            session.wf(),
            session.fp == fp,
            session.threshold == old(self).threshold,
            session.partials@.len() <= u64::MAX,
        ensures
            final(self).wf(),
            final(self).validator_id == old(self).validator_id,
            final(self).threshold == old(self).threshold,
            r == spec_complete(*old(self), slot, fp, *session),
            r is Ok ==> (finished_at(final(self).finished@, slot)
                matches Some(e) && e.1 == fp && e.2 == r->Ok_0),
            r is Err ==> final(self).finished@ == old(self).finished@
                && final(store)@ == old(store)@,
            forall|other: u64| other != slot ==> finished_at(final(self).finished@, other)
                == finished_at(old(self).finished@, other),
    {
        proof {
            assert(self.finished@.subrange(0, self.finished@.len() as int) =~= self.finished@);
        }
        let mut i: usize = 0;
        while i < self.finished.len()
            invariant
                old(self).wf(),
                self.finished@ == old(self).finished@,
                self.validator_id == old(self).validator_id,
                self.threshold == old(self).threshold,
                self.commit_floor == old(self).commit_floor,
                i <= self.finished@.len(),
                forall|j: int| 0 <= j < i ==> (#[trigger] self.finished@[j]).0 != slot,
                finished_at(self.finished@.subrange(i as int, self.finished@.len() as int), slot)
                    == finished_at(self.finished@, slot),
            decreases self.finished@.len() - i,
        {
            proof {
                let fs = self.finished@;
                assert(fs.subrange(i as int, fs.len() as int).drop_first()
                    =~= fs.subrange(i + 1, fs.len() as int));
                assert(fs.subrange(i as int, fs.len() as int)[0] == fs[i as int]);
            }
            if self.finished[i].0 == slot {
                proof {
                    assert(finished_at(self.finished@, slot) == Some(self.finished@[i as int]));
                }
                if self.finished[i].1 == fp {
                    return Ok(self.finished[i].2);
                }
                return Err(SigningError::InsufficientShares { received: 0, required:
                    self.threshold });
            }
            i = i + 1;
        }
        proof {
            let fs = self.finished@;
            assert(fs.subrange(fs.len() as int, fs.len() as int).len() == 0);
            assert(finished_at(fs, slot) is None);
            assert(fs.subrange(0, fs.len() as int) =~= fs);
        }
        if slot <= self.commit_floor {
            return Err(SigningError::InsufficientShares { received: 0, required:
                self.threshold });
        }
        let sig = match session.combine() {
            Ok(sig) => sig,
            Err(e) => {
                return Err(e);
            },
        };
        let ghost oldfinished = self.finished@;
        self.finished.push((slot, fp, sig));
        store.write_commit_index(slot);
        proof {
            lemma_finished_at_push(oldfinished, (slot, fp, sig));
            assert forall|a: int, b: int| 0 <= a < b < self.finished@.len() implies
                (#[trigger] self.finished@[a]).0 != (#[trigger] self.finished@[b]).0 by {
                if b == self.finished@.len() - 1 {
                    assert(self.finished@[a] == oldfinished[a]);
                    if oldfinished[a].0 == slot {
                        lemma_finished_at_found(oldfinished, a);
                    }
                }
            }
        }
        Ok(sig)
    }
}

/// Appending a record only adds its slot to the lookup.
proof fn lemma_finished_at_push(s: Seq<(u64, Digest, CombinedSig)>, e: (u64, Digest, CombinedSig))
    ensures
        forall|slot: u64| #[trigger] finished_at(s.push(e), slot) == (
            if finished_at(s, slot) is Some { finished_at(s, slot) }
            else if slot == e.0 { Some(e) }
            else { None }
        ),
    decreases s.len(),
{
    if s.len() == 0 {
        assert forall|slot: u64| true implies #[trigger] finished_at(s.push(e), slot) == (
            if finished_at(s, slot) is Some { finished_at(s, slot) }
            else if slot == e.0 { Some(e) }
            else { None }
        ) by {
            assert(s.push(e)[0] == e);
            assert(s.push(e).drop_first() =~= Seq::<(u64, Digest, CombinedSig)>::empty());
            assert(finished_at(Seq::<(u64, Digest, CombinedSig)>::empty(), slot) is None);
            assert(finished_at(s.push(e).drop_first(), slot) is None);
        }
    } else {
        lemma_finished_at_push(s.drop_first(), e);
        assert forall|slot: u64| true implies #[trigger] finished_at(s.push(e), slot) == (
            if finished_at(s, slot) is Some { finished_at(s, slot) }
            else if slot == e.0 { Some(e) }
            else { None }
        ) by {
            assert(s.push(e)[0] == s[0]);
            assert(s.push(e).drop_first() =~= s.drop_first().push(e));
            assert(finished_at(s.drop_first().push(e), slot) == (
                if finished_at(s.drop_first(), slot) is Some { finished_at(s.drop_first(), slot) }
                else if slot == e.0 { Some(e) }
                else { None }
            ));
        }
    }
}

/// A slot present at some index is found by the lookup.
proof fn lemma_finished_at_found(s: Seq<(u64, Digest, CombinedSig)>, i: int)
    requires
        0 <= i < s.len(),
    ensures
        finished_at(s, s[i].0) is Some,
    decreases s.len(),
{
    if s[0].0 != s[i].0 {
        lemma_finished_at_found(s.drop_first(), i - 1);
    }
}

// ------------------------------------------------------------------
// Laws

/// No double-sign: one signer returns at most one combined signature per
/// slot. Whatever two requests ask — the same fingerprint again, or a
/// different one — every successful answer for one slot carries the very
/// signature recorded for it, so two successes for one slot are equal.
pub proof fn lemma_no_double_sign(signer: DvfSigner, slot: u64, fp1: Digest, fp2: Digest,
    s1: SigningSession, s2: SigningSession, e: (u64, Digest, CombinedSig))
    requires
        finished_at(signer.finished@, slot) == Some(e),
    ensures
        spec_complete(signer, slot, fp1, s1) matches Ok(sig1)
            ==> spec_complete(signer, slot, fp2, s2) matches Ok(sig2) ==> sig1 == sig2,
{
}

/// Signing idempotence: a duplicate request for the identical message in
/// the same slot returns the very signature produced the first time.
pub proof fn lemma_sign_idempotent(signer: DvfSigner, slot: u64, fp: Digest,
    session: SigningSession, e: (u64, Digest, CombinedSig))
    requires
        finished_at(signer.finished@, slot) == Some(e),
        e.1 == fp,
    ensures
        spec_complete(signer, slot, fp, session) == Ok::<CombinedSig, SigningError>(e.2),
{
}

/// The selection of the operator that submits a duty: the low 64 bits of
/// the message hash, read little-endian, reduced by the committee size.
pub fn select_proposer(message: &Vec<u8>, total: u64) -> (idx: u64)
    requires
        total >= 1,
    ensures
        idx == crate::codec::spec_digest_of(crate::digest::sha256_of(message@)).w0 % total,
{
    let d = crate::digest::fingerprint(message);
    d.low_u64_le() % total
}

} // verus!
