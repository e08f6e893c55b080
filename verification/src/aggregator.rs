//! Vote and timeout aggregation for one round.
//!
//! The aggregator accepts each voter's first vote, treats a repeat of the
//! same vote as a no-op, reports a second distinct vote from one voter as
//! equivocation evidence without crashing, and assembles a quorum
//! certificate as soon as enough distinct voters back one block. Timeouts
//! aggregate the same way into a timeout certificate carrying the highest
//! certificate seen. Signature verification happens before votes reach the
//! aggregator; what is enforced here is the counting discipline.

use vstd::prelude::*;
use crate::digest::Digest;
use crate::errors::ConsensusFault;
use crate::messages::{Vote, VoteView, Timeout, QC, QcVote, QcVoteView};

verus! {

/// What `add_vote` decided.
pub enum VoteOutcome {
    /// The vote was new; no quorum yet.
    Accepted,
    /// The same voter had already sent this very vote: nothing changes.
    Duplicate,
    /// The vote was new and completes a quorum: the certificate.
    Quorum(QC),
}

/// The votes of one round, each voter counted once.
pub struct VoteAggregator {
    /// The round every collected vote belongs to.
    pub round: u64,
    /// The accepted votes, in arrival order, one per voter.
    pub votes: Vec<Vote>,
}

/// The views of the collected votes.
pub open spec fn votes_view(vs: Seq<Vote>) -> Seq<VoteView> {
    Seq::new(vs.len(), |i: int| vs[i]@)
}

/// The first vote a voter cast, among the views collected.
pub open spec fn vote_by(vs: Seq<VoteView>, voter: u64) -> Option<VoteView>
    decreases vs.len(),
{
    if vs.len() == 0 {
        None
    } else if vs[0].voter == voter {
        Some(vs[0])
    } else {
        vote_by(vs.drop_first(), voter)
    }
}

/// The votes that back one digest.
pub open spec fn votes_for(vs: Seq<VoteView>, d: Digest) -> Seq<VoteView> {
    vs.filter(|v: VoteView| v.digest == d)
}

impl VoteAggregator {
    /// Every collected vote belongs to this round, and no voter appears
    /// twice.
    pub open spec fn wf(&self) -> bool {
        &&& forall|i: int| 0 <= i < self.votes@.len()
            ==> (#[trigger] self.votes@[i])@.round == self.round
        &&& forall|i: int, j: int| 0 <= i < j < self.votes@.len()
            ==> (#[trigger] self.votes@[i])@.voter != (#[trigger] self.votes@[j])@.voter
    }

    /// A fresh aggregator for one round.
    pub fn new(round: u64) -> (a: VoteAggregator)
        ensures
            a.round == round,
            a.votes@.len() == 0,
            a.wf(),
    {
        VoteAggregator { round, votes: Vec::new() }
    }

    /// Takes one verified vote of this round.
    ///
    /// A repeat of a vote already collected changes nothing. A second,
    /// different vote by the same voter is equivocation: the vote is
    /// dropped and the voter named, and the aggregator is unchanged.
    /// Otherwise the vote joins the collection, and once `quorum` distinct
    /// voters back the vote's digest, the certificate over exactly those
    /// votes is returned.
    pub fn add_vote(&mut self, vote: Vote, quorum: u64) -> (r: Result<VoteOutcome, ConsensusFault>)
        requires
            old(self).wf(),
            vote@.round == old(self).round,
        ensures
            final(self).wf(),
            final(self).round == old(self).round,
            match vote_by(votes_view(old(self).votes@), vote@.voter) {
                Some(prior) => {
                    &&& final(self).votes@ == old(self).votes@
                    &&& if prior == vote@ {
                        r matches Ok(o) && o is Duplicate
                    } else {
                        r == Err::<VoteOutcome, ConsensusFault>(
                            ConsensusFault::Equivocation(vote@.voter))
                    }
                },
                None => {
                    &&& votes_view(final(self).votes@) == votes_view(old(self).votes@).push(vote@)
                    &&& {
                        let backing = votes_for(votes_view(final(self).votes@), vote@.digest);
                        if backing.len() >= quorum {
                            r matches Ok(o) && o matches VoteOutcome::Quorum(qc)
                                && qc@.digest == vote@.digest
                                && qc@.round == old(self).round
                                && qc@.votes.len() == backing.len()
                                && (forall|i: int| 0 <= i < backing.len()
                                    ==> #[trigger] qc@.votes[i] == (QcVoteView {
                                        signer: backing[i].voter,
                                        signature: backing[i].signature,
                                    }))
                        } else {
                            r matches Ok(o) && o is Accepted
                        }
                    }
                },
            },
    {
        let ghost oldviews = votes_view(self.votes@);
        proof {
            assert(oldviews.subrange(0, oldviews.len() as int) =~= oldviews);
        }
        // Scan for a prior vote by the same voter.
        let mut i: usize = 0;
        while i < self.votes.len()
            invariant
                old(self).wf(),
                self.votes@ == old(self).votes@,
                self.round == old(self).round,
                vote@.round == self.round,
                i <= self.votes@.len(),
                forall|j: int| 0 <= j < i ==> (#[trigger] self.votes@[j])@.voter != vote@.voter,
                vote_by(votes_view(self.votes@).subrange(i as int, self.votes@.len() as int),
                    vote@.voter) == vote_by(votes_view(self.votes@), vote@.voter),
            decreases self.votes@.len() - i,
        {
            proof {
                let vs = votes_view(self.votes@);
                assert(vs.subrange(i as int, vs.len() as int).drop_first()
                    =~= vs.subrange(i + 1, vs.len() as int));
                assert(vs.subrange(i as int, vs.len() as int)[0] == vs[i as int]);
            }
            if self.votes[i].voter == vote.voter {
                let same = self.votes[i].digest == vote.digest
                    && self.votes[i].round == vote.round
                    && crate::store::bytes_eq(&self.votes[i].signature, &vote.signature);
                proof {
                    let vs = votes_view(self.votes@);
                    assert(vote_by(vs, vote@.voter) == Some(vs[i as int]));
                    if same {
                        assert(vs[i as int] =~= vote@);
                    } else {
                        assert(vs[i as int] != vote@);
                    }
                }
                proof {
                    assert(self.wf());
                }
                if same {
                    return Ok(VoteOutcome::Duplicate);
                }
                return Err(ConsensusFault::Equivocation(vote.voter));
            }
            i = i + 1;
        }
        proof {
            let vs = votes_view(self.votes@);
            assert(vs.subrange(vs.len() as int, vs.len() as int).len() == 0);
            assert(vote_by(vs, vote@.voter) is None);
        }
        let ghost votedigest = vote@.digest;
        self.votes.push(vote);
        let ghost snapshot = self.votes@;
        proof {
            assert(votes_view(self.votes@) =~= oldviews.push(self.votes@.last()@));
            assert forall|a: int, b: int| 0 <= a < b < self.votes@.len() implies
                (#[trigger] self.votes@[a])@.voter != (#[trigger] self.votes@[b])@.voter by {
                if b == self.votes@.len() - 1 {
                    assert(self.votes@[a]@ == oldviews[a]);
                    if oldviews[a].voter == vote@.voter {
                        lemma_vote_by_found(oldviews, a);
                    }
                }
            }
            assert(self.wf());
        }
        // Count and collect the votes backing this digest.
        let d = self.votes[self.votes.len() - 1].digest;
        let mut backing: Vec<QcVote> = Vec::new();
        let mut j: usize = 0;
        proof {
            reveal_with_fuel(Seq::filter, 1);
            assert(votes_view(self.votes@).subrange(0, 0).len() == 0);
            assert(votes_for(votes_view(self.votes@).subrange(0, 0), d) =~=
                Seq::<VoteView>::empty());
        }
        while j < self.votes.len()
            invariant
                self.votes@ == snapshot,
                self.round == old(self).round,
                self.wf(),
                j <= self.votes@.len(),
                d == votedigest,
                backing@.len() == votes_for(votes_view(self.votes@).subrange(0, j as int),
                    d).len(),
                forall|k: int| 0 <= k < backing@.len()
                    ==> (#[trigger] backing@[k])@ == (QcVoteView {
                        signer: votes_for(votes_view(self.votes@).subrange(0, j as int),
                            d)[k].voter,
                        signature: votes_for(votes_view(self.votes@).subrange(0, j as int),
                            d)[k].signature,
                    }),
            decreases self.votes@.len() - j,
        {
            proof {
                reveal_with_fuel(Seq::filter, 1);
                let vs = votes_view(self.votes@);
                let pref = vs.subrange(0, j + 1);
                assert(pref.drop_last() =~= vs.subrange(0, j as int));
                assert(pref.last() == vs[j as int]);
            }
            if self.votes[j].digest == d {
                let qv = QcVote {
                    signer: self.votes[j].voter,
                    signature: clone_bytes(&self.votes[j].signature),
                };
                backing.push(qv);
            }
            j = j + 1;
        }
        proof {
            assert(votes_view(self.votes@).subrange(0, self.votes@.len() as int)
                =~= votes_view(self.votes@));
        }
        let count = backing.len();
        if (count as u64) >= quorum {
            let qc = QC { digest: d, round: self.round, votes: backing };
            proof {
                let backs = votes_for(votes_view(self.votes@), d);
                assert forall|k: int| 0 <= k < backs.len() implies #[trigger] qc@.votes[k]
                    == (QcVoteView { signer: backs[k].voter, signature: backs[k].signature })
                    by {
                    assert(qc@.votes[k] == qc.votes@[k]@);
                }
            }
            return Ok(VoteOutcome::Quorum(qc));
        }
        Ok(VoteOutcome::Accepted)
    }
}

/// Where a voter appears at some index, `vote_by` finds a vote of theirs.
proof fn lemma_vote_by_found(vs: Seq<VoteView>, i: int)
    requires
        0 <= i < vs.len(),
    ensures
        vote_by(vs, vs[i].voter) is Some,
    decreases vs.len(),
{
    if vs[0].voter != vs[i].voter {
        lemma_vote_by_found(vs.drop_first(), i - 1);
    }
}

/// What `add_timeout` decided.
pub enum TimeoutOutcome {
    /// The timeout was new; no quorum yet.
    Accepted,
    /// This author's timeout for the round was already collected.
    Duplicate,
    /// Enough distinct authors timed out: the authors, and the highest
    /// certificate any of them carried.
    Certificate(Vec<u64>, QC),
}

/// The timeouts of one round, each author counted once.
pub struct TimeoutAggregator {
    /// The round every collected timeout belongs to.
    pub round: u64,
    /// The accepted timeouts, in arrival order, one per author.
    pub timeouts: Vec<Timeout>,
}

/// The round of the highest certificate among the collected timeouts.
pub open spec fn max_high_qc_round(ts: Seq<Timeout>) -> int
    decreases ts.len(),
{
    if ts.len() == 0 {
        -1
    } else {
        let rest = max_high_qc_round(ts.drop_last());
        if ts.last()@.high_qc.round >= rest {
            ts.last()@.high_qc.round as int
        } else {
            rest
        }
    }
}

impl TimeoutAggregator {
    /// Every collected timeout belongs to this round, and no author appears
    /// twice.
    pub open spec fn wf(&self) -> bool {
        &&& forall|i: int| 0 <= i < self.timeouts@.len()
            ==> (#[trigger] self.timeouts@[i])@.round == self.round
        &&& forall|i: int, j: int| 0 <= i < j < self.timeouts@.len()
            ==> (#[trigger] self.timeouts@[i])@.author != (#[trigger] self.timeouts@[j])@.author
    }

    /// A fresh aggregator for one round.
    pub fn new(round: u64) -> (a: TimeoutAggregator)
        ensures
            a.round == round,
            a.timeouts@.len() == 0,
            a.wf(),
    {
        TimeoutAggregator { round, timeouts: Vec::new() }
    }

    /// Takes one verified timeout of this round. A second timeout from the
    /// same author changes nothing. Once `quorum` distinct authors have
    /// timed out, returns their identities and the highest certificate any
    /// of them carried.
    pub fn add_timeout(&mut self, timeout: Timeout, quorum: u64) -> (r: TimeoutOutcome)
        requires
            old(self).wf(),
            timeout@.round == old(self).round,
        ensures
            final(self).wf(),
            final(self).round == old(self).round,
            match r {
                TimeoutOutcome::Duplicate => {
                    &&& final(self).timeouts@ == old(self).timeouts@
                    &&& exists|i: int| 0 <= i < old(self).timeouts@.len()
                        && (#[trigger] old(self).timeouts@[i])@.author == timeout@.author
                },
                TimeoutOutcome::Accepted => {
                    &&& final(self).timeouts@ == old(self).timeouts@.push(timeout)
                    &&& (forall|i: int| 0 <= i < old(self).timeouts@.len()
                        ==> (#[trigger] old(self).timeouts@[i])@.author != timeout@.author)
                    &&& final(self).timeouts@.len() < quorum
                },
                TimeoutOutcome::Certificate(authors, qc) => {
                    &&& final(self).timeouts@ == old(self).timeouts@.push(timeout)
                    &&& (forall|i: int| 0 <= i < old(self).timeouts@.len()
                        ==> (#[trigger] old(self).timeouts@[i])@.author != timeout@.author)
                    &&& final(self).timeouts@.len() >= quorum
                    &&& authors@.len() == final(self).timeouts@.len()
                    &&& (forall|i: int| 0 <= i < authors@.len()
                        ==> authors@[i] == (#[trigger] final(self).timeouts@[i])@.author)
                    &&& qc@.round == max_high_qc_round(final(self).timeouts@)
                    &&& exists|i: int| 0 <= i < final(self).timeouts@.len()
                        && (#[trigger] final(self).timeouts@[i])@.high_qc == qc@
                },
            },
    {
        let mut i: usize = 0;
        while i < self.timeouts.len()
            invariant
                old(self).wf(),
                self.timeouts@ == old(self).timeouts@,
                self.round == old(self).round,
                i <= self.timeouts@.len(),
                forall|j: int| 0 <= j < i
                    ==> (#[trigger] self.timeouts@[j])@.author != timeout@.author,
            decreases self.timeouts@.len() - i,
        {
            if self.timeouts[i].author == timeout.author {
                proof {
                    assert(self.wf());
                }
                return TimeoutOutcome::Duplicate;
            }
            i = i + 1;
        }
        self.timeouts.push(timeout);
        proof {
            assert forall|a: int, b: int| 0 <= a < b < self.timeouts@.len() implies
                (#[trigger] self.timeouts@[a])@.author != (#[trigger] self.timeouts@[b])@.author
                by {
                if b == self.timeouts@.len() - 1 {
                    assert(self.timeouts@[a] == old(self).timeouts@[a]);
                }
            }
            assert(self.wf());
        }
        let n = self.timeouts.len();
        if (n as u64) < quorum {
            return TimeoutOutcome::Accepted;
        }
        // Collect the authors and the highest certificate.
        let ghost snapshot = self.timeouts@;
        let mut authors: Vec<u64> = Vec::new();
        let mut best: usize = 0;
        let mut j: usize = 0;
        while j < n
            invariant
                self.timeouts@ == snapshot,
                self.round == old(self).round,
                self.wf(),
                n == self.timeouts@.len(),
                n >= 1,
                j <= n,
                authors@.len() == j,
                forall|k: int| 0 <= k < j
                    ==> authors@[k] == (#[trigger] self.timeouts@[k])@.author,
                j == 0 ==> best == 0,
                j > 0 ==> best < j && self.timeouts@[best as int]@.high_qc.round as int
                    == max_high_qc_round(self.timeouts@.subrange(0, j as int)),
            decreases n - j,
        {
            authors.push(self.timeouts[j].author);
            proof {
                let pref = self.timeouts@.subrange(0, j + 1);
                assert(pref.drop_last() =~= self.timeouts@.subrange(0, j as int));
                assert(pref.last() == self.timeouts@[j as int]);
            }
            if j == 0 {
                best = 0;
                proof {
                    assert(max_high_qc_round(self.timeouts@.subrange(0, 0)) == -1);
                }
            } else if self.timeouts[j].high_qc.round > self.timeouts[best].high_qc.round {
                best = j;
            }
            proof {
                let pref = self.timeouts@.subrange(0, j + 1);
                assert(max_high_qc_round(pref) == (
                    if pref.last()@.high_qc.round >= max_high_qc_round(pref.drop_last()) {
                        pref.last()@.high_qc.round as int
                    } else {
                        max_high_qc_round(pref.drop_last())
                    }
                ));
            }
            j = j + 1;
        }
        proof {
            assert(self.timeouts@.subrange(0, n as int) =~= self.timeouts@);
        }
        let qc = clone_qc(&self.timeouts[best].high_qc);
        TimeoutOutcome::Certificate(authors, qc)
    }
}

/// A copy of a byte string.
pub fn clone_bytes(src: &Vec<u8>) -> (r: Vec<u8>)
    ensures
        r@ == src@,
{
    let mut out: Vec<u8> = Vec::new();
    crate::store::copy_bytes(src, &mut out);
    out
}

/// A copy of a certificate.
pub fn clone_qc(src: &QC) -> (r: QC)
    ensures
        r@ == src@,
{
    let mut votes: Vec<QcVote> = Vec::new();
    let mut i: usize = 0;
    while i < src.votes.len()
        invariant
            i <= src.votes@.len(),
            votes@.len() == i,
            forall|k: int| 0 <= k < i ==> (#[trigger] votes@[k])@ == src.votes@[k]@,
        decreases src.votes@.len() - i,
    {
        let qv = QcVote {
            signer: src.votes[i].signer,
            signature: clone_bytes(&src.votes[i].signature),
        };
        votes.push(qv);
        i = i + 1;
    }
    let r = QC { digest: src.digest, round: src.round, votes };
    proof {
        assert(r@.votes =~= src@.votes);
        assert(r@ =~= src@);
    }
    r
}

} // verus!
