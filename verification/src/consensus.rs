//! The per-validator consensus state and its rules.
//!
//! A leader-based, chained, certificate-driven protocol: each round has one
//! leader who proposes a block extending the highest known certificate;
//! replicas vote under a locking rule; three consecutive certified rounds
//! commit the oldest of the three. The state here is one replica's view;
//! message transport, signing and timers are the embedding loop's work.

use vstd::prelude::*;
use crate::committee::Committee;
use crate::messages::{Block, BlockView, QC, genesis_qc};
use crate::aggregator::clone_qc;

verus! {

/// One replica's consensus state for one validator.
pub struct ConsensusState {
    /// This replica's operator identity.
    pub name: u64,
    /// The current round (the view).
    pub round: u64,
    /// The last round this replica voted in.
    pub last_voted_round: u64,
    /// The locked round: the replica only votes for proposals whose
    /// certificate is at least this old, or that extend it.
    pub preferred_round: u64,
    /// The highest quorum certificate known.
    pub high_qc: QC,
    /// How many rounds in a row ended in a timeout; drives the backoff.
    pub consecutive_timeouts: u64,
    /// The first timer value, in milliseconds.
    pub base_timeout: u64,
}

impl ConsensusState {
    /// A fresh replica at round 1, holding the genesis certificate.
    pub fn new(name: u64, base_timeout: u64) -> (s: ConsensusState)
        ensures
            s.name == name,
            s.round == 1,
            s.last_voted_round == 0,
            s.preferred_round == 0,
            s.high_qc@ == genesis_qc(),
            s.consecutive_timeouts == 0,
            s.base_timeout == base_timeout,
    {
        ConsensusState {
            name,
            round: 1,
            last_voted_round: 0,
            preferred_round: 0,
            high_qc: QC::genesis(),
            consecutive_timeouts: 0,
            base_timeout,
        }
    }

    /// The voting rule: vote for a proposal exactly when it is newer than
    /// anything voted before, and either its certificate is no older than
    /// the locked round or the block extends the locked round's block.
    /// Whether it extends is settled by the caller against the store.
    pub fn safety_rule(&self, block: &Block, extends_preferred: bool) -> (r: bool)
        ensures
            r == (block@.round > self.last_voted_round
                && (block@.qc.round >= self.preferred_round || extends_preferred)),
    {
        block.round > self.last_voted_round
            && (block.qc.round >= self.preferred_round || extends_preferred)
    }

    /// Records that this replica votes in `round`; the voting rule then
    /// refuses every round up to and including it, forever.
    pub fn record_vote(&mut self, round: u64)
        requires
            round > old(self).last_voted_round,
        ensures
            *final(self) == (ConsensusState { last_voted_round: round, ..*old(self) }),
    {
        self.last_voted_round = round;
    }

    /// Takes a verified certificate in: the highest certificate advances
    /// when the new one is newer; nothing else changes.
    pub fn process_qc(&mut self, qc: &QC)
        ensures
            qc@.round > old(self).high_qc@.round ==> *final(self) == (ConsensusState {
                high_qc: final(self).high_qc,
                ..*old(self)
            }) && final(self).high_qc@ == qc@,
            qc@.round <= old(self).high_qc@.round ==> *final(self) == *old(self),
    {
        if qc.round > self.high_qc.round {
            self.high_qc = clone_qc(qc);
        }
    }

    /// Raises the locked round to `round` if it is higher.
    pub fn update_preferred_round(&mut self, round: u64)
        ensures
            *final(self) == (ConsensusState {
                preferred_round: if round > old(self).preferred_round { round } else {
                    old(self).preferred_round
                },
                ..*old(self)
            }),
    {
        if round > self.preferred_round {
            self.preferred_round = round;
        }
    }

    /// Advances to `round` if it is ahead, resetting the timeout streak.
    pub fn advance_round(&mut self, round: u64)
        requires
            round < u64::MAX,
        ensures
            round >= old(self).round ==> *final(self) == (ConsensusState {
                round: (round + 1) as u64,
                consecutive_timeouts: 0,
                ..*old(self)
            }),
            round < old(self).round ==> *final(self) == *old(self),
    {
        if round >= self.round {
            self.round = round + 1;
            self.consecutive_timeouts = 0;
        }
    }

    /// The current timer value: the base timeout doubled once per
    /// consecutive timeout, saturating instead of overflowing.
    pub fn timer_value(&self) -> (r: u64)
        ensures
            r == spec_backoff(self.base_timeout, self.consecutive_timeouts as nat),
    {
        let mut cur = self.base_timeout;
        let mut i: u64 = 0;
        while i < self.consecutive_timeouts
            invariant
                i <= self.consecutive_timeouts,
                cur == spec_backoff(self.base_timeout, i as nat),
            decreases self.consecutive_timeouts - i,
        {
            if cur > u64::MAX / 2 {
                cur = u64::MAX;
            } else {
                cur = cur * 2;
            }
            i = i + 1;
        }
        cur
    }

    /// One more round ended in a timeout.
    pub fn record_timeout(&mut self)
        requires
            old(self).consecutive_timeouts < u64::MAX,
        ensures
            *final(self) == (ConsensusState {
                consecutive_timeouts: (old(self).consecutive_timeouts + 1) as u64,
                ..*old(self)
            }),
    {
        self.consecutive_timeouts = self.consecutive_timeouts + 1;
    }

    /// Whether this replica leads the given round.
    pub fn is_leader(&self, committee: &Committee, round: u64) -> (r: bool)
        requires
            committee.wf(),
        ensures
            r == (committee.spec_leader(round) == self.name),
    {
        committee.leader(round) == self.name
    }
}

/// The timer value after `k` consecutive timeouts: the base doubled `k`
/// times, saturating at the largest value.
pub open spec fn spec_backoff(base: u64, k: nat) -> u64
    decreases k,
{
    if k == 0 {
        base
    } else {
        let prev = spec_backoff(base, (k - 1) as nat);
        if prev > u64::MAX / 2 {
            u64::MAX
        } else {
            (prev * 2) as u64
        }
    }
}

/// The chained commit rule: three blocks certified in consecutive rounds
/// commit the oldest. `b0` is certified by `b1`'s certificate and `b1` by
/// `b2`'s; the caller resolves that chain through the store.
pub open spec fn spec_commit_rule(b0: BlockView, b1: BlockView, b2: BlockView) -> bool {
    b0.round + 1 == b1.round && b1.round + 1 == b2.round
}

/// Whether the three-chain `b0 <- b1 <- b2` commits `b0`.
pub fn commit_rule(b0: &Block, b1: &Block, b2: &Block) -> (r: bool)
    ensures
        r == spec_commit_rule(b0@, b1@, b2@),
{
    b1.round > 0 && b0.round == b1.round - 1 && b2.round > 0 && b1.round == b2.round - 1
}

// ------------------------------------------------------------------
// Laws of the voting rule: a replica votes at most once per round.

/// An honest replica's votes carry strictly increasing rounds, so it votes
/// at most once per round: a replica that voted a block at `r1` recorded
/// `last_voted_round >= r1` — and `record_vote`, `process_qc`,
/// `update_preferred_round`, `advance_round` and `record_timeout` never
/// lower that mark — so any block the voting rule later lets through is at
/// a strictly later round. This discipline is what lets the honest votes of
/// one round be read as a map in `lemma_commit_agreement`.
pub proof fn lemma_vote_once_per_round(earlier: ConsensusState, later: ConsensusState,
    r1: u64, b2: BlockView, extends2: bool)
    requires
        // the replica voted in round `r1` and recorded it,
        earlier.last_voted_round >= r1,
        // recorded rounds never decrease from one state to a later one,
        later.last_voted_round >= earlier.last_voted_round,
        // and the voting rule lets `b2` through in the later state:
        b2.round > later.last_voted_round,
        b2.qc.round >= later.preferred_round || extends2,
    ensures
        b2.round > r1,
{
}

} // verus!
