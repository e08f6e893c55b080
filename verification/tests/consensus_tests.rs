use dvf_core::aggregator::{TimeoutAggregator, TimeoutOutcome, VoteAggregator, VoteOutcome};
use dvf_core::committee::{Committee, SocketAddress};
use dvf_core::consensus::{commit_rule, ConsensusState};
use dvf_core::digest::Digest;
use dvf_core::errors::ConsensusFault;
use dvf_core::messages::{Block, QcVote, Timeout, Vote, QC};

fn d(seed: u64) -> Digest {
    Digest { w0: seed, w1: seed, w2: 0, w3: 0 }
}

fn addr(port: u16) -> SocketAddress {
    SocketAddress { ip0: 127, ip1: 0, ip2: 0, ip3: 1, port }
}

fn committee_of(n: u64, threshold: u64) -> Committee {
    let ids: Vec<u64> = (1..=n).collect();
    Committee::build(
        7,
        vec![0xc0; 48],
        threshold,
        ids,
        (0..n).map(|i| vec![i as u8; 48]).collect(),
        (0..n).map(|i| vec![i as u8 + 1; 32]).collect(),
        (0..n).map(|i| addr(25_000 + i as u16)).collect(),
    )
    .expect("a consistent definition builds")
}

fn vote(voter: u64, digest: Digest, round: u64) -> Vote {
    Vote { digest, round, voter, signature: vec![voter as u8] }
}

#[test]
fn committee_thresholds() {
    let c = committee_of(4, 3);
    assert_eq!(c.faults(), 1);
    assert_eq!(c.quorum_threshold(), 3);
    let c5 = committee_of(5, 3);
    assert_eq!(c5.faults(), 1);
    assert_eq!(c5.quorum_threshold(), 3);
    let c7 = committee_of(7, 5);
    assert_eq!(c7.faults(), 2);
    assert_eq!(c7.quorum_threshold(), 5);
}

#[test]
fn committee_build_rejects_bad_definitions() {
    // Duplicate operator identities.
    assert!(Committee::build(
        7,
        vec![],
        2,
        vec![1, 2, 2],
        vec![vec![], vec![], vec![]],
        vec![vec![], vec![], vec![]],
        vec![addr(1), addr(2), addr(3)],
    )
    .is_none());
    // A threshold the committee cannot meet.
    assert!(Committee::build(7, vec![], 4, vec![1, 2, 3], vec![vec![], vec![], vec![]],
        vec![vec![], vec![], vec![]], vec![addr(1), addr(2), addr(3)]).is_none());
    // Mismatched list lengths.
    assert!(Committee::build(7, vec![], 2, vec![1, 2, 3], vec![vec![], vec![]],
        vec![vec![], vec![], vec![]], vec![addr(1), addr(2), addr(3)]).is_none());
}

#[test]
fn committee_leader_rotates() {
    let c = committee_of(4, 3);
    assert_eq!(c.leader(0), 1);
    assert_eq!(c.leader(1), 2);
    assert_eq!(c.leader(2), 3);
    assert_eq!(c.leader(3), 4);
    assert_eq!(c.leader(4), 1);
    assert_eq!(c.leader(11), 4);
}

#[test]
fn committee_lookup() {
    let c = committee_of(4, 3);
    let (pk, a) = c.lookup_operator(2).expect("member 2 exists");
    assert_eq!(pk, vec![1u8; 48]);
    assert_eq!(a.port, 25_001);
    assert!(c.lookup_operator(9).is_none());
    assert!(c.is_member(4));
    assert!(!c.is_member(5));
}

#[test]
fn votes_aggregate_into_quorum() {
    let mut agg = VoteAggregator::new(4);
    let target = d(100);
    assert!(matches!(agg.add_vote(vote(1, target, 4), 3), Ok(VoteOutcome::Accepted)));
    assert!(matches!(agg.add_vote(vote(2, target, 4), 3), Ok(VoteOutcome::Accepted)));
    match agg.add_vote(vote(3, target, 4), 3) {
        Ok(VoteOutcome::Quorum(qc)) => {
            assert_eq!(qc.digest, target);
            assert_eq!(qc.round, 4);
            assert_eq!(qc.votes.len(), 3);
            assert_eq!(qc.votes[0].signer, 1);
            assert_eq!(qc.votes[2].signer, 3);
        },
        _ => panic!("three distinct votes on one block form a certificate"),
    }
}

#[test]
fn duplicate_vote_is_idempotent() {
    let mut agg = VoteAggregator::new(4);
    let target = d(100);
    assert!(matches!(agg.add_vote(vote(1, target, 4), 3), Ok(VoteOutcome::Accepted)));
    assert!(matches!(agg.add_vote(vote(1, target, 4), 3), Ok(VoteOutcome::Duplicate)));
    assert_eq!(agg.votes.len(), 1);
}

#[test]
fn equivocation_is_detected_and_absorbed() {
    // One Byzantine voter sends two distinct votes in the same round: the
    // evidence names the voter, the protocol is unaffected, and the honest
    // votes still commit the block.
    let mut agg = VoteAggregator::new(4);
    let target = d(100);
    let other = d(200);
    assert!(matches!(agg.add_vote(vote(1, target, 4), 3), Ok(VoteOutcome::Accepted)));
    assert!(matches!(agg.add_vote(vote(1, other, 4), 3), Err(ConsensusFault::Equivocation(1))));
    assert_eq!(agg.votes.len(), 1);
    assert!(matches!(agg.add_vote(vote(2, target, 4), 3), Ok(VoteOutcome::Accepted)));
    match agg.add_vote(vote(3, target, 4), 3) {
        Ok(VoteOutcome::Quorum(qc)) => assert_eq!(qc.digest, target),
        _ => panic!("the block still commits"),
    }
}

#[test]
fn timeouts_aggregate_with_highest_certificate() {
    let mut agg = TimeoutAggregator::new(9);
    let qc_low = QC { digest: d(1), round: 5, votes: vec![] };
    let qc_high = QC { digest: d(2), round: 8, votes: vec![] };
    let t = |author: u64, qc: &QC| Timeout {
        round: 9,
        high_qc: QC { digest: qc.digest, round: qc.round, votes: vec![] },
        author,
        signature: vec![],
    };
    assert!(matches!(agg.add_timeout(t(1, &qc_low), 3), TimeoutOutcome::Accepted));
    assert!(matches!(agg.add_timeout(t(1, &qc_low), 3), TimeoutOutcome::Duplicate));
    assert!(matches!(agg.add_timeout(t(2, &qc_high), 3), TimeoutOutcome::Accepted));
    match agg.add_timeout(t(3, &qc_low), 3) {
        TimeoutOutcome::Certificate(authors, qc) => {
            assert_eq!(authors, vec![1, 2, 3]);
            assert_eq!(qc.round, 8);
            assert_eq!(qc.digest, d(2));
        },
        _ => panic!("three distinct timeouts form a certificate"),
    }
}

#[test]
fn partitioned_minority_cannot_commit() {
    // Four operators, quorum three, a partition isolating two: neither side
    // can certify a block; once the partition heals and a third vote
    // arrives, the certificate forms.
    let mut agg = VoteAggregator::new(6);
    let target = d(50);
    assert!(matches!(agg.add_vote(vote(1, target, 6), 3), Ok(VoteOutcome::Accepted)));
    assert!(matches!(agg.add_vote(vote(2, target, 6), 3), Ok(VoteOutcome::Accepted)));
    // Still no quorum with only the partition's two votes.
    assert_eq!(agg.votes.len(), 2);
    // The partition heals: the next vote completes the quorum.
    assert!(matches!(agg.add_vote(vote(3, target, 6), 3), Ok(VoteOutcome::Quorum(_))));
}

#[test]
fn safety_rule_votes_once_per_round() {
    let mut state = ConsensusState::new(1, 1_000);
    let block = Block {
        round: 1,
        author: 1,
        qc: QC::genesis(),
        payload: vec![],
        signature: vec![],
    };
    assert!(state.safety_rule(&block, false));
    state.record_vote(1);
    // The same round is refused from then on.
    assert!(!state.safety_rule(&block, false));
    assert!(!state.safety_rule(&block, true));
}

#[test]
fn safety_rule_respects_the_lock() {
    let mut state = ConsensusState::new(1, 1_000);
    state.update_preferred_round(5);
    let stale = Block {
        round: 9,
        author: 1,
        qc: QC { digest: d(3), round: 4, votes: vec![] },
        payload: vec![],
        signature: vec![],
    };
    // An old certificate is refused unless the block extends the lock.
    assert!(!state.safety_rule(&stale, false));
    assert!(state.safety_rule(&stale, true));
    let fresh = Block {
        round: 9,
        author: 1,
        qc: QC { digest: d(3), round: 5, votes: vec![] },
        payload: vec![],
        signature: vec![],
    };
    assert!(state.safety_rule(&fresh, false));
}

#[test]
fn process_qc_keeps_the_highest() {
    let mut state = ConsensusState::new(1, 1_000);
    state.process_qc(&QC { digest: d(1), round: 3, votes: vec![] });
    assert_eq!(state.high_qc.round, 3);
    state.process_qc(&QC { digest: d(2), round: 2, votes: vec![] });
    assert_eq!(state.high_qc.round, 3);
    assert_eq!(state.high_qc.digest, d(1));
}

#[test]
fn commit_rule_needs_three_consecutive_rounds() {
    let b = |round: u64| Block {
        round,
        author: 0,
        qc: QC::genesis(),
        payload: vec![],
        signature: vec![],
    };
    assert!(commit_rule(&b(3), &b(4), &b(5)));
    assert!(!commit_rule(&b(3), &b(5), &b(6)));
    assert!(!commit_rule(&b(3), &b(4), &b(6)));
}

#[test]
fn timer_backoff_doubles_and_saturates() {
    let mut state = ConsensusState::new(1, 1_000);
    assert_eq!(state.timer_value(), 1_000);
    state.record_timeout();
    assert_eq!(state.timer_value(), 2_000);
    state.record_timeout();
    assert_eq!(state.timer_value(), 4_000);
    let mut hot = ConsensusState::new(1, u64::MAX / 2 + 1);
    hot.record_timeout();
    assert_eq!(hot.timer_value(), u64::MAX);
    hot.record_timeout();
    assert_eq!(hot.timer_value(), u64::MAX);
}

#[test]
fn advance_round_resets_backoff() {
    let mut state = ConsensusState::new(1, 1_000);
    state.record_timeout();
    state.advance_round(4);
    assert_eq!(state.round, 5);
    assert_eq!(state.consecutive_timeouts, 0);
    state.advance_round(2);
    assert_eq!(state.round, 5);
}
