use dvf_core::digest::{fingerprint, Digest};
use dvf_core::errors::SigningError;
use dvf_core::messages::PartialSig;
use dvf_core::signing::{select_proposer, verify_combined, DvfSigner, PartialOutcome,
    SigningSession};
use dvf_core::store::Store;

fn d(seed: u64) -> Digest {
    Digest { w0: seed, w1: 1, w2: 2, w3: 3 }
}

fn share(op: u64, fp: Digest) -> PartialSig {
    PartialSig { fp, operator_id: op, share: vec![op as u8; 96] }
}

#[test]
fn session_collects_to_threshold() {
    // Four operators, threshold three, no faults: the committee signs.
    let fp = fingerprint(&b"hello".to_vec());
    let mut session = SigningSession::new(fp, 3);
    assert_eq!(session.add_partial(share(1, fp), true), PartialOutcome::Accepted);
    assert_eq!(session.add_partial(share(2, fp), true), PartialOutcome::Accepted);
    assert_eq!(session.add_partial(share(3, fp), true), PartialOutcome::ThresholdReached);
    let sig = session.combine().expect("three shares of three suffice");
    assert!(verify_combined(&sig, &fp));
    assert!(!verify_combined(&sig, &d(999)));
}

#[test]
fn session_rejects_invalid_and_foreign_shares() {
    let fp = d(5);
    let mut session = SigningSession::new(fp, 3);
    // A share that does not verify is dropped.
    assert_eq!(session.add_partial(share(1, fp), false), PartialOutcome::Dropped);
    // A share for another fingerprint is dropped.
    assert_eq!(session.add_partial(share(1, d(6)), true), PartialOutcome::Dropped);
    assert_eq!(session.partials.len(), 0);
}

#[test]
fn session_counts_each_operator_once() {
    let fp = d(5);
    let mut session = SigningSession::new(fp, 3);
    assert_eq!(session.add_partial(share(1, fp), true), PartialOutcome::Accepted);
    assert_eq!(session.add_partial(share(1, fp), true), PartialOutcome::Duplicate);
    assert_eq!(session.partials.len(), 1);
}

#[test]
fn too_few_shares_never_combine() {
    // Fewer than the threshold never yields a signature, and the error says
    // what was there and what was needed.
    let fp = d(5);
    let mut session = SigningSession::new(fp, 3);
    session.add_partial(share(1, fp), true);
    session.add_partial(share(2, fp), true);
    assert_eq!(
        session.combine(),
        Err(SigningError::InsufficientShares { received: 2, required: 3 })
    );
}

#[test]
fn duplicate_request_returns_same_signature() {
    // A duplicate signing request for the identical message within the same
    // slot returns the same combined signature.
    let fp = d(5);
    let mut store = Store::new();
    let mut signer = DvfSigner::restore(7, 3, &store);
    let mut session = SigningSession::new(fp, 3);
    session.add_partial(share(1, fp), true);
    session.add_partial(share(2, fp), true);
    session.add_partial(share(3, fp), true);
    let sig1 = signer.complete(10, fp, &session, &mut store).expect("first completion signs");
    let sig2 = signer.complete(10, fp, &session, &mut store).expect("the duplicate is answered");
    assert_eq!(sig1, sig2);
}

#[test]
fn one_slot_never_signs_two_messages() {
    let fp1 = d(5);
    let fp2 = d(6);
    let mut store = Store::new();
    let mut signer = DvfSigner::restore(7, 3, &store);
    let mut s1 = SigningSession::new(fp1, 3);
    s1.add_partial(share(1, fp1), true);
    s1.add_partial(share(2, fp1), true);
    s1.add_partial(share(3, fp1), true);
    signer.complete(10, fp1, &s1, &mut store).expect("the first message signs");
    // A different message in the same slot is refused outright.
    let mut s2 = SigningSession::new(fp2, 3);
    s2.add_partial(share(1, fp2), true);
    s2.add_partial(share(2, fp2), true);
    s2.add_partial(share(3, fp2), true);
    assert_eq!(
        signer.complete(10, fp2, &s2, &mut store),
        Err(SigningError::InsufficientShares { received: 0, required: 3 })
    );
}

#[test]
fn restart_keeps_signed_slots_closed() {
    // Across a restart the record of sessions is gone, but the persisted
    // commit index keeps already-signed slots closed.
    let fp = d(5);
    let mut store = Store::new();
    let mut signer = DvfSigner::restore(7, 3, &store);
    let mut session = SigningSession::new(fp, 3);
    session.add_partial(share(1, fp), true);
    session.add_partial(share(2, fp), true);
    session.add_partial(share(3, fp), true);
    signer.complete(10, fp, &session, &mut store).expect("signs before the restart");

    let mut restarted = DvfSigner::restore(7, 3, &store);
    assert_eq!(
        restarted.complete(10, fp, &session, &mut store),
        Err(SigningError::InsufficientShares { received: 0, required: 3 })
    );
    // A fresh, later slot still signs.
    restarted.complete(11, fp, &session, &mut store).expect("later slots stay open");
}

#[test]
fn incomplete_session_surfaces_the_shortfall() {
    let fp = d(5);
    let mut store = Store::new();
    let mut signer = DvfSigner::restore(7, 3, &store);
    let mut session = SigningSession::new(fp, 3);
    session.add_partial(share(1, fp), true);
    assert_eq!(
        signer.complete(10, fp, &session, &mut store),
        Err(SigningError::InsufficientShares { received: 1, required: 3 })
    );
}

#[test]
fn crash_fault_still_signs() {
    // Five operators, threshold three, one crashed: the other shares still
    // reach the threshold and the committee signs.
    let fp = d(8);
    let mut session = SigningSession::new(fp, 3);
    for op in [1u64, 2, 4, 5] {
        session.add_partial(share(op, fp), true);
    }
    let sig = session.combine().expect("four live operators beat a threshold of three");
    assert!(verify_combined(&sig, &fp));
}

#[test]
fn proposer_selection_follows_the_hash() {
    // The operator that submits a duty is the message hash's low 64 bits,
    // little-endian, reduced by the committee size.
    let msg = b"hello world".to_vec();
    let fp = fingerprint(&msg);
    let low = u64::from_le_bytes(fp.to_bytes()[0..8].try_into().unwrap());
    for n in 1..=5u64 {
        assert_eq!(select_proposer(&msg, n), low % n);
    }
    assert_eq!(select_proposer(&msg, 1), 0);
}
