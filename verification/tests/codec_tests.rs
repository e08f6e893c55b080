use dvf_core::codec::{decode_block, decode_frame, decode_message, encode_block, encode_frame,
    encode_message};
use dvf_core::digest::Digest;
use dvf_core::errors::ProtocolError;
use dvf_core::messages::{Block, ConsensusMessage, Frame, PartialSig, QcVote, Timeout, Vote, QC};
use dvf_core::VERSION;

fn sample_digest(seed: u64) -> Digest {
    Digest { w0: seed, w1: seed.wrapping_mul(3), w2: seed ^ 0xdead_beef, w3: !seed }
}

fn sample_qc() -> QC {
    QC {
        digest: sample_digest(7),
        round: 41,
        votes: vec![
            QcVote { signer: 1, signature: vec![0xaa, 0xbb] },
            QcVote { signer: 2, signature: vec![] },
            QcVote { signer: 5, signature: vec![1, 2, 3, 4, 5] },
        ],
    }
}

fn sample_block() -> Block {
    Block {
        round: 42,
        author: 3,
        qc: sample_qc(),
        payload: vec![9, 8, 7],
        signature: vec![0xde, 0xad],
    }
}

fn round_trips(m: &ConsensusMessage) {
    let bytes = encode_message(m);
    let decoded = decode_message(&bytes).expect("a fresh encoding must decode");
    assert_eq!(encode_message(&decoded), bytes);
}

#[test]
fn message_round_trip_propose() {
    round_trips(&ConsensusMessage::Propose(sample_block()));
}

#[test]
fn message_round_trip_vote() {
    round_trips(&ConsensusMessage::VoteMsg(Vote {
        digest: sample_digest(11),
        round: 42,
        voter: 2,
        signature: vec![1, 2, 3],
    }));
}

#[test]
fn message_round_trip_timeout() {
    round_trips(&ConsensusMessage::TimeoutMsg(Timeout {
        round: 43,
        high_qc: sample_qc(),
        author: 1,
        signature: vec![5; 96],
    }));
}

#[test]
fn message_round_trip_sync_request() {
    round_trips(&ConsensusMessage::SyncRequest(sample_digest(99), 4));
}

#[test]
fn message_round_trip_sync_reply() {
    round_trips(&ConsensusMessage::SyncReply(sample_block()));
}

#[test]
fn message_round_trip_partial_signature() {
    round_trips(&ConsensusMessage::PartialSignature(PartialSig {
        fp: sample_digest(17),
        operator_id: 3,
        share: vec![0x11; 48],
    }));
}

#[test]
fn block_round_trip() {
    let b = sample_block();
    let bytes = encode_block(&b);
    let decoded = decode_block(&bytes).expect("a fresh block encoding must decode");
    assert_eq!(encode_block(&decoded), bytes);
}

#[test]
fn frame_round_trip() {
    let inner = encode_message(&ConsensusMessage::SyncRequest(sample_digest(5), 9));
    let f = Frame { version: VERSION, validator_id: 77, inner };
    let bytes = encode_frame(&f);
    let decoded = decode_frame(&bytes).expect("a fresh frame encoding must decode");
    assert_eq!(decoded.version, VERSION);
    assert_eq!(decoded.validator_id, 77);
    assert_eq!(decoded.inner, f.inner);
}

#[test]
fn sync_request_exact_bytes() {
    // Tag 3, then the digest's four words little-endian, then the requester.
    let d = Digest { w0: 1, w1: 2, w2: 3, w3: 4 };
    let bytes = encode_message(&ConsensusMessage::SyncRequest(d, 0x0102));
    let mut expected = vec![3u8];
    for w in [1u64, 2, 3, 4] {
        expected.extend_from_slice(&w.to_le_bytes());
    }
    expected.extend_from_slice(&0x0102u64.to_le_bytes());
    assert_eq!(bytes, expected);
}

#[test]
fn frame_exact_bytes() {
    let f = Frame { version: 1, validator_id: 2, inner: vec![0xab, 0xcd] };
    let bytes = encode_frame(&f);
    let mut expected = vec![1u8, 0u8];
    expected.extend_from_slice(&2u64.to_le_bytes());
    expected.extend_from_slice(&2u64.to_le_bytes());
    expected.extend_from_slice(&[0xab, 0xcd]);
    assert_eq!(bytes, expected);
}

#[test]
fn malformed_message_is_rejected() {
    // An unknown tag.
    assert!(matches!(decode_message(&vec![9u8]), Err(ProtocolError::MalformedMessage)));
    // An empty buffer.
    assert!(matches!(decode_message(&Vec::new()), Err(ProtocolError::MalformedMessage)));
    // A truncated sync request.
    let d = Digest { w0: 1, w1: 2, w2: 3, w3: 4 };
    let mut bytes = encode_message(&ConsensusMessage::SyncRequest(d, 5));
    bytes.pop();
    assert!(matches!(decode_message(&bytes), Err(ProtocolError::MalformedMessage)));
    // Trailing garbage after a full message.
    let mut bytes = encode_message(&ConsensusMessage::SyncRequest(d, 5));
    bytes.push(0);
    assert!(matches!(decode_message(&bytes), Err(ProtocolError::MalformedMessage)));
}

#[test]
fn digest_bytes_round_trip() {
    let d = sample_digest(123);
    let bytes = d.to_bytes();
    assert_eq!(bytes.len(), 32);
    assert_eq!(Digest::from_bytes(&bytes), d);
}
