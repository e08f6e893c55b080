use dvf_core::codec::encode_block;
use dvf_core::digest::{fingerprint, Digest};
use dvf_core::messages::{Block, Frame, QcVote, QC};
use dvf_core::VERSION;
use dvf_core::store::Store;
use dvf_core::errors::ProtocolError;
use dvf_core::sync::{EnqueueAction, Synchronizer};

fn d(seed: u64) -> Digest {
    Digest { w0: seed, w1: 0, w2: 0, w3: seed ^ 1 }
}

#[test]
fn store_write_read() {
    let mut s = Store::new();
    assert_eq!(s.read(&vec![1, 2, 3]), None);
    s.write(vec![1, 2, 3], vec![4, 5]);
    assert_eq!(s.read(&vec![1, 2, 3]), Some(vec![4, 5]));
    // Last write wins.
    s.write(vec![1, 2, 3], vec![6]);
    assert_eq!(s.read(&vec![1, 2, 3]), Some(vec![6]));
    assert_eq!(s.read(&vec![1, 2]), None);
}

#[test]
fn store_commit_index() {
    let mut s = Store::new();
    assert_eq!(s.read_commit_index(), None);
    s.write_commit_index(41);
    assert_eq!(s.read_commit_index(), Some(41));
    s.write_commit_index(42);
    assert_eq!(s.read_commit_index(), Some(42));
}

#[test]
fn store_high_qc_round_trip() {
    let mut s = Store::new();
    assert!(s.read_high_qc().is_none());
    let qc = QC {
        digest: d(5),
        round: 9,
        votes: vec![
            QcVote { signer: 1, signature: vec![1] },
            QcVote { signer: 2, signature: vec![2, 2] },
            QcVote { signer: 3, signature: vec![] },
        ],
    };
    s.write_high_qc(&qc);
    let back = s.read_high_qc().expect("a recorded certificate reads back");
    assert_eq!(back.digest, qc.digest);
    assert_eq!(back.round, 9);
    assert_eq!(back.votes.len(), 3);
    assert_eq!(back.votes[1].signer, 2);
    assert_eq!(back.votes[1].signature, vec![2, 2]);
}

#[test]
fn mismatched_frames_are_dropped() {
    let f = Frame { version: VERSION, validator_id: 7, inner: vec![] };
    assert!(f.acceptable(VERSION, 7));
    assert!(!f.acceptable(VERSION + 1, 7));
    assert!(!f.acceptable(VERSION, 8));
}

#[test]
fn sync_enqueue_is_idempotent() {
    // Enqueueing the same block several times produces one outstanding
    // request and changes nothing afterwards.
    let mut sync = Synchronizer::new(1, 7, 5_000);
    let block = d(10);
    let parent = d(9);
    assert_eq!(sync.enqueue(block, parent, 1_000), EnqueueAction::WaitAndRequest);
    assert_eq!(sync.requests.len(), 1);
    assert_eq!(sync.enqueue(block, parent, 2_000), EnqueueAction::AlreadyPending);
    assert_eq!(sync.enqueue(block, parent, 3_000), EnqueueAction::AlreadyPending);
    assert_eq!(sync.requests.len(), 1);
    assert_eq!(sync.requests[0], (parent, 1_000));
    // A second block waiting on the same parent asks nothing new.
    assert_eq!(sync.enqueue(d(11), parent, 4_000), EnqueueAction::Wait);
    assert_eq!(sync.requests.len(), 1);
}

#[test]
fn sync_tick_retries_once_per_delay() {
    // With a fixed wall clock, one outstanding request is retried exactly
    // once per retry delay.
    let mut sync = Synchronizer::new(1, 7, 1_000);
    let block = d(10);
    let parent = d(9);
    sync.enqueue(block, parent, 0);
    // Not yet stale.
    assert_eq!(sync.tick(500), Vec::<Digest>::new());
    // Stale now: retried once and stamped.
    assert_eq!(sync.tick(2_000), vec![parent]);
    assert_eq!(sync.requests[0], (parent, 2_000));
    // Immediately after, nothing is due until another full delay passes.
    assert_eq!(sync.tick(2_500), Vec::<Digest>::new());
    assert_eq!(sync.tick(3_500), vec![parent]);
}

#[test]
fn sync_tick_skips_actively_watched_digests() {
    // A requested digest that is itself a pending block is skipped: its own
    // waiter is the retry.
    let mut sync = Synchronizer::new(1, 7, 1_000);
    let block = d(10);
    let parent = d(9);
    let grandparent = d(8);
    sync.enqueue(block, parent, 0);
    sync.enqueue(parent, grandparent, 0);
    // Both requests are stale, but `parent` is itself pending.
    assert_eq!(sync.tick(5_000), vec![grandparent]);
    // Once the waiter on `parent` resolves, `parent` is watched no longer
    // and its own stale request goes out on the next tick.
    sync.on_parent_delivered(parent, grandparent);
    assert_eq!(sync.tick(10_000), vec![parent]);
    assert_eq!(sync.requests.len(), 1);
}

#[test]
fn parent_of_genesis_extending_block_is_genesis() {
    let mut sync = Synchronizer::new(1, 7, 1_000);
    let store = Store::new();
    let block = Block {
        round: 1,
        author: 0,
        qc: QC::genesis(),
        payload: vec![],
        signature: vec![],
    };
    let (r, act) = sync.get_parent_block(&store, &block, 0);
    let parent = r.expect("genesis lookup cannot fail").expect("genesis parent exists");
    assert_eq!(parent.round, 0);
    assert_eq!(encode_block(&parent), encode_block(&Block::genesis()));
    assert!(act.is_none());
}

#[test]
fn missing_parent_enqueues_sync() {
    let mut sync = Synchronizer::new(1, 7, 1_000);
    let store = Store::new();
    let block = Block {
        round: 5,
        author: 2,
        qc: QC {
            digest: d(44),
            round: 4,
            votes: vec![QcVote { signer: 1, signature: vec![] }],
        },
        payload: vec![],
        signature: vec![],
    };
    let (r, act) = sync.get_parent_block(&store, &block, 123);
    assert!(r.expect("a missing parent is not an error").is_none());
    assert_eq!(act, Some(EnqueueAction::WaitAndRequest));
    assert_eq!(sync.requests.len(), 1);
    assert_eq!(sync.requests[0], (d(44), 123));
}

#[test]
fn replica_backfills_missing_ancestors() {
    // A replica that trails by several blocks: each proposal's parent is
    // fetched, stored, and the chain replayed until ancestors resolve.
    let mut chain: Vec<Block> = Vec::new();
    let mut parent_digest = Digest { w0: 0, w1: 0, w2: 0, w3: 0 };
    let mut parent_round = 0u64;
    for round in 1..=10u64 {
        let block = Block {
            round,
            author: round % 4,
            qc: QC { digest: parent_digest, round: parent_round, votes: vec![] },
            payload: vec![round as u8],
            signature: vec![],
        };
        parent_digest = block.digest();
        parent_round = round;
        chain.push(block);
    }

    // The replica holds nothing; a peer holds the whole chain.
    let mut local = Store::new();
    let mut sync = Synchronizer::new(0, 7, 1_000);
    let tip = &chain[9];

    // Walk the synchronizer protocol: ask for the parent, let the "peer"
    // answer each sync request by writing the block, and repeat.
    let mut fetched = 0;
    loop {
        let (r, act) = sync.get_parent_block(&local, tip, fetched);
        match r.expect("no stored bytes are malformed here") {
            Some(_) => break,
            None => {
                assert!(act.is_some());
                // The peer serves the requested parent.
                let (want, _) = sync.requests[sync.requests.len() - 1];
                let served = chain
                    .iter()
                    .find(|b| {
                        let dd = b.digest();
                        dd == want
                    })
                    .expect("the peer has every ancestor");
                local.write(want.to_bytes(), encode_block(served));
                sync.on_parent_delivered(tip.digest(), want);
                fetched += 1;
            },
        }
        assert!(fetched <= 11, "backfill must converge");
    }
    assert_eq!(fetched, 1);

    // Transitively: replaying from each block down fills the chain.
    for b in chain.iter().rev() {
        let mut guard = 0;
        loop {
            let (r, _) = sync.get_parent_block(&local, b, 0);
            match r.expect("stored blocks decode") {
                Some(_) => break,
                None => {
                    let (want, _) = sync.requests[sync.requests.len() - 1];
                    let served = chain.iter().find(|c| c.digest() == want).unwrap();
                    local.write(want.to_bytes(), encode_block(served));
                    sync.on_parent_delivered(b.digest(), want);
                },
            }
            guard += 1;
            assert!(guard <= 11);
        }
    }
    // The replica caught up: every block's parent is now local.
    let mut s2 = Synchronizer::new(0, 7, 1_000);
    for b in chain.iter() {
        let (r, _) = s2.get_parent_block(&local, b, 0);
        assert!(r.unwrap().is_some());
    }
}

#[test]
fn ancestors_resolve_transitively() {
    // A chain g <- a <- b with both ancestors local: `get_ancestors` hands
    // back (grandparent, parent); with the parent missing it asks for it.
    let mut store = Store::new();
    let g = Block { round: 1, author: 0, qc: QC::genesis(), payload: vec![1], signature: vec![] };
    let a = Block {
        round: 2,
        author: 1,
        qc: QC { digest: g.digest(), round: 1, votes: vec![] },
        payload: vec![2],
        signature: vec![],
    };
    let b = Block {
        round: 3,
        author: 2,
        qc: QC { digest: a.digest(), round: 2, votes: vec![] },
        payload: vec![3],
        signature: vec![],
    };
    let mut sync = Synchronizer::new(0, 7, 1_000);
    // Parent of b missing: enqueue.
    let (r, act) = sync.get_ancestors(&store, &b, 0);
    assert!(r.unwrap().is_none());
    assert_eq!(act, Some(EnqueueAction::WaitAndRequest));
    // Both ancestors land.
    store.write(g.digest().to_bytes(), encode_block(&g));
    store.write(a.digest().to_bytes(), encode_block(&a));
    sync.on_parent_delivered(b.digest(), a.digest());
    let (r, act) = sync.get_ancestors(&store, &b, 1);
    let (b0, b1) = r.unwrap().expect("both ancestors are local");
    assert_eq!(b0.round, 1);
    assert_eq!(b1.round, 2);
    assert_eq!(encode_block(&b0), encode_block(&g));
    assert_eq!(encode_block(&b1), encode_block(&a));
    assert!(act.is_none());
}

#[test]
fn corrupt_stored_block_is_a_protocol_fault() {
    let mut store = Store::new();
    let parent = d(44);
    let block = Block {
        round: 5,
        author: 2,
        qc: QC { digest: parent, round: 4, votes: vec![] },
        payload: vec![],
        signature: vec![],
    };
    store.write(parent.to_bytes(), vec![0xff, 0x00]);
    let mut sync = Synchronizer::new(0, 7, 1_000);
    let (r, act) = sync.get_parent_block(&store, &block, 0);
    assert!(matches!(r, Err(ProtocolError::MalformedMessage)));
    assert!(act.is_none());
}

#[test]
fn fingerprint_is_sha256() {
    // SHA-256 of "hello world", checked against its published value.
    let msg = b"hello world".to_vec();
    let fp = fingerprint(&msg);
    let expected: [u8; 32] = [
        0xb9, 0x4d, 0x27, 0xb9, 0x93, 0x4d, 0x3e, 0x08, 0xa5, 0x2e, 0x52, 0xd7, 0xda, 0x7d,
        0xab, 0xfa, 0xc4, 0x84, 0xef, 0xe3, 0x7a, 0x53, 0x80, 0xee, 0x90, 0x88, 0xf7, 0xac,
        0xe2, 0xef, 0xcd, 0xe9,
    ];
    assert_eq!(fp.to_bytes(), expected.to_vec());
    assert_eq!(fp, Digest::from_bytes(&expected.to_vec()));
}
