//! The block synchronizer.
//!
//! When consensus receives a block whose parent is not yet local, the
//! synchronizer records the block as pending, asks the block's author for
//! the parent, and re-delivers the block once the parent lands. A periodic
//! tick re-broadcasts requests that have gone unanswered longer than the
//! retry delay, skipping digests a waiter is still actively watching.
//!
//! The state machine here is pure: the embedding application runs the event
//! loop, performs the sends and store waits, and feeds outcomes back in.

use vstd::prelude::*;
use crate::digest::Digest;
use crate::messages::{Block, BlockView, block_digest, genesis_block, genesis_qc};
use crate::errors::ProtocolError;
use crate::store::Store;
use crate::codec::sp_block;

verus! {

/// What `enqueue` asks the embedding loop to do.
#[derive(Clone, Copy, Debug, PartialEq, Eq, Structural)]
pub enum EnqueueAction {
    /// The block was already pending: nothing to do.
    AlreadyPending,
    /// Spawn a waiter on the parent; a request for it is already out.
    Wait,
    /// Spawn a waiter on the parent and send a sync request to the author.
    WaitAndRequest,
}

/// The synchronizer's bookkeeping as mathematics: which block digests wait
/// on a parent, and when each missing parent was last requested.
#[verifier::ext_equal]
pub struct SyncView {
    pub pending: Set<Digest>,
    pub requests: Map<Digest, u64>,
}

/// The synchronizer's bookkeeping.
pub struct Synchronizer {
    /// This node's operator identity, named as the requester in sync requests.
    pub name: u64,
    /// The validator this instance serves.
    pub validator_id: u64,
    /// Milliseconds after which an unanswered request is re-broadcast.
    pub sync_retry_delay: u64,
    /// Digests of blocks currently waiting on a parent.
    pub pending: Vec<Digest>,
    /// Outstanding parent requests with the time each was last sent.
    pub requests: Vec<(Digest, u64)>,
}

/// Whether `s` holds `d`.
pub open spec fn seq_has(s: Seq<Digest>, d: Digest) -> bool {
    exists|i: int| 0 <= i < s.len() && s[i] == d
}

/// The first timestamp recorded under `d`, scanning from the front.
pub open spec fn req_lookup(s: Seq<(Digest, u64)>, d: Digest) -> Option<u64>
    decreases s.len(),
{
    if s.len() == 0 {
        None
    } else if s[0].0 == d {
        Some(s[0].1)
    } else {
        req_lookup(s.drop_first(), d)
    }
}

impl View for Synchronizer {
    type V = SyncView;

    /// The pending set and request map the bookkeeping encodes.
    open spec fn view(&self) -> SyncView {
        SyncView {
            pending: Set::new(|d: Digest| seq_has(self.pending@, d)),
            requests: Map::new(
                |d: Digest| req_lookup(self.requests@, d) is Some,
                |d: Digest| req_lookup(self.requests@, d)->Some_0,
            ),
        }
    }
}

impl Synchronizer {
    /// The bookkeeping never records two requests for one digest.
    pub open spec fn wf(&self) -> bool {
        forall|i: int, j: int| 0 <= i < j < self.requests@.len()
            ==> (#[trigger] self.requests@[i]).0 != (#[trigger] self.requests@[j]).0
    }
}

// ------------------------------------------------------------------
// The transitions, as spec functions: the contracts below say that the exec
// methods compute exactly these, and the laws are proved of these.

/// What enqueueing a block waiting on `parent` at time `now` does.
pub open spec fn spec_enqueue(s: SyncView, digest: Digest, parent: Digest, now: u64) -> (
    SyncView,
    EnqueueAction,
) {
    if s.pending.contains(digest) {
        (s, EnqueueAction::AlreadyPending)
    } else if s.requests.dom().contains(parent) {
        (SyncView { pending: s.pending.insert(digest), requests: s.requests },
            EnqueueAction::Wait)
    } else {
        (SyncView {
            pending: s.pending.insert(digest),
            requests: s.requests.insert(parent, now),
        }, EnqueueAction::WaitAndRequest)
    }
}

/// What resolving a waiter does, whether it delivered or timed out: the
/// block stops pending and the request for its parent is dropped.
pub open spec fn spec_resolve(s: SyncView, digest: Digest, parent: Digest) -> SyncView {
    SyncView { pending: s.pending.remove(digest), requests: s.requests.remove(parent) }
}

impl Synchronizer {
    /// A fresh synchronizer for one validator: nothing pending, nothing
    /// requested.
    pub fn new(name: u64, validator_id: u64, sync_retry_delay: u64) -> (s: Synchronizer)
        ensures
            s@ == (SyncView { pending: Set::empty(), requests: Map::empty() }),
            s.name == name,
            s.validator_id == validator_id,
            s.sync_retry_delay == sync_retry_delay,
            s.wf(),
    {
        let s = Synchronizer {
            name,
            validator_id,
            sync_retry_delay,
            pending: Vec::new(),
            requests: Vec::new(),
        };
        proof {
            assert(s@.pending =~= Set::<Digest>::empty());
            assert(s@.requests =~= Map::<Digest, u64>::empty());
            assert(s@ =~= (SyncView { pending: Set::empty(), requests: Map::empty() }));
        }
        s
    }

    /// Records a block whose parent is missing. Idempotent on the block's
    /// digest: a block already pending changes nothing.
    pub fn enqueue(&mut self, digest: Digest, parent: Digest, now: u64) -> (r: EnqueueAction)
        requires
            old(self).wf(),
        ensures
            final(self).wf(),
            (final(self)@, r) == spec_enqueue(old(self)@, digest, parent, now),
            final(self).name == old(self).name,
            final(self).validator_id == old(self).validator_id,
            final(self).sync_retry_delay == old(self).sync_retry_delay,
    {
        if contains_digest(&self.pending, &digest) {
            return EnqueueAction::AlreadyPending;
        }
        let ghost oldpending = self.pending@;
        self.pending.push(digest);
        proof {
            assert forall|d: Digest| true implies seq_has(self.pending@, d)
                == (seq_has(oldpending, d) || d == digest) by {
                if seq_has(oldpending, d) {
                    let i = choose|i: int| 0 <= i < oldpending.len() && oldpending[i] == d;
                    assert(self.pending@[i] == d);
                }
                if d == digest {
                    assert(self.pending@[self.pending@.len() - 1] == d);
                }
                if seq_has(self.pending@, d) {
                    let i = choose|i: int| 0 <= i < self.pending@.len() && self.pending@[i] == d;
                    if i < oldpending.len() {
                        assert(oldpending[i] == d);
                    }
                }
            }
            assert(self@.pending =~= old(self)@.pending.insert(digest));
        }
        if req_contains(&self.requests, &parent) {
            proof {
                assert(self@ =~= spec_enqueue(old(self)@, digest, parent, now).0);
            }
            return EnqueueAction::Wait;
        }
        let ghost oldreq = self.requests@;
        self.requests.push((parent, now));
        proof {
            lemma_req_lookup_push(oldreq, parent, now);
            lemma_req_lookup_index(oldreq, parent);
            assert forall|i: int, j: int| 0 <= i < j < self.requests@.len() implies
                (#[trigger] self.requests@[i]).0 != (#[trigger] self.requests@[j]).0 by {
                if j == oldreq.len() {
                    assert(self.requests@[i] == oldreq[i]);
                    if oldreq[i].0 == parent {
                        assert(req_lookup(oldreq, parent) is Some);
                    }
                } else {
                    assert(self.requests@[i] == oldreq[i] && self.requests@[j] == oldreq[j]);
                }
            }
            assert(self@.requests =~= old(self)@.requests.insert(parent, now));
            assert(self@ =~= spec_enqueue(old(self)@, digest, parent, now).0);
        }
        EnqueueAction::WaitAndRequest
    }

    /// A waiter finished: the parent landed and the block is deliverable.
    pub fn on_parent_delivered(&mut self, digest: Digest, parent: Digest)
        requires
            old(self).wf(),
        ensures
            final(self).wf(),
            final(self)@ == spec_resolve(old(self)@, digest, parent),
            final(self).name == old(self).name,
            final(self).validator_id == old(self).validator_id,
            final(self).sync_retry_delay == old(self).sync_retry_delay,
    {
        self.remove_entries(digest, parent);
    }

    /// A waiter expired without the parent arriving: drop the bookkeeping;
    /// a later consensus event may enqueue the block again.
    pub fn on_waiter_timeout(&mut self, digest: Digest, parent: Digest)
        requires
            old(self).wf(),
        ensures
            final(self).wf(),
            final(self)@ == spec_resolve(old(self)@, digest, parent),
            final(self).name == old(self).name,
            final(self).validator_id == old(self).validator_id,
            final(self).sync_retry_delay == old(self).sync_retry_delay,
    {
        self.remove_entries(digest, parent);
    }

    fn remove_entries(&mut self, digest: Digest, parent: Digest)
        requires
            old(self).wf(),
        ensures
            final(self).wf(),
            final(self)@ == spec_resolve(old(self)@, digest, parent),
            final(self).name == old(self).name,
            final(self).validator_id == old(self).validator_id,
            final(self).sync_retry_delay == old(self).sync_retry_delay,
    {
        let mut new_pending: Vec<Digest> = Vec::new();
        let mut i: usize = 0;
        while i < self.pending.len()
            invariant
                i <= self.pending@.len(),
                forall|d: Digest| seq_has(new_pending@, d)
                    == (seq_has(self.pending@.subrange(0, i as int), d) && d != digest),
            decreases self.pending@.len() - i,
        {
            let ghost oldnew = new_pending@;
            let d = self.pending[i];
            if !(d == digest) {
                new_pending.push(d);
            }
            proof {
                assert forall|x: Digest| true implies seq_has(new_pending@, x)
                    == (seq_has(self.pending@.subrange(0, i + 1), x) && x != digest) by {
                    let pref = self.pending@.subrange(0, i + 1);
                    if seq_has(new_pending@, x) {
                        let j = choose|j: int| 0 <= j < new_pending@.len()
                            && new_pending@[j] == x;
                        if j < oldnew.len() {
                            assert(seq_has(oldnew, x));
                            let k = choose|k: int| 0 <= k < self.pending@.subrange(0, i as int).len()
                                && self.pending@.subrange(0, i as int)[k] == x;
                            assert(pref[k] == x);
                        } else {
                            assert(pref[i as int] == x);
                        }
                    }
                    if seq_has(pref, x) && x != digest {
                        let k = choose|k: int| 0 <= k < pref.len() && pref[k] == x;
                        if k < i {
                            assert(self.pending@.subrange(0, i as int)[k] == x);
                            assert(seq_has(oldnew, x));
                            let j = choose|j: int| 0 <= j < oldnew.len() && oldnew[j] == x;
                            assert(new_pending@[j] == x);
                        } else {
                            assert(self.pending@[i as int] == x);
                            if x != digest {
                                assert(new_pending@[new_pending@.len() - 1] == x);
                            }
                        }
                    }
                }
            }
            i = i + 1;
        }
        let mut new_requests: Vec<(Digest, u64)> = Vec::new();
        let mut j: usize = 0;
        while j < self.requests.len()
            invariant
                j <= self.requests@.len(),
                old(self).wf(),
                self.requests@ == old(self).requests@,
                forall|k: int| 0 <= k < new_requests@.len() ==> exists|l: int| 0 <= l < j
                    && #[trigger] new_requests@[k] == self.requests@[l],
                forall|k1: int, k2: int| 0 <= k1 < k2 < new_requests@.len()
                    ==> (#[trigger] new_requests@[k1]).0 != (#[trigger] new_requests@[k2]).0,
                forall|d: Digest| #[trigger] req_lookup(new_requests@, d)
                    == (if d == parent { None } else {
                        req_lookup(self.requests@.subrange(0, j as int), d)
                    }),
            decreases self.requests@.len() - j,
        {
            let ghost oldnew = new_requests@;
            let e = (self.requests[j].0, self.requests[j].1);
            if !(e.0 == parent) {
                new_requests.push(e);
            }
            proof {
                let pref = self.requests@.subrange(0, j + 1);
                lemma_req_lookup_snoc(self.requests@.subrange(0, j as int),
                    self.requests@[j as int]);
                assert(self.requests@.subrange(0, j as int).push(self.requests@[j as int])
                    =~= pref);
                if e.0 != parent {
                    lemma_req_lookup_snoc(oldnew, (e.0, e.1));
                    assert(oldnew.push((e.0, e.1)) =~= new_requests@);
                    assert(self.requests@[j as int] == (e.0, e.1));
                    assert forall|k1: int, k2: int| 0 <= k1 < k2 < new_requests@.len() implies
                        (#[trigger] new_requests@[k1]).0 != (#[trigger] new_requests@[k2]).0 by {
                        if k2 == new_requests@.len() - 1 {
                            let l = choose|l: int| 0 <= l < j
                                && #[trigger] oldnew[k1] == self.requests@[l];
                            assert(self.requests@[l].0 != self.requests@[j as int].0);
                        }
                    }
                    assert forall|k: int| 0 <= k < new_requests@.len() implies exists|l: int|
                        0 <= l < j + 1 && #[trigger] new_requests@[k] == self.requests@[l] by {
                        if k < oldnew.len() {
                            let l = choose|l: int| 0 <= l < j
                                && #[trigger] oldnew[k] == self.requests@[l];
                            assert(new_requests@[k] == self.requests@[l]);
                        } else {
                            assert(new_requests@[k] == self.requests@[j as int]);
                        }
                    }
                }
            }
            j = j + 1;
        }
        proof {
            assert(self.pending@.subrange(0, self.pending@.len() as int) =~= self.pending@);
            assert(self.requests@.subrange(0, self.requests@.len() as int) =~= self.requests@);
        }
        self.pending = new_pending;
        self.requests = new_requests;
        proof {
            assert(self@.pending =~= old(self)@.pending.remove(digest));
            assert(self@.requests =~= old(self)@.requests.remove(parent));
            assert(self@ =~= spec_resolve(old(self)@, digest, parent));
        }
    }

    /// The periodic retry pass. Returns the parent digests whose requests
    /// are due to go out again, in bookkeeping order, and stamps each with
    /// `now`. A digest still being watched by a waiter is skipped.
    pub fn tick(&mut self, now: u64) -> (r: Vec<Digest>)
        requires
            old(self).wf(),
        ensures
            final(self).wf(),
            final(self)@.pending == old(self)@.pending,
            final(self)@.requests.dom() == old(self)@.requests.dom(),
            forall|d: Digest| #[trigger] old(self)@.requests.dom().contains(d) ==>
                final(self)@.requests[d] == (
                    if old(self)@.requests[d] + old(self).sync_retry_delay < now
                        && !old(self)@.pending.contains(d) { now }
                    else { old(self)@.requests[d] }
                ),
            forall|d: Digest| r@.contains(d) <==> (#[trigger] old(self)@.requests.dom().contains(d)
                && old(self)@.requests[d] + old(self).sync_retry_delay < now
                && !old(self)@.pending.contains(d)),
            final(self).name == old(self).name,
            final(self).validator_id == old(self).validator_id,
            final(self).sync_retry_delay == old(self).sync_retry_delay,
    {
        let ghost oldreq = self.requests@;
        let ghost oldview = self@;
        let mut out: Vec<Digest> = Vec::new();
        let mut updated: Vec<(Digest, u64)> = Vec::new();
        let mut i: usize = 0;
        let delay = self.sync_retry_delay;
        while i < self.requests.len()
            invariant
                i <= oldreq.len(),
                oldreq == self.requests@,
                oldview == self@,
                delay == self.sync_retry_delay,
                updated@.len() == i,
                forall|k: int| 0 <= k < i ==> (#[trigger] updated@[k]).0 == oldreq[k].0,
                forall|k: int| 0 <= k < i ==> (#[trigger] updated@[k]).1 == (
                    if oldreq[k].1 + delay < now && !oldview.pending.contains(oldreq[k].0) { now }
                    else { oldreq[k].1 }
                ),
                forall|d: Digest| out@.contains(d) <==> exists|k: int| 0 <= k < i
                    && (#[trigger] oldreq[k]).0 == d && oldreq[k].1 + delay < now
                    && !oldview.pending.contains(d),
            decreases oldreq.len() - i,
        {
            let e = (self.requests[i].0, self.requests[i].1);
            let ghost oldout = out@;
            let is_due = delay < now && e.1 < now - delay
                && !contains_digest(&self.pending, &e.0);
            if is_due {
                out.push(e.0);
                updated.push((e.0, now));
            } else {
                updated.push((e.0, e.1));
            }
            proof {
                assert(oldview.pending.contains(e.0) == seq_has(self.pending@, e.0));
                assert forall|d: Digest| out@.contains(d) implies exists|k: int| 0 <= k < i + 1
                    && (#[trigger] oldreq[k]).0 == d && oldreq[k].1 + delay < now
                    && !oldview.pending.contains(d) by {
                    if oldout.contains(d) {
                        let k = choose|k: int| 0 <= k < i && (#[trigger] oldreq[k]).0 == d
                            && oldreq[k].1 + delay < now && !oldview.pending.contains(d);
                        assert(0 <= k < i + 1 && oldreq[k].0 == d && oldreq[k].1 + delay < now
                            && !oldview.pending.contains(d));
                    } else {
                        assert(d == e.0 && is_due);
                        assert(oldreq[i as int].0 == d);
                    }
                }
                assert forall|d: Digest| (exists|k: int| 0 <= k < i + 1
                    && (#[trigger] oldreq[k]).0 == d && oldreq[k].1 + delay < now
                    && !oldview.pending.contains(d)) implies out@.contains(d) by {
                    let k = choose|k: int| 0 <= k < i + 1 && (#[trigger] oldreq[k]).0 == d
                        && oldreq[k].1 + delay < now && !oldview.pending.contains(d);
                    if k < i {
                        assert(oldout.contains(d));
                        let j2 = choose|j2: int| 0 <= j2 < oldout.len() && oldout[j2] == d;
                        assert(out@[j2] == d);
                    } else {
                        assert(is_due);
                        assert(out@[out@.len() - 1] == d);
                    }
                }
            }
            i = i + 1;
        }
        self.requests = updated;
        proof {
            lemma_req_lookup_pointwise(oldreq, self.requests@);
            assert(self@.pending =~= oldview.pending);
            assert(self@.requests.dom() =~= oldview.requests.dom());
            assert forall|d: Digest| #[trigger] oldview.requests.dom().contains(d) implies
                self@.requests[d] == (
                    if oldview.requests[d] + delay < now && !oldview.pending.contains(d) { now }
                    else { oldview.requests[d] }
                ) by {
                lemma_req_lookup_index(oldreq, d);
                lemma_req_lookup_index(self.requests@, d);
                let k1 = choose|k: int| 0 <= k < oldreq.len() && (#[trigger] oldreq[k]).0 == d
                    && req_lookup(oldreq, d) == Some(oldreq[k].1)
                    && forall|j2: int| 0 <= j2 < k ==> (#[trigger] oldreq[j2]).0 != d;
                let k2 = choose|k: int| 0 <= k < self.requests@.len()
                    && (#[trigger] self.requests@[k]).0 == d
                    && req_lookup(self.requests@, d) == Some(self.requests@[k].1)
                    && forall|j2: int| 0 <= j2 < k ==> (#[trigger] self.requests@[j2]).0 != d;
                assert(self.requests@[k1].0 == d);
                if k1 != k2 {
                    assert(oldreq[k1].0 == oldreq[k2].0);
                }
                assert(k1 == k2);
            }
            assert forall|d: Digest| out@.contains(d) implies
                (#[trigger] oldview.requests.dom().contains(d)
                && oldview.requests[d] + delay < now && !oldview.pending.contains(d)) by {
                let k = choose|k: int| 0 <= k < oldreq.len() && (#[trigger] oldreq[k]).0 == d
                    && oldreq[k].1 + delay < now && !oldview.pending.contains(d);
                lemma_req_lookup_index(oldreq, d);
                let k1 = choose|k1: int| 0 <= k1 < oldreq.len() && (#[trigger] oldreq[k1]).0 == d
                    && req_lookup(oldreq, d) == Some(oldreq[k1].1)
                    && forall|j2: int| 0 <= j2 < k1 ==> (#[trigger] oldreq[j2]).0 != d;
                if k != k1 {
                    assert(oldreq[k].0 == oldreq[k1].0);
                }
                assert(oldview.requests[d] == oldreq[k].1);
            }
            assert forall|d: Digest| (#[trigger] oldview.requests.dom().contains(d)
                && oldview.requests[d] + delay < now && !oldview.pending.contains(d)) implies
                out@.contains(d) by {
                lemma_req_lookup_index(oldreq, d);
                let k1 = choose|k1: int| 0 <= k1 < oldreq.len() && (#[trigger] oldreq[k1]).0 == d
                    && req_lookup(oldreq, d) == Some(oldreq[k1].1)
                    && forall|j2: int| 0 <= j2 < k1 ==> (#[trigger] oldreq[j2]).0 != d;
                assert(oldreq[k1].0 == d && oldreq[k1].1 + delay < now
                    && !oldview.pending.contains(d));
            }
            assert forall|i2: int, j2: int| 0 <= i2 < j2 < self.requests@.len() implies
                (#[trigger] self.requests@[i2]).0 != (#[trigger] self.requests@[j2]).0 by {
                assert(oldreq[i2].0 == self.requests@[i2].0);
                assert(oldreq[j2].0 == self.requests@[j2].0);
            }
        }
        out
    }

    /// Returns the parent of `block` if it is locally known.
    ///
    /// A block whose certificate is the genesis certificate has the
    /// hard-coded genesis block as its parent. Otherwise the parent is read
    /// from the store and decoded; a stored value that is not a block
    /// encoding is a protocol fault. A missing parent enqueues the block for
    /// synchronization and reports what the embedding loop must do: spawn a
    /// waiter, and send a sync request to the block's author where one is
    /// not already outstanding.
    pub fn get_parent_block(&mut self, store: &Store, block: &Block, now: u64) -> (r: (
        Result<Option<Block>, ProtocolError>,
        Option<EnqueueAction>,
    ))
        requires
            old(self).wf(),
        ensures
            final(self).wf(),
            final(self).name == old(self).name,
            final(self).validator_id == old(self).validator_id,
            final(self).sync_retry_delay == old(self).sync_retry_delay,
            match spec_parent(store@, block@) {
                Ok(Some(bv)) => {
                    &&& r.0 matches Ok(b) && b matches Some(b) && b@ == bv
                    &&& r.1 is None
                    &&& final(self)@ == old(self)@
                },
                Ok(None) => {
                    &&& r.0 matches Ok(b) && b is None
                    &&& final(self)@ == spec_enqueue(old(self)@, block_digest(block@),
                        block@.qc.digest, now).0
                    &&& r.1 == Some(spec_enqueue(old(self)@, block_digest(block@),
                        block@.qc.digest, now).1)
                },
                Err(e) => {
                    &&& r.0 matches Err(e2) && e2 == e
                    &&& r.1 is None
                    &&& final(self)@ == old(self)@
                },
            },
    {
        if block.extends_genesis() {
            return (Ok(Some(Block::genesis())), None);
        }
        let parent = block.parent();
        let key = parent.to_bytes();
        match store.read(&key) {
            Some(bytes) => match crate::codec::decode_block(&bytes) {
                Ok(b) => (Ok(Some(b)), None),
                Err(e) => (Err(e), None),
            },
            None => {
                let digest = block.digest();
                let act = self.enqueue(digest, parent, now);
                (Ok(None), Some(act))
            },
        }
    }

    /// Returns the grandparent and parent of `block` if both are locally
    /// known, enqueueing a synchronization where either is missing.
    pub fn get_ancestors(&mut self, store: &Store, block: &Block, now: u64) -> (r: (
        Result<Option<(Block, Block)>, ProtocolError>,
        Option<EnqueueAction>,
    ))
        requires
            old(self).wf(),
        ensures
            final(self).wf(),
            final(self).name == old(self).name,
            final(self).validator_id == old(self).validator_id,
            final(self).sync_retry_delay == old(self).sync_retry_delay,
            match spec_parent(store@, block@) {
                Ok(Some(b1)) => match spec_parent(store@, b1) {
                    Ok(Some(b0)) => {
                        &&& r.0 matches Ok(p) && p matches Some(p) && p.0@ == b0 && p.1@ == b1
                        &&& r.1 is None
                        &&& final(self)@ == old(self)@
                    },
                    Ok(None) => {
                        &&& r.0 matches Ok(p) && p is None
                        &&& final(self)@ == spec_enqueue(old(self)@, block_digest(b1),
                            b1.qc.digest, now).0
                        &&& r.1 == Some(spec_enqueue(old(self)@, block_digest(b1),
                            b1.qc.digest, now).1)
                    },
                    Err(e) => {
                        &&& r.0 matches Err(e2) && e2 == e
                        &&& r.1 is None
                        &&& final(self)@ == old(self)@
                    },
                },
                Ok(None) => {
                    &&& r.0 matches Ok(p) && p is None
                    &&& final(self)@ == spec_enqueue(old(self)@, block_digest(block@),
                        block@.qc.digest, now).0
                    &&& r.1 == Some(spec_enqueue(old(self)@, block_digest(block@),
                        block@.qc.digest, now).1)
                },
                Err(e) => {
                    &&& r.0 matches Err(e2) && e2 == e
                    &&& r.1 is None
                    &&& final(self)@ == old(self)@
                },
            },
    {
        let (r1, act1) = self.get_parent_block(store, block, now);
        let b1 = match r1 {
            Ok(Some(b)) => b,
            Ok(None) => {
                return (Ok(None), act1);
            },
            Err(e) => {
                return (Err(e), None);
            },
        };
        let (r0, act0) = self.get_parent_block(store, &b1, now);
        let b0 = match r0 {
            Ok(Some(b)) => b,
            Ok(None) => {
                return (Ok(None), act0);
            },
            Err(e) => {
                return (Err(e), None);
            },
        };
        (Ok(Some((b0, b1))), None)
    }
}

/// What looking a block's parent up in the store yields: the genesis block
/// for a genesis certificate, the decoded stored block, a protocol fault
/// where the stored bytes are not one block's encoding, or nothing.
pub open spec fn spec_parent(store: Map<Seq<u8>, Seq<u8>>, b: BlockView) -> Result<
    Option<BlockView>,
    ProtocolError,
> {
    if b.qc == genesis_qc() {
        Ok(Some(genesis_block()))
    } else if store.dom().contains(b.qc.digest@) {
        match sp_block(store[b.qc.digest@], 0) {
            Some((bv, end)) => if end == store[b.qc.digest@].len() {
                Ok(Some(bv))
            } else {
                Err(ProtocolError::MalformedMessage)
            },
            None => Err(ProtocolError::MalformedMessage),
        }
    } else {
        Ok(None)
    }
}

/// Whether the vector holds the digest.
fn contains_digest(v: &Vec<Digest>, d: &Digest) -> (r: bool)
    ensures
        r == seq_has(v@, *d),
{
    let mut i: usize = 0;
    while i < v.len()
        invariant
            i <= v@.len(),
            forall|j: int| 0 <= j < i ==> v@[j] != *d,
        decreases v@.len() - i,
    {
        if v[i] == *d {
            return true;
        }
        i = i + 1;
    }
    false
}

/// Whether a request for `d` is outstanding.
fn req_contains(v: &Vec<(Digest, u64)>, d: &Digest) -> (r: bool)
    ensures
        r == (req_lookup(v@, *d) is Some),
{
    proof {
        assert(v@.subrange(0, v@.len() as int) =~= v@);
    }
    let mut i: usize = 0;
    while i < v.len()
        invariant
            i <= v@.len(),
            req_lookup(v@, *d) is Some <==> req_lookup(v@.subrange(i as int, v@.len() as int), *d)
                is Some,
        decreases v@.len() - i,
    {
        proof {
            assert(v@.subrange(i as int, v@.len() as int).drop_first()
                =~= v@.subrange(i + 1, v@.len() as int));
        }
        if v[i].0 == *d {
            return true;
        }
        i = i + 1;
    }
    proof {
        assert(v@.subrange(v@.len() as int, v@.len() as int).len() == 0);
    }
    false
}

/// Appending an entry only adds its key to the lookup.
proof fn lemma_req_lookup_push(s: Seq<(Digest, u64)>, d: Digest, t: u64)
    ensures
        forall|d2: Digest| #[trigger] req_lookup(s.push((d, t)), d2) == (
            if req_lookup(s, d2) is Some { req_lookup(s, d2) }
            else if d2 == d { Some(t) }
            else { None }
        ),
    decreases s.len(),
{
    if s.len() == 0 {
        assert forall|d2: Digest| true implies #[trigger] req_lookup(s.push((d, t)), d2) == (
            if req_lookup(s, d2) is Some { req_lookup(s, d2) }
            else if d2 == d { Some(t) }
            else { None }
        ) by {
            assert(s.push((d, t))[0] == (d, t));
            assert(s.push((d, t)).drop_first() =~= Seq::<(Digest, u64)>::empty());
            assert(req_lookup(Seq::<(Digest, u64)>::empty(), d2) is None);
            assert(req_lookup(s.push((d, t)).drop_first(), d2) is None);
        }
    } else {
        lemma_req_lookup_push(s.drop_first(), d, t);
        assert forall|d2: Digest| true implies #[trigger] req_lookup(s.push((d, t)), d2) == (
            if req_lookup(s, d2) is Some { req_lookup(s, d2) }
            else if d2 == d { Some(t) }
            else { None }
        ) by {
            assert(s.push((d, t))[0] == s[0]);
            assert(s.push((d, t)).drop_first() =~= s.drop_first().push((d, t)));
            assert(req_lookup(s.drop_first().push((d, t)), d2) == (
                if req_lookup(s.drop_first(), d2) is Some { req_lookup(s.drop_first(), d2) }
                else if d2 == d { Some(t) }
                else { None }
            ));
        }
    }
}

/// Appending an entry leaves earlier keys' lookups unchanged, and resolves
/// the new key to the earlier binding where one exists.
proof fn lemma_req_lookup_snoc(s: Seq<(Digest, u64)>, e: (Digest, u64))
    ensures
        forall|d2: Digest| #[trigger] req_lookup(s.push(e), d2) == (
            if req_lookup(s, d2) is Some { req_lookup(s, d2) }
            else if d2 == e.0 { Some(e.1) }
            else { None }
        ),
{
    lemma_req_lookup_push(s, e.0, e.1);
}

/// Two entry lists with the same keys position by position have the lookup
/// of each key resolve at the same position.
proof fn lemma_req_lookup_pointwise(a: Seq<(Digest, u64)>, b: Seq<(Digest, u64)>)
    requires
        a.len() == b.len(),
        forall|k: int| 0 <= k < a.len() ==> (#[trigger] a[k]).0 == b[k].0,
    ensures
        forall|d: Digest| req_lookup(a, d) is Some <==> #[trigger] req_lookup(b, d) is Some,
    decreases a.len(),
{
    if a.len() > 0 {
        assert(a.drop_first().len() == b.drop_first().len());
        assert forall|k: int| 0 <= k < a.drop_first().len() implies
            (#[trigger] a.drop_first()[k]).0 == b.drop_first()[k].0 by {
            assert(a[k + 1].0 == b[k + 1].0);
        }
        lemma_req_lookup_pointwise(a.drop_first(), b.drop_first());
        assert(a[0].0 == b[0].0);
        assert forall|d: Digest| req_lookup(a, d) is Some implies #[trigger] req_lookup(b, d)
            is Some by {
            if a[0].0 == d {
                assert(b[0].0 == d);
            } else {
                assert(req_lookup(a.drop_first(), d) is Some);
                assert(req_lookup(b.drop_first(), d) is Some);
            }
        }
        assert forall|d: Digest| #[trigger] req_lookup(b, d) is Some implies req_lookup(a, d)
            is Some by {
            if b[0].0 == d {
                assert(a[0].0 == d);
            } else {
                assert(req_lookup(b.drop_first(), d) is Some);
                assert(req_lookup(a.drop_first(), d) is Some);
            }
        }
    }
}

/// Where a key is present, its lookup value is the value at the first index
/// holding that key.
proof fn lemma_req_lookup_index(s: Seq<(Digest, u64)>, d: Digest)
    ensures
        req_lookup(s, d) is Some ==> exists|k: int| 0 <= k < s.len()
            && (#[trigger] s[k]).0 == d && req_lookup(s, d) == Some(s[k].1)
            && forall|j: int| 0 <= j < k ==> (#[trigger] s[j]).0 != d,
        (exists|k: int| 0 <= k < s.len() && (#[trigger] s[k]).0 == d) ==> req_lookup(s, d)
            is Some,
    decreases s.len(),
{
    if s.len() > 0 {
        lemma_req_lookup_index(s.drop_first(), d);
        if s[0].0 == d {
            assert(s[0 as int].0 == d && req_lookup(s, d) == Some(s[0 as int].1));
        } else {
            if req_lookup(s.drop_first(), d) is Some {
                let k = choose|k: int| 0 <= k < s.drop_first().len()
                    && (#[trigger] s.drop_first()[k]).0 == d
                    && req_lookup(s.drop_first(), d) == Some(s.drop_first()[k].1)
                    && forall|j: int| 0 <= j < k ==> (#[trigger] s.drop_first()[j]).0 != d;
                assert(s[k + 1].0 == d && req_lookup(s, d) == Some(s[k + 1].1));
                assert forall|j: int| 0 <= j < k + 1 implies (#[trigger] s[j]).0 != d by {
                    if j > 0 {
                        assert(s.drop_first()[j - 1].0 != d);
                    }
                }
            }
            if exists|k: int| 0 <= k < s.len() && (#[trigger] s[k]).0 == d {
                let k = choose|k: int| 0 <= k < s.len() && (#[trigger] s[k]).0 == d;
                assert(s.drop_first()[k - 1].0 == d);
            }
        }
    }
}

// ------------------------------------------------------------------
// Laws

/// Sync idempotence: once a block is pending, enqueueing it again — any
/// number of times — changes nothing and sends nothing, so the same block
/// produces at most one outstanding sync request.
pub proof fn lemma_sync_idempotent(s: SyncView, digest: Digest, parent: Digest, now1: u64,
    now2: u64)
    ensures
        spec_enqueue(s, digest, parent, now1).0.pending.contains(digest),
        spec_enqueue(spec_enqueue(s, digest, parent, now1).0, digest, parent, now2)
            == (spec_enqueue(s, digest, parent, now1).0, EnqueueAction::AlreadyPending),
{
    let s1 = spec_enqueue(s, digest, parent, now1).0;
    assert(s1.pending.contains(digest));
    assert(spec_enqueue(s1, digest, parent, now2) =~= (s1, EnqueueAction::AlreadyPending));
}

/// Retry determinism: with a fixed wall clock, whether a tick re-sends a
/// request is a function of the state and the clock alone; a request
/// re-sent at `now` is not re-sent again before a further full retry delay
/// has passed.
pub proof fn lemma_retry_once_per_delay(before: SyncView, after: SyncView, d: Digest, now1: u64,
    now2: u64, delay: u64)
    requires
        // the tick at `now1` re-sent the request for `d` ...
        before.requests.dom().contains(d),
        before.requests[d] + delay < now1,
        !before.pending.contains(d),
        // ... and stamped it, as `tick` ensures:
        after.requests.dom().contains(d),
        after.requests[d] == now1,
        // the next tick comes no later than one full delay after the first:
        now2 <= now1 + delay,
    ensures
        !(after.requests[d] + delay < now2),
{
}

} // verus!
