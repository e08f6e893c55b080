//! The consensus safety argument.
//!
//! The committee is a finite set of operators, of which at most `f` are
//! Byzantine. A quorum certificate carries at least `2f + 1` distinct
//! signers. Honest replicas follow the voting rule, so an honest operator
//! votes for at most one block digest per round; that discipline is recorded
//! here as a map from honest voter to the digest it voted in the round under
//! discussion. From counting alone, two quorums overlap in an honest voter,
//! so two certificates formed in one round certify the same block — and
//! hence two honest nodes that commit a block at one round commit the same
//! block.

use vstd::prelude::*;
use vstd::set_lib::lemma_len_subset;
use crate::digest::Digest;

verus! {

/// Counting: the sizes of a union and an intersection of two finite sets
/// add up to the sizes of the sets.
pub proof fn lemma_inclusion_exclusion<A>(a: Set<A>, b: Set<A>)
    requires
        a.finite(),
        b.finite(),
    ensures
        a.union(b).len() + a.intersect(b).len() == a.len() + b.len(),
    decreases a.len(),
{
    if a.is_empty() {
        assert(a.union(b) =~= b);
        assert(a.intersect(b) =~= Set::empty());
    } else {
        let x = a.choose();
        let a2 = a.remove(x);
        lemma_inclusion_exclusion(a2, b);
        if b.contains(x) {
            assert(a.union(b) =~= a2.union(b));
            assert(a.intersect(b) =~= a2.intersect(b).insert(x));
            assert(!a2.intersect(b).contains(x));
        } else {
            assert(a.union(b) =~= a2.union(b).insert(x));
            assert(!a2.union(b).contains(x));
            assert(a.intersect(b) =~= a2.intersect(b));
        }
    }
}

/// Quorum intersection: two signer sets that together outnumber the
/// committee by more than the fault bound share an honest member.
pub proof fn lemma_quorum_intersection(all: Set<u64>, byz: Set<u64>, q1: Set<u64>, q2: Set<u64>)
    requires
        all.finite(),
        byz.subset_of(all),
        q1.subset_of(all),
        q2.subset_of(all),
        q1.len() + q2.len() > all.len() + byz.len(),
    ensures
        exists|v: u64| q1.contains(v) && q2.contains(v) && !byz.contains(v),
{
    lemma_len_subset(q1, all);
    lemma_len_subset(q2, all);
    lemma_inclusion_exclusion(q1, q2);
    assert(q1.union(q2).subset_of(all));
    lemma_len_subset(q1.union(q2), all);
    let inter = q1.intersect(q2);
    assert(inter.len() > byz.len());
    if inter.subset_of(byz) {
        lemma_len_subset(byz, all);
        lemma_len_subset(inter, byz);
        assert(false);
    }
    let v = choose|v: u64| inter.contains(v) && !byz.contains(v);
    assert(q1.contains(v) && q2.contains(v) && !byz.contains(v));
}

/// A valid certificate for `digest` in the round under discussion: at least
/// `quorum` distinct committee signers, every honest one of which voted that
/// digest. `vote_of` records what each honest operator voted in the round:
/// the voting rule lets an honest replica vote at most once per round, so
/// the record is a map.
pub open spec fn certifies(
    signers: Set<u64>,
    digest: Digest,
    all: Set<u64>,
    byz: Set<u64>,
    vote_of: Map<u64, Digest>,
    quorum: int,
) -> bool {
    &&& signers.subset_of(all)
    &&& signers.finite()
    &&& signers.len() >= quorum
    &&& forall|v: u64| signers.contains(v) && !byz.contains(v)
        ==> vote_of.dom().contains(v) && vote_of[v] == digest
}

/// In one round, two valid certificates certify the same block: the quorums
/// overlap in an honest voter, and an honest voter votes once per round.
pub proof fn lemma_one_certificate_per_round(
    all: Set<u64>,
    byz: Set<u64>,
    s1: Set<u64>,
    d1: Digest,
    s2: Set<u64>,
    d2: Digest,
    vote_of: Map<u64, Digest>,
    quorum: int,
)
    requires
        all.finite(),
        byz.subset_of(all),
        2 * quorum > all.len() + byz.len(),
        certifies(s1, d1, all, byz, vote_of, quorum),
        certifies(s2, d2, all, byz, vote_of, quorum),
    ensures
        d1 == d2,
{
    lemma_quorum_intersection(all, byz, s1, s2);
    let v = choose|v: u64| s1.contains(v) && s2.contains(v) && !byz.contains(v);
    assert(vote_of[v] == d1 && vote_of[v] == d2);
}

/// Safety (agreement): if two honest nodes each commit a block at round `r`
/// — each, by the chained commit rule, holding a valid certificate formed
/// from round-`r` votes for the block it commits — they commit the same
/// block. Holds whenever at most `f` operators are Byzantine and the quorum
/// threshold `2f + 1` exceeds half of `n + f`, as it does for `n == 3f + 1`.
pub proof fn lemma_commit_agreement(
    all: Set<u64>,
    byz: Set<u64>,
    f: int,
    s1: Set<u64>,
    d1: Digest,
    s2: Set<u64>,
    d2: Digest,
    vote_of: Map<u64, Digest>,
)
    requires
        all.finite(),
        byz.subset_of(all),
        byz.len() <= f,
        all.len() <= 3 * f + 1,
        certifies(s1, d1, all, byz, vote_of, 2 * f + 1),
        certifies(s2, d2, all, byz, vote_of, 2 * f + 1),
    ensures
        d1 == d2,
{
    lemma_one_certificate_per_round(all, byz, s1, d1, s2, d2, vote_of, 2 * f + 1);
}

} // verus!
