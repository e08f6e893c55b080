//! The committee definition: one validator realized as a threshold group of
//! operators.
//!
//! Holds the signing threshold, every operator's identity, share public key
//! and network address, and derives the fault bound, the quorum threshold
//! and the deterministic leader schedule.

use vstd::prelude::*;

verus! {

/// A network address as plain values: an IPv4 address and a port.
#[derive(Clone, Copy, Debug, PartialEq, Eq, Structural)]
pub struct SocketAddress {
    pub ip0: u8,
    pub ip1: u8,
    pub ip2: u8,
    pub ip3: u8,
    pub port: u16,
}

/// The definition of one validator's operator committee.
#[derive(Clone)]
pub struct Committee {
    /// The validator this committee serves.
    pub validator_id: u64,
    /// The validator's aggregate public key, in compressed form.
    pub validator_public_key: Vec<u8>,
    /// How many partial signatures a combined signature needs.
    pub threshold: u64,
    /// How many operators the committee has.
    pub total: u64,
    /// The operators' identities.
    pub operator_ids: Vec<u64>,
    /// Each operator's public share key, by position.
    pub operator_public_keys: Vec<Vec<u8>>,
    /// Each operator node's identity key, by position.
    pub node_public_keys: Vec<Vec<u8>>,
    /// Each operator node's base address, by position.
    pub node_addresses: Vec<SocketAddress>,
}

impl Committee {
    /// The definition is consistent: one entry of each list per operator,
    /// distinct operator identities, and a threshold the committee can meet.
    pub open spec fn wf(&self) -> bool {
        &&& self.total >= 1
        &&& self.operator_ids@.len() == self.total
        &&& self.operator_public_keys@.len() == self.total
        &&& self.node_public_keys@.len() == self.total
        &&& self.node_addresses@.len() == self.total
        &&& self.threshold >= 1
        &&& self.threshold <= self.total
        &&& forall|i: int, j: int| 0 <= i < j < self.operator_ids@.len()
            ==> self.operator_ids@[i] != self.operator_ids@[j]
    }

    /// The number of Byzantine operators the consensus tolerates.
    pub open spec fn spec_faults(&self) -> int {
        (self.total - 1) / 3
    }

    /// How many distinct signers a quorum certificate needs.
    pub open spec fn spec_quorum(&self) -> int {
        2 * self.spec_faults() + 1
    }

    /// The number of Byzantine operators the consensus tolerates:
    /// the largest `f` with `3f + 1 <= total`.
    pub fn faults(&self) -> (f: u64)
        requires
            self.wf(),
        ensures
            f == self.spec_faults(),
    {
        (self.total - 1) / 3
    }

    /// How many distinct signers a quorum certificate needs: `2f + 1`.
    pub fn quorum_threshold(&self) -> (q: u64)
        requires
            self.wf(),
        ensures
            q == self.spec_quorum(),
    {
        let f = self.faults();
        proof {
            assert(2 * ((self.total - 1) as u64 / 3) + 1 <= u64::MAX) by (nonlinear_arith)
                requires
                    self.total >= 1,
            ;
        }
        2 * f + 1
    }

    /// The leader of a round: operators take rounds in identity-list order,
    /// repeating forever.
    pub open spec fn spec_leader(&self, round: u64) -> u64 {
        self.operator_ids@[round as int % self.total as int]
    }

    /// The operator that leads `round`.
    pub fn leader(&self, round: u64) -> (id: u64)
        requires
            self.wf(),
        ensures
            id == self.spec_leader(round),
    {
        let len = self.operator_ids.len();
        let idx = round % self.total;
        proof {
            assert(round as int % self.total as int == (round % self.total) as int);
            assert(idx < self.total);
            assert(len == self.total);
        }
        self.operator_ids[idx as usize]
    }

    /// The position of an operator in the committee's lists.
    pub open spec fn spec_index_of(&self, id: u64) -> Option<int> {
        if exists|i: int| 0 <= i < self.operator_ids@.len() && self.operator_ids@[i] == id {
            Some(choose|i: int| 0 <= i < self.operator_ids@.len() && self.operator_ids@[i] == id)
        } else {
            None
        }
    }

    /// Looks an operator up: their public share key and address, or nothing
    /// for an identity outside the committee.
    pub fn lookup_operator(&self, id: u64) -> (r: Option<(Vec<u8>, SocketAddress)>)
        requires
            self.wf(),
        ensures
            match r {
                Some((pk, addr)) => {
                    &&& self.spec_index_of(id) matches Some(i)
                    &&& pk@ == self.operator_public_keys@[self.spec_index_of(id)->Some_0]@
                    &&& addr == self.node_addresses@[self.spec_index_of(id)->Some_0]
                },
                None => self.spec_index_of(id) is None,
            },
    {
        let mut i: usize = 0;
        while i < self.operator_ids.len()
            invariant
                self.wf(),
                i <= self.operator_ids@.len(),
                forall|j: int| 0 <= j < i ==> self.operator_ids@[j] != id,
            decreases self.operator_ids@.len() - i,
        {
            if self.operator_ids[i] == id {
                let mut pk: Vec<u8> = Vec::new();
                crate::store::copy_bytes(&self.operator_public_keys[i], &mut pk);
                proof {
                    let w = choose|k: int| 0 <= k < self.operator_ids@.len()
                        && self.operator_ids@[k] == id;
                    assert(w == i as int);
                }
                return Some((pk, self.node_addresses[i]));
            }
            i = i + 1;
        }
        None
    }

    /// Assembles a committee definition, checking its consistency: one
    /// entry of each list per operator, distinct identities, and a
    /// threshold between one and the committee size. Returns nothing
    /// exactly where those checks fail.
    pub fn build(
        validator_id: u64,
        validator_public_key: Vec<u8>,
        threshold: u64,
        operator_ids: Vec<u64>,
        operator_public_keys: Vec<Vec<u8>>,
        node_public_keys: Vec<Vec<u8>>,
        node_addresses: Vec<SocketAddress>,
    ) -> (r: Option<Committee>)
        ensures
            match r {
                Some(c) => {
                    &&& c.wf()
                    &&& c.validator_id == validator_id
                    &&& c.validator_public_key@ == validator_public_key@
                    &&& c.threshold == threshold
                    &&& c.total == operator_ids@.len()
                    &&& c.operator_ids@ == operator_ids@
                    &&& c.operator_public_keys@ == operator_public_keys@
                    &&& c.node_public_keys@ == node_public_keys@
                    &&& c.node_addresses@ == node_addresses@
                },
                None => !{
                    &&& operator_ids@.len() >= 1
                    &&& operator_ids@.len() <= u64::MAX
                    &&& operator_public_keys@.len() == operator_ids@.len()
                    &&& node_public_keys@.len() == operator_ids@.len()
                    &&& node_addresses@.len() == operator_ids@.len()
                    &&& threshold >= 1
                    &&& threshold <= operator_ids@.len()
                    &&& forall|i: int, j: int| 0 <= i < j < operator_ids@.len()
                        ==> operator_ids@[i] != operator_ids@[j]
                },
            },
    {
        let n = operator_ids.len();
        if n == 0 || operator_public_keys.len() != n || node_public_keys.len() != n
            || node_addresses.len() != n {
            return None;
        }
        if threshold < 1 || threshold > n as u64 {
            return None;
        }
        let mut i: usize = 0;
        while i < n
            invariant
                n == operator_ids@.len(),
                i <= n,
                forall|a: int, b: int| 0 <= a < b < n && a < i
                    ==> operator_ids@[a] != operator_ids@[b],
            decreases n - i,
        {
            let mut j = i + 1;
            while j < n
                invariant
                    n == operator_ids@.len(),
                    i < j <= n,
                    forall|b: int| i < b < j ==> operator_ids@[i as int] != operator_ids@[b],
                decreases n - j,
            {
                if operator_ids[i] == operator_ids[j] {
                    return None;
                }
                j = j + 1;
            }
            i = i + 1;
        }
        Some(Committee {
            validator_id,
            validator_public_key,
            threshold,
            total: n as u64,
            operator_ids,
            operator_public_keys,
            node_public_keys,
            node_addresses,
        })
    }

    /// Whether an operator identity belongs to the committee.
    pub fn is_member(&self, id: u64) -> (r: bool)
        requires
            self.wf(),
        ensures
            r == (self.spec_index_of(id) is Some),
    {
        let mut i: usize = 0;
        while i < self.operator_ids.len()
            invariant
                i <= self.operator_ids@.len(),
                forall|j: int| 0 <= j < i ==> self.operator_ids@[j] != id,
            decreases self.operator_ids@.len() - i,
        {
            if self.operator_ids[i] == id {
                return true;
            }
            i = i + 1;
        }
        false
    }
}

} // verus!
