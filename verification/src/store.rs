//! The persistent key-value store, modeled as a map from byte keys to byte
//! values.
//!
//! The store holds the canonical encoding of every validated block under the
//! block's digest, the last committed round under a reserved key, and the
//! highest known certificate under another. Writes are last-write-wins;
//! `notify_read` waiting is the embedding application's concern.

use vstd::prelude::*;
use crate::codec::u64_le_bytes;
use crate::digest::le_word;

verus! {

/// What a sequence of writes, replayed in order, holds under `k`.
pub open spec fn lookup(entries: Seq<(Vec<u8>, Vec<u8>)>, k: Seq<u8>) -> Option<Seq<u8>>
    decreases entries.len(),
{
    if entries.len() == 0 {
        None
    } else if entries.last().0@ == k {
        Some(entries.last().1@)
    } else {
        lookup(entries.drop_last(), k)
    }
}

/// A key-value store of byte strings.
pub struct Store {
    entries: Vec<(Vec<u8>, Vec<u8>)>,
}

impl View for Store {
    type V = Map<Seq<u8>, Seq<u8>>;

    /// The store as the map its writes have built.
    closed spec fn view(&self) -> Map<Seq<u8>, Seq<u8>> {
        Map::new(
            |k: Seq<u8>| lookup(self.entries@, k) is Some,
            |k: Seq<u8>| lookup(self.entries@, k)->Some_0,
        )
    }
}

impl Store {
    /// An empty store.
    pub fn new() -> (s: Store)
        ensures
            s@ == Map::<Seq<u8>, Seq<u8>>::empty(),
    {
        let s = Store { entries: Vec::new() };
        proof {
            assert(s@ =~= Map::<Seq<u8>, Seq<u8>>::empty());
        }
        s
    }

    /// Records `value` under `key`, replacing what was there.
    pub fn write(&mut self, key: Vec<u8>, value: Vec<u8>)
        ensures
            final(self)@ == old(self)@.insert(key@, value@),
    {
        let ghost oldentries = self.entries@;
        let ghost k = key@;
        let ghost v = value@;
        self.entries.push((key, value));
        proof {
            assert(self.entries@.drop_last() =~= oldentries);
            assert forall|k2: Seq<u8>| true implies #[trigger] lookup(self.entries@, k2)
                == (if k2 == k { Some(v) } else { lookup(oldentries, k2) }) by {
                assert(self.entries@.last().0@ == k);
            }
            assert(self@ =~= old(self)@.insert(k, v));
        }
    }

    /// Returns the value under `key`, if one was written.
    pub fn read(&self, key: &Vec<u8>) -> (r: Option<Vec<u8>>)
        ensures
            match r {
                Some(v) => self@.dom().contains(key@) && v@ == self@[key@],
                None => !self@.dom().contains(key@),
            },
    {
        let r = read_from(&self.entries, self.entries.len(), key);
        proof {
            assert(self.entries@.subrange(0, self.entries@.len() as int) =~= self.entries@);
        }
        r
    }

    /// Records the last committed round under the reserved key.
    pub fn write_commit_index(&mut self, round: u64)
        ensures
            final(self)@ == old(self)@.insert(commit_index_key(), u64_le_bytes(round)),
    {
        let key = commit_index_key_exec();
        let mut value: Vec<u8> = Vec::new();
        crate::codec::put_u64(&mut value, round);
        proof {
            assert(value@ =~= u64_le_bytes(round));
        }
        self.write(key, value);
    }

    /// Reads the last committed round back, if one was recorded as eight
    /// little-endian bytes.
    pub fn read_commit_index(&self) -> (r: Option<u64>)
        ensures
            match r {
                Some(round) => self@.dom().contains(commit_index_key())
                    && u64_le_bytes(round) == self@[commit_index_key()],
                None => !self@.dom().contains(commit_index_key())
                    || self@[commit_index_key()].len() != 8,
            },
    {
        let key = commit_index_key_exec();
        let bytes = match self.read(&key) {
            Some(b) => b,
            None => {
                return None;
            },
        };
        if bytes.len() != 8 {
            return None;
        }
        let round = le_word(&bytes, 0);
        proof {
            assert(bytes@.subrange(0, 8) =~= bytes@);
        }
        Some(round)
    }

    /// Records the highest known certificate under the reserved key.
    pub fn write_high_qc(&mut self, qc: &crate::messages::QC)
        ensures
            final(self)@ == old(self)@.insert(high_qc_key(), crate::codec::enc_qc(qc@)),
    {
        let key = high_qc_key_exec();
        let value = crate::codec::encode_qc(qc);
        self.write(key, value);
    }

    /// Reads the highest known certificate back, if one was recorded as a
    /// full certificate encoding.
    pub fn read_high_qc(&self) -> (r: Option<crate::messages::QC>)
        ensures
            match r {
                Some(qc) => self@.dom().contains(high_qc_key())
                    && crate::codec::sp_qc(self@[high_qc_key()], 0)
                        == Some((qc@, self@[high_qc_key()].len() as int)),
                None => !self@.dom().contains(high_qc_key())
                    || crate::codec::sp_qc(self@[high_qc_key()], 0) is None
                    || crate::codec::sp_qc(self@[high_qc_key()], 0)->Some_0.1
                        != self@[high_qc_key()].len(),
            },
    {
        let key = high_qc_key_exec();
        let bytes = match self.read(&key) {
            Some(b) => b,
            None => {
                return None;
            },
        };
        match crate::codec::decode_qc(&bytes) {
            Ok(qc) => Some(qc),
            Err(_) => None,
        }
    }
}

/// Reads the latest value under `key` among the first `upto` entries.
fn read_from(entries: &Vec<(Vec<u8>, Vec<u8>)>, upto: usize, key: &Vec<u8>) -> (r: Option<Vec<u8>>)
    requires
        upto <= entries@.len(),
    ensures
        match r {
            Some(v) => lookup(entries@.subrange(0, upto as int), key@) == Some(v@),
            None => lookup(entries@.subrange(0, upto as int), key@) is None,
        },
    decreases upto,
{
    if upto == 0 {
        proof {
            assert(entries@.subrange(0, 0).len() == 0);
        }
        return None;
    }
    let i = upto - 1;
    proof {
        assert(entries@.subrange(0, upto as int).last() == entries@[i as int]);
        assert(entries@.subrange(0, upto as int).drop_last() =~= entries@.subrange(0, i as int));
    }
    if bytes_eq(&entries[i].0, key) {
        let mut out: Vec<u8> = Vec::new();
        copy_bytes(&entries[i].1, &mut out);
        Some(out)
    } else {
        read_from(entries, i, key)
    }
}

/// Whether two byte strings hold the same bytes.
pub fn bytes_eq(a: &Vec<u8>, b: &Vec<u8>) -> (r: bool)
    ensures
        r == (a@ == b@),
{
    if a.len() != b.len() {
        proof {
            assert(a@ != b@);
        }
        return false;
    }
    let n = a.len();
    let mut i: usize = 0;
    while i < n
        invariant
            n == a@.len(),
            n == b@.len(),
            i <= n,
            forall|j: int| 0 <= j < i ==> a@[j] == b@[j],
        decreases n - i,
    {
        if a[i] != b[i] {
            return false;
        }
        i = i + 1;
    }
    proof {
        assert(a@ =~= b@);
    }
    true
}

/// Copies the bytes of `src` onto the end of `dst`.
pub(crate) fn copy_bytes(src: &Vec<u8>, dst: &mut Vec<u8>)
    ensures
        final(dst)@ == old(dst)@ + src@,
{
    let mut i: usize = 0;
    let ghost base: Seq<u8> = dst@;
    while i < src.len()
        invariant
            i <= src@.len(),
            dst@ == base + src@.subrange(0, i as int),
        decreases src@.len() - i,
    {
        dst.push(src[i]);
        proof {
            assert(dst@ =~= base + src@.subrange(0, i + 1));
        }
        i = i + 1;
    }
    proof {
        assert(src@.subrange(0, src@.len() as int) =~= src@);
    }
}

/// The reserved key under which the last committed round is persisted: the
/// bytes of the ASCII text naming the commit index.
pub open spec fn commit_index_key() -> Seq<u8> {
    seq![67u8, 79u8, 77u8, 77u8, 73u8, 84u8, 95u8, 73u8, 78u8, 68u8, 69u8, 88u8]
}

/// The reserved key under which the highest certificate is persisted.
pub open spec fn high_qc_key() -> Seq<u8> {
    seq![72u8, 73u8, 71u8, 72u8, 95u8, 81u8, 67u8]
}

/// Builds the reserved commit-index key.
pub fn commit_index_key_exec() -> (r: Vec<u8>)
    ensures
        r@ == commit_index_key(),
{
    let r: Vec<u8> = vec![67u8, 79u8, 77u8, 77u8, 73u8, 84u8, 95u8, 73u8, 78u8, 68u8, 69u8, 88u8];
    proof {
        assert(r@ =~= commit_index_key());
    }
    r
}

/// Builds the reserved high-certificate key.
pub fn high_qc_key_exec() -> (r: Vec<u8>)
    ensures
        r@ == high_qc_key(),
{
    let r: Vec<u8> = vec![72u8, 73u8, 71u8, 72u8, 95u8, 81u8, 67u8];
    proof {
        assert(r@ =~= high_qc_key());
    }
    r
}

} // verus!
