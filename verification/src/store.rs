//! The embedded key-value namespace both services persist into.
//!
//! One `Store` models one namespace of the storage engine: a map from byte
//! keys to byte values.  The layout is the one both services rely on:
//! the key `"checkpoint"` holds a 4-byte big-endian counter, and the data
//! keys (4-byte ids, 20-byte addresses, 8-byte index pairs) never collide
//! with it because their lengths differ.

use vstd::prelude::*;

use crate::bytes::{lemma_u32_be_roundtrip, spec_u32_from_be, spec_u32_to_be, u32_from_be, u32_to_be};
use crate::errors::TrustError;

verus! {

/// The map an association list stands for; a later entry overrides an
/// earlier one with the same key.
pub open spec fn assoc_map(es: Seq<(Seq<u8>, Seq<u8>)>) -> Map<Seq<u8>, Seq<u8>>
    decreases es.len(),
{
    if es.len() == 0 {
        Map::empty()
    } else {
        assoc_map(es.drop_last()).insert(es.last().0, es.last().1)
    }
}

/// A key-value namespace, keyed and valued by byte strings.
pub struct Store {
    entries: Vec<(Vec<u8>, Vec<u8>)>,
}

/// `m` after writing every pair of `es` in order.
pub open spec fn batch_inserted(m: Map<Seq<u8>, Seq<u8>>, es: Seq<(Seq<u8>, Seq<u8>)>) -> Map<
    Seq<u8>,
    Seq<u8>,
>
    decreases es.len(),
{
    if es.len() == 0 {
        m
    } else {
        batch_inserted(m, es.drop_last()).insert(es.last().0, es.last().1)
    }
}

proof fn lemma_assoc_map_lookup(es: Seq<(Seq<u8>, Seq<u8>)>, k: Seq<u8>, i: int)
    requires
        0 <= i < es.len(),
        es[i].0 == k,
        forall|j: int| i < j < es.len() ==> es[j].0 != k,
    ensures
        assoc_map(es).contains_key(k),
        assoc_map(es)[k] == es[i].1,
    decreases es.len(),
{
    if i == es.len() - 1 {
    } else {
        lemma_assoc_map_lookup(es.drop_last(), k, i);
    }
}

proof fn lemma_assoc_map_absent(es: Seq<(Seq<u8>, Seq<u8>)>, k: Seq<u8>)
    requires
        forall|j: int| 0 <= j < es.len() ==> es[j].0 != k,
    ensures
        !assoc_map(es).contains_key(k),
    decreases es.len(),
{
    if es.len() > 0 {
        lemma_assoc_map_absent(es.drop_last(), k);
    }
}

impl Store {
    /// What the namespace holds.
    pub closed spec fn contents(self) -> Map<Seq<u8>, Seq<u8>> {
        assoc_map(self.entries@.map_values(|p: (Vec<u8>, Vec<u8>)| (p.0@, p.1@)))
    }

    /// A freshly opened namespace holds nothing.
    pub fn new() -> (s: Store)
        ensures
            s.contents() == Map::<Seq<u8>, Seq<u8>>::empty(),
    {
        Store { entries: Vec::new() }
    }

    /// Look a key up.
    pub fn get(&self, key: &Vec<u8>) -> (r: Option<Vec<u8>>)
        ensures
            match r {
                Some(v) => self.contents().contains_key(key@) && self.contents()[key@] == v@,
                None => !self.contents().contains_key(key@),
            },
    {
        let ghost es = self.entries@.map_values(|p: (Vec<u8>, Vec<u8>)| (p.0@, p.1@));
        let mut i = self.entries.len();
        while i > 0
            invariant
                i <= self.entries.len(),
                es == self.entries@.map_values(|p: (Vec<u8>, Vec<u8>)| (p.0@, p.1@)),
                forall|j: int| i <= j < es.len() ==> es[j].0 != key@,
            decreases i,
        {
            i = i - 1;
            if self.entries[i].0 == *key {
                proof {
                    assert(self.entries@[i as int].0@ =~= key@);
                    lemma_assoc_map_lookup(es, key@, i as int);
                }
                return Some(self.entries[i].1.clone());
            }
        }
        proof {
            lemma_assoc_map_absent(es, key@);
        }
        None
    }

    /// Write one pair.
    pub fn put(&mut self, key: Vec<u8>, value: Vec<u8>)
        ensures
            final(self).contents() == old(self).contents().insert(key@, value@),
    {
        let ghost es = self.entries@.map_values(|p: (Vec<u8>, Vec<u8>)| (p.0@, p.1@));
        self.entries.push((key, value));
        proof {
            let es2 = self.entries@.map_values(|p: (Vec<u8>, Vec<u8>)| (p.0@, p.1@));
            assert(es2.drop_last() =~= es);
        }
    }

    /// A working copy holding the same contents, for staging a batch that
    /// commits in one piece or not at all.
    pub fn duplicate(&self) -> (r: Store)
        ensures
            r.contents() == self.contents(),
    {
        let mut entries: Vec<(Vec<u8>, Vec<u8>)> = Vec::new();
        let mut i: usize = 0;
        while i < self.entries.len()
            invariant
                i <= self.entries.len(),
                entries@.len() == i,
                forall|j: int|
                    0 <= j < i ==> (#[trigger] entries@[j]).0@ == self.entries@[j].0@
                        && entries@[j].1@ == self.entries@[j].1@,
            decreases self.entries.len() - i,
        {
            entries.push((self.entries[i].0.clone(), self.entries[i].1.clone()));
            i = i + 1;
        }
        let r = Store { entries };
        proof {
            assert(r.entries@.map_values(|p: (Vec<u8>, Vec<u8>)| (p.0@, p.1@)) =~= self.entries@
                .map_values(|p: (Vec<u8>, Vec<u8>)| (p.0@, p.1@)));
        }
        r
    }

    /// Write a whole batch in order, as one atomic unit.
    pub fn write_batch(&mut self, batch: Vec<(Vec<u8>, Vec<u8>)>)
        ensures
            final(self).contents() == batch_inserted(
                old(self).contents(),
                batch@.map_values(|p: (Vec<u8>, Vec<u8>)| (p.0@, p.1@)),
            ),
    {
        let ghost bs = batch@.map_values(|p: (Vec<u8>, Vec<u8>)| (p.0@, p.1@));
        let mut batch = batch;
        let mut i: usize = 0;
        while i < batch.len()
            invariant
                i <= batch.len(),
                bs == batch@.map_values(|p: (Vec<u8>, Vec<u8>)| (p.0@, p.1@)),
                self.contents() == batch_inserted(old(self).contents(), bs.take(i as int)),
            decreases batch.len() - i,
        {
            let (k, v) = (batch[i].0.clone(), batch[i].1.clone());
            self.put(k, v);
            proof {
                assert(bs.take(i + 1 as int).drop_last() =~= bs.take(i as int));
                assert(bs.take(i + 1 as int).last() == bs[i as int]);
            }
            i = i + 1;
        }
        proof {
            assert(bs.take(batch.len() as int) =~= bs);
        }
    }
}

/// An index is the last of its key in the entry list.
pub open spec fn is_last_occurrence(es: Seq<(Seq<u8>, Seq<u8>)>, idx: int) -> bool {
    forall|l: int| idx < l < es.len() ==> (#[trigger] es[l]).0 != es[idx].0
}

/// Every live key has a last occurrence among the entries.
proof fn lemma_assoc_map_last_occurrence(es: Seq<(Seq<u8>, Seq<u8>)>, k: Seq<u8>)
    requires
        assoc_map(es).contains_key(k),
    ensures
        exists|i: int| 0 <= i < es.len() && (#[trigger] es[i]).0 == k && is_last_occurrence(es, i),
    decreases es.len(),
{
    if es.len() > 0 {
        if es.last().0 == k {
            assert(es[es.len() - 1].0 == k && is_last_occurrence(es, es.len() - 1));
        } else {
            lemma_assoc_map_last_occurrence(es.drop_last(), k);
            let i = choose|i: int|
                0 <= i < es.drop_last().len() && (#[trigger] es.drop_last()[i]).0 == k
                    && is_last_occurrence(es.drop_last(), i);
            assert(es[i].0 == k);
            assert forall|l: int| i < l < es.len() implies (#[trigger] es[l]).0 != es[i].0 by {
                if l < es.len() - 1 {
                    assert(es.drop_last()[l] == es[l]);
                    assert(es.drop_last()[l].0 != es.drop_last()[i].0);
                }
            };
        }
    }
}

/// Some listed pair carries the key `k`.
pub open spec fn snapshot_covers(rs: Seq<(Vec<u8>, Vec<u8>)>, k: Seq<u8>) -> bool {
    exists|j: int| 0 <= j < rs.len() && (#[trigger] rs[j]).0@ == k
}

/// Listing one more pair loses no covered key.
proof fn lemma_covers_push(rs: Seq<(Vec<u8>, Vec<u8>)>, p: (Vec<u8>, Vec<u8>), k: Seq<u8>)
    requires
        snapshot_covers(rs, k),
    ensures
        snapshot_covers(rs.push(p), k),
{
    let j = choose|j: int| 0 <= j < rs.len() && (#[trigger] rs[j]).0@ == k;
    assert(rs.push(p)[j].0@ == k);
}

impl Store {
    /// One pair per live key: every returned pair is truly held, no key
    /// repeats, and every live key appears.
    pub fn snapshot(&self) -> (r: Vec<(Vec<u8>, Vec<u8>)>)
        ensures
            forall|j: int|
                0 <= j < r@.len() ==> self.contents().contains_key((#[trigger] r@[j]).0@)
                    && self.contents()[r@[j].0@] == r@[j].1@,
            forall|j1: int, j2: int| 0 <= j1 < j2 < r@.len() ==> r@[j1].0@ != r@[j2].0@,
            forall|k: Seq<u8>| #[trigger] self.contents().contains_key(k) ==> snapshot_covers(
                r@,
                k,
            ),
    {
        let ghost es = self.entries@.map_values(|p: (Vec<u8>, Vec<u8>)| (p.0@, p.1@));
        let mut r: Vec<(Vec<u8>, Vec<u8>)> = Vec::new();
        let n = self.entries.len();
        let mut i: usize = 0;
        while i < n
            invariant
                i <= n,
                n == self.entries.len(),
                es == self.entries@.map_values(|p: (Vec<u8>, Vec<u8>)| (p.0@, p.1@)),
                forall|j: int|
                    0 <= j < r@.len() ==> self.contents().contains_key((#[trigger] r@[j]).0@)
                        && self.contents()[r@[j].0@] == r@[j].1@,
                forall|j1: int, j2: int| 0 <= j1 < j2 < r@.len() ==> r@[j1].0@ != r@[j2].0@,
                forall|idx: int|
                    0 <= idx < i && #[trigger] is_last_occurrence(es, idx) ==> snapshot_covers(
                        r@,
                        es[idx].0,
                    ),
            decreases n - i,
        {
            let mut is_last = true;
            let mut l: usize = i + 1;
            while l < n
                invariant
                    i < n,
                    i + 1 <= l <= n,
                    n == self.entries.len(),
                    es == self.entries@.map_values(|p: (Vec<u8>, Vec<u8>)| (p.0@, p.1@)),
                    is_last ==> forall|q: int| i < q < l ==> (#[trigger] es[q]).0 != es[i as int].0,
                    !is_last ==> exists|q: int|
                        i < q < n && (#[trigger] es[q]).0 == es[i as int].0,
                decreases n - l,
            {
                if self.entries[l].0 == self.entries[i].0 {
                    proof {
                        assert(es[l as int].0 =~= es[i as int].0);
                    }
                    is_last = false;
                    l = n;
                } else {
                    proof {
                        assert(es[l as int].0 != es[i as int].0);
                    }
                    l = l + 1;
                }
            }
            let mut fresh = true;
            let mut q: usize = 0;
            while q < r.len()
                invariant
                    i < n,
                    q <= r@.len(),
                    n == self.entries.len(),
                    es == self.entries@.map_values(|p: (Vec<u8>, Vec<u8>)| (p.0@, p.1@)),
                    fresh ==> forall|j: int|
                        0 <= j < q ==> (#[trigger] r@[j]).0@ != es[i as int].0,
                    !fresh ==> snapshot_covers(r@, es[i as int].0),
                decreases r@.len() - q,
            {
                if r[q].0 == self.entries[i].0 {
                    proof {
                        assert(r@[q as int].0@ =~= es[i as int].0);
                    }
                    fresh = false;
                    q = r.len();
                } else {
                    proof {
                        assert(r@[q as int].0@ != es[i as int].0);
                    }
                    q = q + 1;
                }
            }
            let ghost rold = r@;
            if is_last && fresh {
                proof {
                    lemma_assoc_map_lookup(es, es[i as int].0, i as int);
                }
                r.push((self.entries[i].0.clone(), self.entries[i].1.clone()));
            }
            proof {
                assert forall|idx: int|
                    0 <= idx < i + 1 && #[trigger] is_last_occurrence(es, idx) implies
                    snapshot_covers(r@, es[idx].0) by {
                    if idx < i {
                        if r@ != rold {
                            lemma_covers_push(rold, (r@[r@.len() - 1]), es[idx].0);
                            assert(rold.push(r@[r@.len() - 1]) =~= r@);
                        }
                    } else {
                        if is_last && fresh {
                            assert(r@[r@.len() - 1].0@ == es[i as int].0);
                        } else if is_last {
                            // the key was already listed before the scan reached here
                            assert(snapshot_covers(r@, es[i as int].0));
                        } else {
                            // a later entry repeats the key, so this is no last occurrence
                            let q0 = choose|q0: int|
                                i < q0 < n && (#[trigger] es[q0]).0 == es[i as int].0;
                            assert(false);
                        }
                    }
                };
            }
            i = i + 1;
        }
        proof {
            assert forall|k: Seq<u8>| #[trigger] self.contents().contains_key(k) implies
                snapshot_covers(r@, k) by {
                lemma_assoc_map_last_occurrence(es, k);
                let idx = choose|idx: int|
                    0 <= idx < es.len() && (#[trigger] es[idx]).0 == k && is_last_occurrence(
                        es,
                        idx,
                    );
            };
        }
        r
    }
}

/// The bytes of the key `"checkpoint"`.
pub open spec fn spec_checkpoint_key() -> Seq<u8> {
    seq![99u8, 104u8, 101u8, 99u8, 107u8, 112u8, 111u8, 105u8, 110u8, 116u8]
}

/// Build the checkpoint key.
pub fn checkpoint_key() -> (r: Vec<u8>)
    ensures
        r@ == spec_checkpoint_key(),
{
    let mut r: Vec<u8> = Vec::new();
    r.push(99);
    r.push(104);
    r.push(101);
    r.push(99);
    r.push(107);
    r.push(112);
    r.push(111);
    r.push(105);
    r.push(110);
    r.push(116);
    assert(r@ =~= spec_checkpoint_key());
    r
}

/// The checkpoint record is either absent or a 4-byte counter.
pub open spec fn checkpoint_wf(m: Map<Seq<u8>, Seq<u8>>) -> bool {
    m.contains_key(spec_checkpoint_key()) ==> m[spec_checkpoint_key()].len() == 4
}

/// The counter a namespace has reached; 0 when none was ever written.
pub open spec fn spec_checkpoint(m: Map<Seq<u8>, Seq<u8>>) -> u32 {
    if m.contains_key(spec_checkpoint_key()) {
        spec_u32_from_be(m[spec_checkpoint_key()])
    } else {
        0
    }
}

/// Read the persisted checkpoint; 0 when absent.
pub fn read_checkpoint(db: &Store) -> (r: Result<u32, TrustError>)
    ensures
        checkpoint_wf(db.contents()) ==> r == Ok::<u32, TrustError>(spec_checkpoint(db.contents())),
        !checkpoint_wf(db.contents()) ==> r == Err::<u32, TrustError>(TrustError::StorageError),
{
    let key = checkpoint_key();
    match db.get(&key) {
        None => Ok(0),
        Some(v) => {
            if v.len() == 4 {
                Ok(u32_from_be(&v))
            } else {
                Err(TrustError::StorageError)
            }
        },
    }
}

/// Persist `count` as the checkpoint.
pub fn write_checkpoint(db: &mut Store, count: u32) -> (r: Result<(), TrustError>)
    ensures
        r is Ok,
        final(db).contents() == old(db).contents().insert(
            spec_checkpoint_key(),
            spec_u32_to_be(count),
        ),
        checkpoint_wf(final(db).contents()),
        spec_checkpoint(final(db).contents()) == count,
{
    let key = checkpoint_key();
    let value = u32_to_be(count);
    db.put(key, value);
    proof {
        lemma_u32_be_roundtrip(count);
    }
    Ok(())
}

/// Writing a checkpoint and reading it back yields the written value,
/// whatever the namespace held before.
pub proof fn lemma_checkpoint_roundtrip(m: Map<Seq<u8>, Seq<u8>>, n: u32)
    ensures
        spec_checkpoint(m.insert(spec_checkpoint_key(), spec_u32_to_be(n))) == n,
{
    lemma_u32_be_roundtrip(n);
}

} // verus!
