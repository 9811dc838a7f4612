//! The linear combiner: address-to-index assignment and weighted aggregation.
//!
//! Addresses get dense indices in encounter order, never reassigned.  Every
//! incoming edge accumulates its weight (modulo 2^32) into the aggregate
//! matrix under the 8-byte composite key of its two indices, and the same
//! accumulated total is recorded in the updates namespace for the downstream
//! consumer.

use vstd::prelude::*;
use vstd::string::StrSliceExecFns;
use vstd::utf8::encode_utf8;

use crate::bytes::{lemma_u32_be_roundtrip, spec_u32_from_be, spec_u32_to_be, u32_from_be, u32_to_be};
use crate::errors::TrustError;
use crate::hexstr::{hex_decode, is_hex_text, spec_hex_decode};
use crate::store::{checkpoint_wf, read_checkpoint, spec_checkpoint, spec_checkpoint_key,
    write_checkpoint, Store};
use crate::term::TermObject;

verus! {

/// One sparse-matrix triplet handed to the core computer.
#[derive(Clone, Copy, Debug, PartialEq, Eq, Structural)]
pub struct LtObject {
    pub x: u32,
    pub y: u32,
    pub value: u32,
}

/// The accumulated weight a namespace holds under `k`: a 4-byte big-endian
/// counter, 0 when absent or malformed.
pub open spec fn spec_value_at(m: Map<Seq<u8>, Seq<u8>>, k: Seq<u8>) -> u32 {
    if m.contains_key(k) && m[k].len() == 4 {
        spec_u32_from_be(m[k])
    } else {
        0
    }
}

/// The layout invariant of the combiner's main namespace, relative to the
/// next free index `off`: every 20-byte address key maps to a distinct
/// 4-byte index below `off`, and every 8-byte composite key is made of two
/// indices below `off` and maps to a 4-byte total.
#[verifier::opaque]
pub open spec fn combiner_inv(m: Map<Seq<u8>, Seq<u8>>, off: u32) -> bool {
    &&& forall|k: Seq<u8>| #[trigger] m.contains_key(k) ==> {
        &&& (k.len() == 20 ==> m[k].len() == 4 && spec_u32_from_be(m[k]) < off)
        &&& (k.len() == 8 ==> m[k].len() == 4 && spec_u32_from_be(k.take(4)) < off
            && spec_u32_from_be(k.skip(4)) < off)
    }
    &&& forall|k1: Seq<u8>, k2: Seq<u8>|
        m.contains_key(k1) && m.contains_key(k2) && k1.len() == 20 && k2.len() == 20
            && #[trigger] m[k1] == #[trigger] m[k2] ==> k1 == k2
}

/// A stored index is 4 bytes and below the counter.
proof fn lemma_inv_index_bound(m: Map<Seq<u8>, Seq<u8>>, off: u32, k: Seq<u8>)
    requires
        combiner_inv(m, off),
        m.contains_key(k),
        k.len() == 20,
    ensures
        m[k].len() == 4,
        spec_u32_from_be(m[k]) < off,
{
    reveal(combiner_inv);
}

/// A stored composite key is made of two indices below the counter.
proof fn lemma_inv_pair_bound(m: Map<Seq<u8>, Seq<u8>>, off: u32, k: Seq<u8>)
    requires
        combiner_inv(m, off),
        m.contains_key(k),
        k.len() == 8,
    ensures
        m[k].len() == 4,
        spec_u32_from_be(k.take(4)) < off,
        spec_u32_from_be(k.skip(4)) < off,
{
    reveal(combiner_inv);
}

/// No two addresses share an index.
proof fn lemma_inv_injective(m: Map<Seq<u8>, Seq<u8>>, off: u32, k1: Seq<u8>, k2: Seq<u8>)
    requires
        combiner_inv(m, off),
        m.contains_key(k1),
        m.contains_key(k2),
        k1.len() == 20,
        k2.len() == 20,
        m[k1] == m[k2],
    ensures
        k1 == k2,
{
    reveal(combiner_inv);
}

/// What assigning an index to address `a` yields: the index bytes, the index
/// table afterwards, and the next free index.  An address already present
/// keeps its index and moves nothing; a fresh address takes the next free
/// index.  `None` when the index space is exhausted.
pub open spec fn spec_assign(m: Map<Seq<u8>, Seq<u8>>, off: u32, a: Seq<u8>) -> Option<
    (Seq<u8>, Map<Seq<u8>, Seq<u8>>, u32),
> {
    if m.contains_key(a) {
        Some((m[a], m, off))
    } else if off == u32::MAX {
        None
    } else {
        Some((spec_u32_to_be(off), m.insert(a, spec_u32_to_be(off)), (off + 1) as u32))
    }
}

/// One edge folded into the combiner state: assign both indices, then
/// accumulate the weight under the composite key in the aggregate matrix and
/// record the new total in the updates namespace.
#[verifier::opaque]
pub open spec fn spec_ingest_one(
    m: Map<Seq<u8>, Seq<u8>>,
    u: Map<Seq<u8>, Seq<u8>>,
    off: u32,
    t: (Seq<u8>, Seq<u8>, u32),
) -> Option<(Map<Seq<u8>, Seq<u8>>, Map<Seq<u8>, Seq<u8>>, u32)> {
    match spec_assign(m, off, t.0) {
        None => None,
        Some((x, m1, o1)) => match spec_assign(m1, o1, t.1) {
            None => None,
            Some((y, m2, o2)) => {
                let k = x + y;
                let nv = ((spec_value_at(m2, k) + t.2) % 0x1_0000_0000) as u32;
                Some((m2.insert(k, spec_u32_to_be(nv)), u.insert(k, spec_u32_to_be(nv)), o2))
            },
        },
    }
}

/// A whole batch folded into the combiner state, in arrival order.
#[verifier::opaque]
pub open spec fn spec_ingest(
    m: Map<Seq<u8>, Seq<u8>>,
    u: Map<Seq<u8>, Seq<u8>>,
    off: u32,
    ts: Seq<(Seq<u8>, Seq<u8>, u32)>,
) -> Option<(Map<Seq<u8>, Seq<u8>>, Map<Seq<u8>, Seq<u8>>, u32)>
    decreases ts.len(),
{
    if ts.len() == 0 {
        Some((m, u, off))
    } else {
        match spec_ingest(m, u, off, ts.drop_last()) {
            None => None,
            Some(s) => spec_ingest_one(s.0, s.1, s.2, ts.last()),
        }
    }
}

/// The addresses and weight a wire edge stands for: both addresses must be
/// exactly 40 hex digits.
pub open spec fn spec_term_triple(t: TermObject) -> Option<(Seq<u8>, Seq<u8>, u32)> {
    let fb = encode_utf8(t.from@);
    let tb = encode_utf8(t.to@);
    if fb.len() == 40 && is_hex_text(fb) && tb.len() == 40 && is_hex_text(tb) {
        Some((spec_hex_decode(fb), spec_hex_decode(tb), t.weight))
    } else {
        None
    }
}

/// Every wire edge of a batch decoded, or `None` on the first malformed one.
#[verifier::opaque]
pub open spec fn spec_decode_terms(ts: Seq<TermObject>) -> Option<Seq<(Seq<u8>, Seq<u8>, u32)>>
    decreases ts.len(),
{
    if ts.len() == 0 {
        Some(Seq::empty())
    } else {
        match spec_decode_terms(ts.drop_last()) {
            None => None,
            Some(ds) => match spec_term_triple(ts.last()) {
                None => None,
                Some(d) => Some(ds.push(d)),
            },
        }
    }
}

/// The linear combiner service over its two namespaces.
pub struct LinearCombinerService {
    pub main: Store,
    pub updates: Store,
}

impl LinearCombinerService {
    /// Open the service over fresh namespaces; the next free index is 0.
    pub fn new() -> (r: Result<LinearCombinerService, TrustError>)
        ensures
            match r {
                Ok(c) => {
                    &&& checkpoint_wf(c.main.contents())
                    &&& spec_checkpoint(c.main.contents()) == 0
                    &&& c.main.contents() == Map::<Seq<u8>, Seq<u8>>::empty().insert(
                        spec_checkpoint_key(),
                        spec_u32_to_be(0),
                    )
                    &&& c.updates.contents() == Map::<Seq<u8>, Seq<u8>>::empty()
                },
                Err(_) => false,
            },
    {
        let mut main = Store::new();
        let _ = write_checkpoint(&mut main, 0);
        Ok(LinearCombinerService { main, updates: Store::new() })
    }

    /// Read the next free index.
    pub fn read_checkpoint(db: &Store) -> (r: Result<u32, TrustError>)
        ensures
            checkpoint_wf(db.contents()) ==> r == Ok::<u32, TrustError>(
                spec_checkpoint(db.contents()),
            ),
            !checkpoint_wf(db.contents()) ==> r == Err::<u32, TrustError>(TrustError::StorageError),
    {
        read_checkpoint(db)
    }

    /// Persist the next free index.
    pub fn write_checkpoint(db: &mut Store, count: u32) -> (r: Result<(), TrustError>)
        ensures
            r is Ok,
            final(db).contents() == old(db).contents().insert(
                spec_checkpoint_key(),
                spec_u32_to_be(count),
            ),
    {
        write_checkpoint(db, count)
    }

    /// Look the 20-byte address up in the index table, assigning the next
    /// free index on first sight.  An address already present keeps its
    /// index: the table and the counter move only for a fresh address.
    pub fn assign_index(db: &mut Store, key: Vec<u8>, offset: &mut u32) -> (r: Result<
        Vec<u8>,
        TrustError,
    >)
        ensures
            match r {
                Ok(idx) => spec_assign(old(db).contents(), *old(offset), key@) == Some(
                    (idx@, final(db).contents(), *final(offset)),
                ),
                Err(e) => {
                    &&& e == TrustError::StorageError
                    &&& spec_assign(old(db).contents(), *old(offset), key@) is None
                    &&& final(db).contents() == old(db).contents()
                    &&& *final(offset) == *old(offset)
                },
            },
    {
        match db.get(&key) {
            Some(idx) => Ok(idx),
            None => {
                if *offset == u32::MAX {
                    return Err(TrustError::StorageError);
                }
                let idx = u32_to_be(*offset);
                db.put(key, idx.clone());
                *offset = *offset + 1;
                Ok(idx)
            },
        }
    }

    /// Look a hex-text address up in the index table, assigning the next
    /// free index on first sight.  Text that is not exactly 40 hex digits is
    /// a [`TrustError::ParseError`].
    pub fn get_index(db: &mut Store, source: String, offset: &mut u32) -> (r: Result<
        Vec<u8>,
        TrustError,
    >)
        ensures
            match r {
                Ok(idx) => {
                    &&& encode_utf8(source@).len() == 40
                    &&& is_hex_text(encode_utf8(source@))
                    &&& spec_assign(
                        old(db).contents(),
                        *old(offset),
                        spec_hex_decode(encode_utf8(source@)),
                    ) == Some((idx@, final(db).contents(), *final(offset)))
                },
                Err(TrustError::ParseError) => {
                    &&& !(encode_utf8(source@).len() == 40 && is_hex_text(encode_utf8(source@)))
                    &&& final(db).contents() == old(db).contents()
                    &&& *final(offset) == *old(offset)
                },
                Err(e) => {
                    &&& e == TrustError::StorageError
                    &&& spec_assign(
                        old(db).contents(),
                        *old(offset),
                        spec_hex_decode(encode_utf8(source@)),
                    ) is None
                    &&& final(db).contents() == old(db).contents()
                    &&& *final(offset) == *old(offset)
                },
            },
    {
        let bs = source.as_str().as_bytes_vec();
        if bs.len() != 40 {
            return Err(TrustError::ParseError);
        }
        let key = match hex_decode(&bs) {
            Some(k) => k,
            None => {
                return Err(TrustError::ParseError);
            },
        };
        Self::assign_index(db, key, offset)
    }

    /// Read the accumulated weight under a composite key; 0 when absent.
    pub fn get_value(main_db: &Store, key: &Vec<u8>) -> (r: u32)
        ensures
            r == spec_value_at(main_db.contents(), key@),
    {
        match main_db.get(key) {
            None => 0,
            Some(v) => {
                if v.len() == 4 {
                    u32_from_be(&v)
                } else {
                    0
                }
            },
        }
    }

    /// Accumulate `weight` into the aggregate under `key` (modulo 2^32) and
    /// record the new total in the updates namespace under the same key.
    pub fn update_value(main_db: &mut Store, updates_db: &mut Store, key: Vec<u8>, weight: u32)
        ensures
            ({
                let nv = ((spec_value_at(old(main_db).contents(), key@) + weight)
                    % 0x1_0000_0000) as u32;
                &&& final(main_db).contents() == old(main_db).contents().insert(
                    key@,
                    spec_u32_to_be(nv),
                )
                &&& final(updates_db).contents() == old(updates_db).contents().insert(
                    key@,
                    spec_u32_to_be(nv),
                )
            }),
    {
        let value = Self::get_value(main_db, &key);
        let wide: u64 = value as u64 + weight as u64;
        let new_value: u32 = (wide % 0x1_0000_0000u64) as u32;
        let encoded = u32_to_be(new_value);
        main_db.put(key.clone(), encoded.clone());
        updates_db.put(key, encoded);
    }


    /// The whole aggregate matrix as sparse triplets, for the downstream
    /// core computer: every emitted triplet is one currently stored cell,
    /// every stored cell appears, and none appears twice.
    #[verifier::rlimit(100)]
    pub fn sync_core_computer(&self) -> (r: Vec<LtObject>)
        requires
            combiner_inv(
                self.main.contents(),
                spec_checkpoint(self.main.contents()),
            ),
        ensures
            forall|j: int|
                0 <= j < r@.len() ==> #[trigger] spec_triplet_ok(self.main.contents(), r@[j]),
            forall|k: Seq<u8>|
                #[trigger] self.main.contents().contains_key(k) && k.len() == 8
                    ==> spec_dump_covers(r@, spec_triplet_of(self.main.contents(), k)),
            forall|j1: int, j2: int| 0 <= j1 < j2 < r@.len() ==> r@[j1] != r@[j2],
    {
        let ghost m = self.main.contents();
        let pairs = self.main.snapshot();
        let mut r: Vec<LtObject> = Vec::new();
        let ghost mut src_idx: Seq<int> = Seq::empty();
        let mut i: usize = 0;
        while i < pairs.len()
            invariant
                i <= pairs@.len(),
                m == self.main.contents(),
                combiner_inv(m, spec_checkpoint(m)),
                forall|j: int|
                    0 <= j < pairs@.len() ==> m.contains_key((#[trigger] pairs@[j]).0@)
                        && m[pairs@[j].0@] == pairs@[j].1@,
                forall|j1: int, j2: int|
                    0 <= j1 < j2 < pairs@.len() ==> pairs@[j1].0@ != pairs@[j2].0@,
                forall|k: Seq<u8>| #[trigger] m.contains_key(k) ==> crate::store::snapshot_covers(
                    pairs@,
                    k,
                ),
                src_idx.len() == r@.len(),
                forall|j: int|
                    0 <= j < r@.len() ==> 0 <= #[trigger] src_idx[j] < i
                        && pairs@[src_idx[j]].0@.len() == 8 && r@[j] == spec_triplet_of(
                        m,
                        pairs@[src_idx[j]].0@,
                    ),
                forall|j1: int, j2: int| 0 <= j1 < j2 < r@.len() ==> src_idx[j1] < src_idx[j2],
                forall|q: int|
                    0 <= q < i && (#[trigger] pairs@[q]).0@.len() == 8 ==> spec_dump_covers(
                        r@,
                        spec_triplet_of(m, pairs@[q].0@),
                    ),
            decreases pairs@.len() - i,
        {
            let ghost rold = r@;
            let key = &pairs[i].0;
            if key.len() == 8 {
                proof {
                    lemma_inv_pair_bound(m, spec_checkpoint(m), key@);
                }
                let xb = crate::schemas::copy_range(key, 0, 4);
                let yb = crate::schemas::copy_range(key, 4, 8);
                let x = u32_from_be(&xb);
                let y = u32_from_be(&yb);
                let value = u32_from_be(&pairs[i].1);
                let item = LtObject { x, y, value };
                proof {
                    assert(m.contains_key(key@) && key@.len() == 8 && item == spec_triplet_of(
                        m,
                        key@,
                    ));
                }
                r.push(item);
                proof {
                    src_idx = src_idx.push(i as int);
                    assert(r@[r@.len() - 1] == spec_triplet_of(m, pairs@[i as int].0@));
                }
            }
            proof {
                assert forall|q: int|
                    0 <= q < i + 1 && (#[trigger] pairs@[q]).0@.len() == 8 implies spec_dump_covers(
                    r@,
                    spec_triplet_of(m, pairs@[q].0@),
                ) by {
                    if q < i {
                        let j0 = choose|j0: int|
                            0 <= j0 < rold.len() && rold[j0] == spec_triplet_of(m, pairs@[q].0@);
                        assert(r@[j0] == spec_triplet_of(m, pairs@[q].0@));
                    } else {
                        assert(r@[r@.len() - 1] == spec_triplet_of(m, pairs@[q].0@));
                    }
                };
            }
            i = i + 1;
        }
        proof {
            // distinct snapshot keys decode to distinct triplets
            assert forall|j1: int, j2: int| 0 <= j1 < j2 < r@.len() implies r@[j1] != r@[j2] by {
                if r@[j1] == r@[j2] {
                    lemma_triplet_of_injective(m, pairs@[src_idx[j1]].0@, pairs@[src_idx[j2]].0@);
                }
            };
            assert forall|k: Seq<u8>|
                #[trigger] m.contains_key(k) && k.len() == 8 implies spec_dump_covers(
                r@,
                spec_triplet_of(m, k),
            ) by {
                let q = choose|q: int| 0 <= q < pairs@.len() && (#[trigger] pairs@[q]).0@ == k;
            };
            assert forall|j: int| 0 <= j < r@.len() implies #[trigger] spec_triplet_ok(
                m,
                r@[j],
            ) by {
                assert(m.contains_key(pairs@[src_idx[j]].0@) && pairs@[src_idx[j]].0@.len() == 8
                    && r@[j] == spec_triplet_of(m, pairs@[src_idx[j]].0@));
            };
        }
        r
    }

    /// Decode every wire edge of a batch into raw addresses and weight; a
    /// malformed address is a [`TrustError::ParseError`].
    #[verifier::rlimit(100)]
    pub fn decode_terms(terms: &Vec<TermObject>) -> (r: Result<
        Vec<(Vec<u8>, Vec<u8>, u32)>,
        TrustError,
    >)
        ensures
            match r {
                Ok(d) => {
                    &&& spec_decode_terms(terms@) == Some(
                        d@.map_values(|p: (Vec<u8>, Vec<u8>, u32)| (p.0@, p.1@, p.2)),
                    )
                    &&& forall|l: int|
                        0 <= l < d@.len() ==> (#[trigger] d@[l]).0@.len() == 20 && d@[l].1@.len()
                            == 20
                },
                Err(e) => e == TrustError::ParseError && spec_decode_terms(terms@) is None,
            },
    {
        let mut decoded: Vec<(Vec<u8>, Vec<u8>, u32)> = Vec::new();
        proof {
            reveal(spec_decode_terms);
            assert(terms@.take(0) =~= Seq::<TermObject>::empty());
            assert(decoded@.map_values(|d: (Vec<u8>, Vec<u8>, u32)| (d.0@, d.1@, d.2))
                =~= Seq::<(Seq<u8>, Seq<u8>, u32)>::empty());
        }
        let mut i: usize = 0;
        while i < terms.len()
            invariant
                i <= terms@.len(),
                decoded@.len() == i,
                forall|l: int|
                    0 <= l < decoded@.len() ==> (#[trigger] decoded@[l]).0@.len() == 20
                        && decoded@[l].1@.len() == 20,
                spec_decode_terms(terms@.take(i as int)) == Some(
                    decoded@.map_values(|d: (Vec<u8>, Vec<u8>, u32)| (d.0@, d.1@, d.2)),
                ),
            decreases terms@.len() - i,
        {
            let fb = terms[i].from.as_str().as_bytes_vec();
            let tb = terms[i].to.as_str().as_bytes_vec();
            if fb.len() != 40 || tb.len() != 40 {
                proof {
                    lemma_decode_terms_step_none(terms@, i as int);
                }
                return Err(TrustError::ParseError);
            }
            let fk = match hex_decode(&fb) {
                Some(k) => k,
                None => {
                    proof {
                        lemma_decode_terms_step_none(terms@, i as int);
                    }
                    return Err(TrustError::ParseError);
                },
            };
            let tk = match hex_decode(&tb) {
                Some(k) => k,
                None => {
                    proof {
                        lemma_decode_terms_step_none(terms@, i as int);
                    }
                    return Err(TrustError::ParseError);
                },
            };
            let ghost prev = decoded@;
            decoded.push((fk, tk, terms[i].weight));
            proof {
                lemma_decode_extend(terms@, i as int);
                assert(spec_term_triple(terms@[i as int]) == Some(
                    (decoded@[i as int].0@, decoded@[i as int].1@, decoded@[i as int].2),
                ));
                let mapped = decoded@.map_values(|d: (Vec<u8>, Vec<u8>, u32)| (d.0@, d.1@, d.2));
                let pm = prev.map_values(|d: (Vec<u8>, Vec<u8>, u32)| (d.0@, d.1@, d.2));
                assert(mapped =~= pm.push((decoded@[i as int].0@, decoded@[i as int].1@,
                decoded@[i as int].2)));
            }
            i = i + 1;
        }
        proof {
            assert(terms@.take(terms@.len() as int) =~= terms@);
        }
        proof {
            assert(terms@.take(terms@.len() as int) =~= terms@);
        }
        Ok(decoded)
    }

    /// One sync invocation over an already-drained batch of wire edges:
    /// decode every address first, then fold each edge into the index table
    /// and the aggregate matrix in arrival order, staged on working copies.
    /// The staged state — index assignments, totals, and the next free index
    /// as the new checkpoint — commits as one unit only after the whole
    /// batch succeeded; any failure leaves both namespaces exactly as they
    /// were.
    #[verifier::rlimit(100)]
    pub fn sync_transformer(&mut self, terms: &Vec<TermObject>) -> (r: Result<(), TrustError>)
        requires
            combiner_inv(
                old(self).main.contents(),
                spec_checkpoint(old(self).main.contents()),
            ),
        ensures
            !checkpoint_wf(old(self).main.contents()) ==> r == Err::<(), TrustError>(
                TrustError::StorageError,
            ) && final(self).main.contents() == old(self).main.contents()
                && final(self).updates.contents() == old(self).updates.contents(),
            checkpoint_wf(old(self).main.contents()) ==> match r {
                Ok(()) => {
                    let cp0 = spec_checkpoint(old(self).main.contents());
                    &&& spec_decode_terms(terms@) matches Some(ts) && (spec_ingest(
                        old(self).main.contents(),
                        old(self).updates.contents(),
                        cp0,
                        ts,
                    ) matches Some(s) && final(self).main.contents() == s.0.insert(
                        spec_checkpoint_key(),
                        spec_u32_to_be(s.2),
                    ) && final(self).updates.contents() == s.1 && checkpoint_wf(
                        final(self).main.contents(),
                    ) && spec_checkpoint(final(self).main.contents()) == s.2 && combiner_inv(
                        final(self).main.contents(),
                        s.2,
                    ))
                },
                Err(e) => {
                    let cp0 = spec_checkpoint(old(self).main.contents());
                    &&& (e == TrustError::ParseError || e == TrustError::StorageError)
                    &&& final(self).main.contents() == old(self).main.contents()
                    &&& final(self).updates.contents() == old(self).updates.contents()
                    &&& e == TrustError::ParseError ==> spec_decode_terms(terms@) is None
                    &&& e == TrustError::StorageError ==> (spec_decode_terms(terms@) matches Some(
                        ts,
                    ) && spec_ingest(
                        old(self).main.contents(),
                        old(self).updates.contents(),
                        cp0,
                        ts,
                    ) is None)
                },
            },
    {
        let mut offset = match read_checkpoint(&self.main) {
            Ok(c) => c,
            Err(e) => {
                return Err(e);
            },
        };
        let ghost m0 = self.main.contents();
        let ghost u0 = self.updates.contents();
        let ghost cp0 = offset;

        let decoded = match Self::decode_terms(terms) {
            Ok(d) => d,
            Err(e) => {
                return Err(e);
            },
        };
        let ghost ts = decoded@.map_values(|d: (Vec<u8>, Vec<u8>, u32)| (d.0@, d.1@, d.2));

        let ghost dec_full = spec_decode_terms(terms@);
        let mut work_main = self.main.duplicate();
        let mut work_updates = self.updates.duplicate();
        proof {
            reveal(spec_ingest);
            assert(ts.take(0) =~= Seq::<(Seq<u8>, Seq<u8>, u32)>::empty());
            assert(spec_ingest(m0, u0, cp0, ts.take(0)) == Some((m0, u0, cp0)));
        }
        let mut j: usize = 0;
        while j < decoded.len()
            invariant
                j <= decoded@.len(),
                checkpoint_wf(old(self).main.contents()),
                m0 == old(self).main.contents(),
                u0 == old(self).updates.contents(),
                cp0 == spec_checkpoint(old(self).main.contents()),
                dec_full == spec_decode_terms(terms@),
                dec_full == Some(ts),
                combiner_inv(m0, cp0),
                forall|l: int| 0 <= l < ts.len() ==> (#[trigger] ts[l]).0.len() == 20
                    && ts[l].1.len() == 20,
                ts == decoded@.map_values(|d: (Vec<u8>, Vec<u8>, u32)| (d.0@, d.1@, d.2)),
                spec_ingest(m0, u0, cp0, ts.take(j as int)) == Some(
                    (work_main.contents(), work_updates.contents(), offset),
                ),
            decreases decoded@.len() - j,
        {
            let ghost m_before = work_main.contents();
            let ghost u_before = work_updates.contents();
            let ghost off_before = offset;
            let from_key = decoded[j].0.clone();
            let to_key = decoded[j].1.clone();
            let weight = decoded[j].2;
            let mut x = match Self::assign_index(&mut work_main, from_key, &mut offset) {
                Ok(v) => v,
                Err(e) => {
                    proof {
                        reveal(spec_ingest_one);
                        lemma_ingest_none_extends(m0, u0, cp0, ts, j as int);
                    }
                    return Err(e);
                },
            };
            let ghost m_mid = work_main.contents();
            let ghost off_mid = offset;
            let mut y = match Self::assign_index(&mut work_main, to_key, &mut offset) {
                Ok(v) => v,
                Err(e) => {
                    proof {
                        reveal(spec_ingest_one);
                        lemma_ingest_none_extends(m0, u0, cp0, ts, j as int);
                    }
                    return Err(e);
                },
            };
            let mut key = x;
            key.append(&mut y);
            Self::update_value(&mut work_main, &mut work_updates, key, weight);
            proof {
                reveal(spec_ingest_one);
                assert(spec_ingest_one(m_before, u_before, off_before, ts[j as int]) == Some(
                    (work_main.contents(), work_updates.contents(), offset),
                ));
                lemma_ingest_extend(m0, u0, cp0, ts, j as int);
            }
            j = j + 1;
        }
        proof {
            assert(ts.take(decoded@.len() as int) =~= ts);
            lemma_ingest_state(m0, u0, cp0, ts);
        }
        let r = write_checkpoint(&mut work_main, offset);
        proof {
            reveal(combiner_inv);
            let s0 = work_main.contents();
            assert(spec_checkpoint_key().len() == 10);
            assert forall|k: Seq<u8>| #[trigger] s0.contains_key(k) implies {
                &&& (k.len() == 20 ==> s0[k].len() == 4 && spec_u32_from_be(s0[k]) < offset)
                &&& (k.len() == 8 ==> s0[k].len() == 4 && spec_u32_from_be(k.take(4)) < offset
                    && spec_u32_from_be(k.skip(4)) < offset)
            } by {};
            assert(combiner_inv(s0, offset));
        }
        self.main = work_main;
        self.updates = work_updates;
        match r {
            Ok(()) => Ok(()),
            Err(e) => Err(e),
        }
    }
}

/// Decoding one more edge extends a decoded prefix.
proof fn lemma_decode_extend(terms: Seq<TermObject>, i: int)
    requires
        0 <= i < terms.len(),
    ensures
        spec_decode_terms(terms.take(i + 1)) == (match spec_decode_terms(terms.take(i)) {
            None => None,
            Some(ds) => match spec_term_triple(terms[i]) {
                None => None,
                Some(d) => Some(ds.push(d)),
            },
        }),
{
    reveal(spec_decode_terms);
    assert(terms.take(i + 1).drop_last() =~= terms.take(i));
    assert(terms.take(i + 1).last() == terms[i]);
}

/// Assigning an index preserves the layout invariant; the assigned index is
/// 4 bytes, the counter never shrinks, and existing assignments stand.
#[verifier::rlimit(100)]
proof fn lemma_assign_state(m: Map<Seq<u8>, Seq<u8>>, off: u32, a: Seq<u8>)
    requires
        combiner_inv(m, off),
        a.len() == 20,
    ensures
        match spec_assign(m, off, a) {
            Some(s) => {
                &&& combiner_inv(s.1, s.2)
                &&& s.0.len() == 4
                &&& spec_u32_from_be(s.0) < s.2
                &&& off <= s.2
                &&& s.1.contains_key(a) && s.1[a] == s.0
                &&& spec_checkpoint(s.1) == spec_checkpoint(m)
                &&& checkpoint_wf(m) ==> checkpoint_wf(s.1)
                &&& forall|x: Seq<u8>|
                    #[trigger] m.contains_key(x) ==> s.1.contains_key(x) && s.1[x] == m[x]
                &&& forall|k: Seq<u8>|
                    #[trigger] s.1.contains_key(k) && k.len() == 8 ==> m.contains_key(k) && m[k]
                        == s.1[k]
            },
            None => true,
        },
{
    reveal(combiner_inv);
    if m.contains_key(a) {
    } else if off == u32::MAX {
    } else {
        let m1 = m.insert(a, spec_u32_to_be(off));
        lemma_u32_be_roundtrip(off);
        assert(spec_checkpoint_key().len() == 10);
        assert forall|k1: Seq<u8>, k2: Seq<u8>|
            m1.contains_key(k1) && m1.contains_key(k2) && k1.len() == 20 && k2.len() == 20
                && #[trigger] m1[k1] == #[trigger] m1[k2] implies k1 == k2 by {
            if k1 == a && k2 != a {
                assert(spec_u32_from_be(m1[k2]) < off);
                assert(spec_u32_from_be(m1[k1]) == off);
            } else if k2 == a && k1 != a {
                assert(spec_u32_from_be(m1[k1]) < off);
                assert(spec_u32_from_be(m1[k2]) == off);
            }
        };
    }
}

/// One folded edge preserves the layout invariant, the persisted checkpoint
/// record, and every existing index assignment.
#[verifier::rlimit(100)]
proof fn lemma_ingest_one_state(
    m: Map<Seq<u8>, Seq<u8>>,
    u: Map<Seq<u8>, Seq<u8>>,
    off: u32,
    t: (Seq<u8>, Seq<u8>, u32),
)
    requires
        combiner_inv(m, off),
        t.0.len() == 20,
        t.1.len() == 20,
    ensures
        match spec_ingest_one(m, u, off, t) {
            Some(s) => {
                &&& combiner_inv(s.0, s.2)
                &&& off <= s.2
                &&& spec_checkpoint(s.0) == spec_checkpoint(m)
                &&& checkpoint_wf(m) ==> checkpoint_wf(s.0)
                &&& forall|x: Seq<u8>|
                    #[trigger] m.contains_key(x) && x.len() == 20 ==> s.0.contains_key(x)
                        && s.0[x] == m[x]
            },
            None => true,
        },
{
    reveal(spec_ingest_one);
    match spec_assign(m, off, t.0) {
        None => {},
        Some((x, m1, o1)) => {
            lemma_assign_state(m, off, t.0);
            match spec_assign(m1, o1, t.1) {
                None => {},
                Some((y, m2, o2)) => {
                    lemma_assign_state(m1, o1, t.1);
                    let k = x + y;
                    let nv = ((spec_value_at(m2, k) + t.2) % 0x1_0000_0000) as u32;
                    let m3 = m2.insert(k, spec_u32_to_be(nv));
                    assert(k.len() == 8);
                    assert(k.take(4) =~= x);
                    assert(k.skip(4) =~= y);
                    assert(spec_checkpoint_key().len() == 10);
                    assert(combiner_inv(m3, o2)) by {
                        reveal(combiner_inv);
                    };
                },
            }
        },
    }
}

/// A folded batch preserves the layout invariant, the persisted checkpoint
/// record, and every existing index assignment.
#[verifier::rlimit(100)]
pub proof fn lemma_ingest_state(
    m: Map<Seq<u8>, Seq<u8>>,
    u: Map<Seq<u8>, Seq<u8>>,
    off: u32,
    ts: Seq<(Seq<u8>, Seq<u8>, u32)>,
)
    requires
        combiner_inv(m, off),
        forall|l: int| 0 <= l < ts.len() ==> (#[trigger] ts[l]).0.len() == 20 && ts[l].1.len()
            == 20,
    ensures
        match spec_ingest(m, u, off, ts) {
            Some(s) => {
                &&& combiner_inv(s.0, s.2)
                &&& off <= s.2
                &&& spec_checkpoint(s.0) == spec_checkpoint(m)
                &&& checkpoint_wf(m) ==> checkpoint_wf(s.0)
                &&& forall|x: Seq<u8>|
                    #[trigger] m.contains_key(x) && x.len() == 20 ==> s.0.contains_key(x)
                        && s.0[x] == m[x]
            },
            None => true,
        },
    decreases ts.len(),
{
    reveal(spec_ingest);
    if ts.len() > 0 {
        let prefix = ts.drop_last();
        assert forall|l: int| 0 <= l < prefix.len() implies (#[trigger] prefix[l]).0.len() == 20
            && prefix[l].1.len() == 20 by {
            assert(prefix[l] == ts[l]);
        };
        lemma_ingest_state(m, u, off, prefix);
        match spec_ingest(m, u, off, prefix) {
            None => {},
            Some(mid) => {
                lemma_ingest_one_state(mid.0, mid.1, mid.2, ts.last());
                match spec_ingest_one(mid.0, mid.1, mid.2, ts.last()) {
                    None => {},
                    Some(fin) => {
                        assert forall|x: Seq<u8>|
                            #[trigger] m.contains_key(x) && x.len() == 20 implies fin.0.contains_key(
                                x,
                            ) && fin.0[x] == m[x] by {
                            assert(mid.0.contains_key(x) && mid.0[x] == m[x]);
                            assert(fin.0.contains_key(x) && fin.0[x] == mid.0[x]);
                        };
                    },
                }
            },
        }
    }
}

/// A step that fits on the end of a folded prefix extends the fold.
proof fn lemma_ingest_extend(
    m: Map<Seq<u8>, Seq<u8>>,
    u: Map<Seq<u8>, Seq<u8>>,
    off: u32,
    ts: Seq<(Seq<u8>, Seq<u8>, u32)>,
    j: int,
)
    requires
        0 <= j < ts.len(),
    ensures
        spec_ingest(m, u, off, ts.take(j + 1)) == (match spec_ingest(m, u, off, ts.take(j)) {
            None => None,
            Some(s) => spec_ingest_one(s.0, s.1, s.2, ts[j]),
        }),
{
    reveal(spec_ingest);
    assert(ts.take(j + 1).drop_last() =~= ts.take(j));
    assert(ts.take(j + 1).last() == ts[j]);
}

/// A prefix on which the fold dies dooms the whole batch.
proof fn lemma_ingest_none_extends(
    m: Map<Seq<u8>, Seq<u8>>,
    u: Map<Seq<u8>, Seq<u8>>,
    off: u32,
    ts: Seq<(Seq<u8>, Seq<u8>, u32)>,
    j: int,
)
    requires
        0 <= j < ts.len(),
        (match spec_ingest(m, u, off, ts.take(j)) {
            None => true,
            Some(s) => spec_ingest_one(s.0, s.1, s.2, ts[j]) is None,
        }),
    ensures
        spec_ingest(m, u, off, ts) is None,
    decreases ts.len() - j,
{
    reveal(spec_ingest);
    lemma_ingest_extend(m, u, off, ts, j);
    if j == ts.len() - 1 {
        assert(ts.take(j + 1) =~= ts);
    } else {
        lemma_ingest_none_extends(m, u, off, ts, j + 1);
    }
}

/// A batch whose prefix decodes but whose next edge is malformed fails to
/// decode as a whole.
proof fn lemma_decode_terms_step_none(terms: Seq<TermObject>, i: int)
    requires
        0 <= i < terms.len(),
        spec_decode_terms(terms.take(i)) is Some,
        spec_term_triple(terms[i]) is None,
    ensures
        spec_decode_terms(terms) is None,
    decreases terms.len() - i,
{
    reveal(spec_decode_terms);
    if i == terms.len() - 1 {
        assert(terms.take(terms.len() as int) =~= terms);
        assert(terms.drop_last() =~= terms.take(i));
    } else {
        let prefix = terms.take(i + 1);
        assert(prefix.drop_last() =~= terms.take(i));
        assert(prefix.last() == terms[i]);
        assert(spec_decode_terms(prefix) is None);
        lemma_decode_none_extends(terms, i + 1);
    }
}

/// A prefix that fails to decode dooms the whole batch.
proof fn lemma_decode_none_extends(terms: Seq<TermObject>, i: int)
    requires
        0 <= i <= terms.len(),
        spec_decode_terms(terms.take(i)) is None,
    ensures
        spec_decode_terms(terms) is None,
    decreases terms.len() - i,
{
    reveal(spec_decode_terms);
    if i == terms.len() {
        assert(terms.take(i) =~= terms);
    } else {
        let prefix = terms.take(i + 1);
        assert(prefix.drop_last() =~= terms.take(i));
        lemma_decode_none_extends(terms, i + 1);
    }
}

/// The aggregate total the matrix holds for the directed pair `(a, b)`,
/// read through the index table: 0 while either address is unassigned or
/// the pair was never touched.
pub open spec fn spec_pair_value(m: Map<Seq<u8>, Seq<u8>>, a: Seq<u8>, b: Seq<u8>) -> int {
    if m.contains_key(a) && m.contains_key(b) {
        spec_value_at(m, m[a] + m[b]) as int
    } else {
        0
    }
}

/// The total weight a batch carries for the directed pair `(a, b)`.
pub open spec fn spec_weight_sum(ts: Seq<(Seq<u8>, Seq<u8>, u32)>, a: Seq<u8>, b: Seq<u8>) -> int
    decreases ts.len(),
{
    if ts.len() == 0 {
        0
    } else {
        spec_weight_sum(ts.drop_last(), a, b) + if ts.last().0 == a && ts.last().1 == b {
            ts.last().2 as int
        } else {
            0
        }
    }
}

/// Index assignment is idempotent: once an address has its index, assigning
/// it again returns the same index and moves neither the table nor the
/// counter.
pub proof fn lemma_index_assignment_idempotent(m: Map<Seq<u8>, Seq<u8>>, off: u32, a: Seq<u8>)
    ensures
        match spec_assign(m, off, a) {
            Some(s) => spec_assign(s.1, s.2, a) == Some((s.0, s.1, s.2)),
            None => true,
        },
{
}

/// Two composite keys agree exactly when both 4-byte halves agree.
proof fn lemma_pair_key_halves(x1: Seq<u8>, y1: Seq<u8>, x2: Seq<u8>, y2: Seq<u8>)
    requires
        x1.len() == 4,
        y1.len() == 4,
        x2.len() == 4,
        y2.len() == 4,
        x1 + y1 == x2 + y2,
    ensures
        x1 == x2,
        y1 == y2,
{
    assert(x1 =~= (x1 + y1).take(4));
    assert(x2 =~= (x2 + y2).take(4));
    assert(y1 =~= (x1 + y1).skip(4));
    assert(y2 =~= (x2 + y2).skip(4));
}

/// The triplet one stored matrix cell decodes to: its two indices and the
/// accumulated total.
pub open spec fn spec_triplet_of(m: Map<Seq<u8>, Seq<u8>>, k: Seq<u8>) -> LtObject {
    LtObject {
        x: spec_u32_from_be(k.take(4)),
        y: spec_u32_from_be(k.skip(4)),
        value: spec_u32_from_be(m[k]),
    }
}

/// A triplet faithfully reports one stored matrix cell: some live 8-byte
/// composite key decodes to it.
pub open spec fn spec_triplet_ok(m: Map<Seq<u8>, Seq<u8>>, o: LtObject) -> bool {
    exists|k: Seq<u8>|
        #![auto]
        m.contains_key(k) && k.len() == 8 && o == spec_triplet_of(m, k)
}

/// Some listed triplet is the one this cell decodes to.
pub open spec fn spec_dump_covers(rs: Seq<LtObject>, o: LtObject) -> bool {
    exists|j: int| 0 <= j < rs.len() && rs[j] == o
}

/// Two distinct stored cells decode to distinct triplets.
proof fn lemma_triplet_of_injective(m: Map<Seq<u8>, Seq<u8>>, k1: Seq<u8>, k2: Seq<u8>)
    requires
        k1.len() == 8,
        k2.len() == 8,
        spec_triplet_of(m, k1) == spec_triplet_of(m, k2),
    ensures
        k1 == k2,
{
    crate::bytes::lemma_u32_be_left_inverse(k1.take(4));
    crate::bytes::lemma_u32_be_left_inverse(k2.take(4));
    crate::bytes::lemma_u32_be_left_inverse(k1.skip(4));
    crate::bytes::lemma_u32_be_left_inverse(k2.skip(4));
    assert(k1 =~= k1.take(4) + k1.skip(4));
    assert(k2 =~= k2.take(4) + k2.skip(4));
}

/// Assigning an index moves no 8-byte composite key's total.
proof fn lemma_assign_keeps_value8(m: Map<Seq<u8>, Seq<u8>>, off: u32, addr: Seq<u8>, kk: Seq<u8>)
    requires
        combiner_inv(m, off),
        addr.len() == 20,
        kk.len() == 8,
    ensures
        match spec_assign(m, off, addr) {
            Some(s) => spec_value_at(s.1, kk) == spec_value_at(m, kk),
            None => true,
        },
{
    lemma_assign_state(m, off, addr);
    match spec_assign(m, off, addr) {
        Some(s) => {
            if m.contains_key(kk) {
                assert(s.1.contains_key(kk) && s.1[kk] == m[kk]);
            } else if s.1.contains_key(kk) {
                assert(m.contains_key(kk));
            }
        },
        None => {},
    }
}

/// One folded edge adds its weight (modulo 2^32) to its own pair's total.
#[verifier::rlimit(100)]
proof fn lemma_ingest_one_pair_hit(
    m: Map<Seq<u8>, Seq<u8>>,
    u: Map<Seq<u8>, Seq<u8>>,
    off: u32,
    t: (Seq<u8>, Seq<u8>, u32),
    a: Seq<u8>,
    b: Seq<u8>,
)
    requires
        combiner_inv(m, off),
        t.0.len() == 20,
        t.1.len() == 20,
        a.len() == 20,
        b.len() == 20,
        t.0 == a,
        t.1 == b,
    ensures
        match spec_ingest_one(m, u, off, t) {
            Some(s) => spec_pair_value(s.0, a, b) == (spec_pair_value(m, a, b) + t.2)
                % 0x1_0000_0000,
            None => true,
        },
{
    reveal(spec_ingest_one);
    match spec_assign(m, off, t.0) {
        None => {},
        Some((x, m1, o1)) => {
            lemma_assign_state(m, off, t.0);
            match spec_assign(m1, o1, t.1) {
                None => {},
                Some((y, m2, o2)) => {
                    lemma_assign_state(m1, o1, t.1);
                    let k = x + y;
                    let nv = ((spec_value_at(m2, k) + t.2) % 0x1_0000_0000) as u32;
                    let m3 = m2.insert(k, spec_u32_to_be(nv));
                    assert(k.len() == 8);
                    assert(k.take(4) =~= x);
                    assert(k.skip(4) =~= y);
                    lemma_u32_be_roundtrip(nv);
                    assert(spec_value_at(m3, k) == nv);
                    assert(m2.contains_key(t.0) && m2[t.0] == x);
                    assert(m2.contains_key(t.1) && m2[t.1] == y);
                    lemma_assign_keeps_value8(m, off, t.0, k);
                    lemma_assign_keeps_value8(m1, o1, t.1, k);
                    assert(spec_value_at(m2, k) == spec_value_at(m, k));
                    if !m.contains_key(t.0) {
                        lemma_u32_be_roundtrip(off);
                        assert(spec_u32_from_be(x) == off);
                    }
                    if !m1.contains_key(t.1) {
                        lemma_u32_be_roundtrip(o1);
                        assert(spec_u32_from_be(y) == o1);
                    }
                    assert(m3.contains_key(a) && m3[a] == x);
                    assert(m3.contains_key(b) && m3[b] == y);
                    assert(m3[a] + m3[b] =~= k);
                    if m.contains_key(a) && m.contains_key(b) {
                        assert(x == m[a] && y == m[b]);
                        assert(m[a] + m[b] =~= k);
                        assert(spec_pair_value(m, a, b) == spec_value_at(m, k));
                    } else {
                        if m.contains_key(k) {
                            lemma_inv_pair_bound(m, off, k);
                            if !m.contains_key(a) {
                                assert(spec_u32_from_be(x) >= off);
                            } else {
                                assert(x == m[a]);
                                assert(!m.contains_key(b));
                                assert(spec_u32_from_be(y) >= off);
                            }
                            assert(false);
                        }
                        assert(spec_value_at(m, k) == 0);
                        assert(spec_pair_value(m, a, b) == 0);
                    }
                },
            }
        },
    }
}

/// One folded edge leaves every other pair's total alone.
#[verifier::rlimit(100)]
proof fn lemma_ingest_one_pair_miss(
    m: Map<Seq<u8>, Seq<u8>>,
    u: Map<Seq<u8>, Seq<u8>>,
    off: u32,
    t: (Seq<u8>, Seq<u8>, u32),
    a: Seq<u8>,
    b: Seq<u8>,
)
    requires
        combiner_inv(m, off),
        t.0.len() == 20,
        t.1.len() == 20,
        a.len() == 20,
        b.len() == 20,
        !(t.0 == a && t.1 == b),
    ensures
        match spec_ingest_one(m, u, off, t) {
            Some(s) => spec_pair_value(s.0, a, b) == spec_pair_value(m, a, b),
            None => true,
        },
{
    reveal(spec_ingest_one);
    match spec_assign(m, off, t.0) {
        None => {},
        Some((x, m1, o1)) => {
            lemma_assign_state(m, off, t.0);
            match spec_assign(m1, o1, t.1) {
                None => {},
                Some((y, m2, o2)) => {
                    lemma_assign_state(m1, o1, t.1);
                    let k = x + y;
                    let nv = ((spec_value_at(m2, k) + t.2) % 0x1_0000_0000) as u32;
                    let m3 = m2.insert(k, spec_u32_to_be(nv));
                    assert(k.len() == 8);
                    assert(k.take(4) =~= x);
                    assert(k.skip(4) =~= y);
                    lemma_u32_be_roundtrip(nv);
                    assert(spec_value_at(m3, k) == nv);
                    assert(m2.contains_key(t.0) && m2[t.0] == x);
                    assert(m2.contains_key(t.1) && m2[t.1] == y);
                    lemma_assign_keeps_value8(m, off, t.0, k);
                    lemma_assign_keeps_value8(m1, o1, t.1, k);
                    assert(spec_value_at(m2, k) == spec_value_at(m, k));
                    if !m.contains_key(t.0) {
                        lemma_u32_be_roundtrip(off);
                        assert(spec_u32_from_be(x) == off);
                    }
                    if !m1.contains_key(t.1) {
                        lemma_u32_be_roundtrip(o1);
                        assert(spec_u32_from_be(y) == o1);
                    }
                    if m3.contains_key(a) && m3.contains_key(b) {
                        let kab = m3[a] + m3[b];
                        assert(m2.contains_key(a) && m2.contains_key(b));
                        assert(m2[a] == m3[a] && m2[b] == m3[b]);
                        lemma_inv_index_bound(m2, o2, a);
                        lemma_inv_index_bound(m2, o2, b);
                        assert(kab.len() == 8);
                        if kab == k {
                            lemma_pair_key_halves(m3[a], m3[b], x, y);
                            assert(m2[a] == x && m2[b] == y);
                            lemma_inv_injective(m2, o2, a, t.0);
                            lemma_inv_injective(m2, o2, b, t.1);
                            assert(t.0 == a && t.1 == b);
                        }
                        assert(kab != k);
                        assert(spec_value_at(m3, kab) == spec_value_at(m2, kab));
                        lemma_assign_keeps_value8(m, off, t.0, kab);
                        lemma_assign_keeps_value8(m1, o1, t.1, kab);
                        assert(spec_value_at(m2, kab) == spec_value_at(m, kab));
                        if m.contains_key(a) && m.contains_key(b) {
                            assert(m[a] == m3[a] && m[b] == m3[b]);
                            assert(spec_pair_value(m3, a, b) == spec_value_at(m, kab));
                            assert(spec_pair_value(m, a, b) == spec_value_at(m, kab));
                        } else {
                            assert(kab.take(4) =~= m3[a]);
                            assert(kab.skip(4) =~= m3[b]);
                            if m.contains_key(kab) {
                                lemma_inv_pair_bound(m, off, kab);
                                if !m.contains_key(a) {
                                    assert(a == t.0 || a == t.1);
                                    assert(spec_u32_from_be(m3[a]) >= off);
                                } else {
                                    assert(!m.contains_key(b));
                                    assert(b == t.0 || b == t.1);
                                    assert(spec_u32_from_be(m3[b]) >= off);
                                }
                                assert(false);
                            }
                            assert(spec_value_at(m, kab) == 0);
                            assert(spec_pair_value(m, a, b) == 0);
                        }
                    } else {
                        assert(spec_pair_value(m3, a, b) == 0);
                        assert(!(m.contains_key(a) && m.contains_key(b)));
                        assert(spec_pair_value(m, a, b) == 0);
                    }
                },
            }
        },
    }
}

/// One folded edge adds its weight (modulo 2^32) to exactly its own pair
/// and leaves every other pair's total alone.
proof fn lemma_ingest_one_pair(
    m: Map<Seq<u8>, Seq<u8>>,
    u: Map<Seq<u8>, Seq<u8>>,
    off: u32,
    t: (Seq<u8>, Seq<u8>, u32),
    a: Seq<u8>,
    b: Seq<u8>,
)
    requires
        combiner_inv(m, off),
        t.0.len() == 20,
        t.1.len() == 20,
        a.len() == 20,
        b.len() == 20,
    ensures
        match spec_ingest_one(m, u, off, t) {
            Some(s) => spec_pair_value(s.0, a, b) == if t.0 == a && t.1 == b {
                (spec_pair_value(m, a, b) + t.2) % 0x1_0000_0000
            } else {
                spec_pair_value(m, a, b)
            },
            None => true,
        },
{
    if t.0 == a && t.1 == b {
        lemma_ingest_one_pair_hit(m, u, off, t, a, b);
    } else {
        lemma_ingest_one_pair_miss(m, u, off, t, a, b);
    }
}

/// Adding below the modulus commutes with reduction.
proof fn lemma_mod_add_step(p: int, w: int)
    requires
        0 <= w < 0x1_0000_0000,
    ensures
        (p % 0x1_0000_0000 + w) % 0x1_0000_0000 == (p + w) % 0x1_0000_0000,
{
    vstd::arithmetic::div_mod::lemma_add_mod_noop(p, w, 0x1_0000_0000);
    vstd::arithmetic::div_mod::lemma_small_mod(w as nat, 0x1_0000_0000);
}

/// A folded batch adds each pair's total batch weight (modulo 2^32) to the
/// matrix, read through the final index table.
#[verifier::rlimit(100)]
#[verifier::spinoff_prover]
pub proof fn lemma_ingest_pair_value(
    m: Map<Seq<u8>, Seq<u8>>,
    u: Map<Seq<u8>, Seq<u8>>,
    off: u32,
    ts: Seq<(Seq<u8>, Seq<u8>, u32)>,
    a: Seq<u8>,
    b: Seq<u8>,
)
    requires
        combiner_inv(m, off),
        forall|l: int| 0 <= l < ts.len() ==> (#[trigger] ts[l]).0.len() == 20 && ts[l].1.len()
            == 20,
        a.len() == 20,
        b.len() == 20,
    ensures
        match spec_ingest(m, u, off, ts) {
            Some(s) => spec_pair_value(s.0, a, b) == (spec_pair_value(m, a, b) + spec_weight_sum(
                ts,
                a,
                b,
            )) % 0x1_0000_0000,
            None => true,
        },
    decreases ts.len(),
{
    reveal(spec_ingest);
    if ts.len() == 0 {
        match spec_ingest(m, u, off, ts) {
            Some(s) => {
                vstd::arithmetic::div_mod::lemma_small_mod(
                    spec_pair_value(m, a, b) as nat,
                    0x1_0000_0000,
                );
            },
            None => {},
        }
    } else {
        let prefix = ts.drop_last();
        assert forall|l: int| 0 <= l < prefix.len() implies (#[trigger] prefix[l]).0.len() == 20
            && prefix[l].1.len() == 20 by {
            assert(prefix[l] == ts[l]);
        };
        lemma_ingest_pair_value(m, u, off, prefix, a, b);
        lemma_ingest_state(m, u, off, prefix);
        match spec_ingest(m, u, off, prefix) {
            None => {},
            Some(mid) => {
                lemma_ingest_one_pair(mid.0, mid.1, mid.2, ts.last(), a, b);
                match spec_ingest_one(mid.0, mid.1, mid.2, ts.last()) {
                    None => {},
                    Some(fin) => {
                        let pv0 = spec_pair_value(m, a, b);
                        let ws = spec_weight_sum(prefix, a, b);
                        let t = ts.last();
                        if t.0 == a && t.1 == b {
                            assert(spec_pair_value(fin.0, a, b) == ((pv0 + ws) % 0x1_0000_0000
                                + t.2) % 0x1_0000_0000);
                            lemma_mod_add_step(pv0 + ws, t.2 as int);
                        }
                    },
                }
            },
        }
    }
}

/// The weight a batch carries for a pair does not depend on arrival order:
/// removing one occurrence removes exactly its contribution.
proof fn lemma_weight_sum_remove(
    ts: Seq<(Seq<u8>, Seq<u8>, u32)>,
    i: int,
    a: Seq<u8>,
    b: Seq<u8>,
)
    requires
        0 <= i < ts.len(),
    ensures
        spec_weight_sum(ts, a, b) == spec_weight_sum(ts.remove(i), a, b) + (
        if ts[i].0 == a && ts[i].1 == b {
            ts[i].2 as int
        } else {
            0
        }),
    decreases ts.len(),
{
    if i == ts.len() - 1 {
        assert(ts.remove(i) =~= ts.drop_last());
    } else {
        assert(ts.remove(i).drop_last() =~= ts.drop_last().remove(i));
        assert(ts.remove(i).last() == ts.last());
        lemma_weight_sum_remove(ts.drop_last(), i, a, b);
    }
}

/// Two batches with the same multiset of edges carry the same total weight
/// for every pair.
pub proof fn lemma_weight_sum_permutation(
    ts1: Seq<(Seq<u8>, Seq<u8>, u32)>,
    ts2: Seq<(Seq<u8>, Seq<u8>, u32)>,
    a: Seq<u8>,
    b: Seq<u8>,
)
    requires
        ts1.to_multiset() == ts2.to_multiset(),
    ensures
        spec_weight_sum(ts1, a, b) == spec_weight_sum(ts2, a, b),
    decreases ts1.len(),
{
    broadcast use vstd::seq_lib::group_to_multiset_ensures;

    if ts1.len() == 0 {
        assert(ts2.to_multiset().len() == 0);
        assert(ts2.len() == 0);
    } else {
        let t = ts1.last();
        assert(ts1.contains(t));
        assert(ts1.to_multiset().count(t) > 0);
        assert(ts2.to_multiset().count(t) > 0);
        assert(ts2.contains(t));
        let i = choose|i: int| 0 <= i < ts2.len() && ts2[i] == t;
        assert(ts1.remove(ts1.len() - 1) =~= ts1.drop_last());
        assert(ts1.drop_last().to_multiset() =~= ts1.to_multiset().remove(t));
        assert(ts2.remove(i).to_multiset() =~= ts2.to_multiset().remove(t));
        lemma_weight_sum_permutation(ts1.drop_last(), ts2.remove(i), a, b);
        lemma_weight_sum_remove(ts2, i, a, b);
    }
}

/// Aggregation is insensitive to arrival order: two batches carrying the
/// same multiset of edges, folded from the same state, leave the same
/// accumulated total for every directed address pair.
pub proof fn lemma_aggregation_order_insensitive(
    m: Map<Seq<u8>, Seq<u8>>,
    u: Map<Seq<u8>, Seq<u8>>,
    off: u32,
    ts1: Seq<(Seq<u8>, Seq<u8>, u32)>,
    ts2: Seq<(Seq<u8>, Seq<u8>, u32)>,
    a: Seq<u8>,
    b: Seq<u8>,
)
    requires
        combiner_inv(m, off),
        forall|l: int| 0 <= l < ts1.len() ==> (#[trigger] ts1[l]).0.len() == 20 && ts1[l].1.len()
            == 20,
        forall|l: int| 0 <= l < ts2.len() ==> (#[trigger] ts2[l]).0.len() == 20 && ts2[l].1.len()
            == 20,
        a.len() == 20,
        b.len() == 20,
        ts1.to_multiset() == ts2.to_multiset(),
    ensures
        match (spec_ingest(m, u, off, ts1), spec_ingest(m, u, off, ts2)) {
            (Some(s1), Some(s2)) => spec_pair_value(s1.0, a, b) == spec_pair_value(s2.0, a, b),
            _ => true,
        },
{
    lemma_ingest_pair_value(m, u, off, ts1, a, b);
    lemma_ingest_pair_value(m, u, off, ts2, a, b);
    lemma_weight_sum_permutation(ts1, ts2, a, b);
}

} // verus!
