//! The attestation transformer: checkpointed ingestion from the indexer and
//! bounded-range serving of derived Terms.
//!
//! Events arrive with strictly sequential ids starting at the persisted
//! checkpoint.  Every event of a batch must parse and verify; the derived
//! Terms are then written in one batch keyed by their sequential id, and the
//! checkpoint advances to the new count.  A failing batch leaves the store
//! untouched.

use vstd::prelude::*;

use crate::bytes::{lemma_u32_be_roundtrip, spec_u32_to_be, u32_to_be};
use crate::crypto::{spec_address_of, spec_recover_key, spec_sig_valid};
use crate::errors::TrustError;
use crate::schemas::approve::AuditApproveSchema;
use crate::schemas::disapprove::AuditDisapproveSchema;
use crate::schemas::follow::{spec_follow_digest, spec_parse_follow, FollowSchema};
use crate::schemas::status::EndorseCredential;
use crate::schemas::{spec_parse_plain, spec_tagged_digest, SchemaType};
use crate::store::{checkpoint_key, checkpoint_wf, read_checkpoint, spec_checkpoint,
    spec_checkpoint_key, write_checkpoint, Store};
use crate::term::{spec_term_decode, spec_term_encode, Term};

verus! {

/// One event of the indexer's log.
pub struct IndexerEvent {
    pub id: u32,
    pub schema_id: u32,
    pub schema_value: Vec<u8>,
    pub timestamp: u64,
}

/// A bounded range request: sequential ids `[start, start + size)`.
#[derive(Clone, Copy, Debug, PartialEq, Eq, Structural)]
pub struct TermBatch {
    pub start: u32,
    pub size: u32,
}

/// The largest batch `term_stream` serves.
pub const MAX_TERM_BATCH_SIZE: u32 = 1000;

/// The error deriving a Term from a raw event yields, if any: unknown schema
/// ids are rejected outright, then the record must parse canonically, then
/// the signature must recover and verify.
pub open spec fn spec_event_err(schema_id: u32, v: Seq<u8>) -> Option<TrustError> {
    if schema_id == 1 {
        match spec_parse_follow(v) {
            None => Some(TrustError::ParseError),
            Some(f) => {
                let d = spec_follow_digest(f.0, f.1, f.2);
                match spec_recover_key(d, f.3, f.4, f.5) {
                    None => Some(TrustError::VerificationError),
                    Some(pk) => if spec_sig_valid(d, f.3, f.4, f.5, pk) {
                        None
                    } else {
                        Some(TrustError::VerificationError)
                    },
                }
            },
        }
    } else if schema_id == 2 || schema_id == 3 || schema_id == 4 {
        match spec_parse_plain(v) {
            None => Some(TrustError::ParseError),
            Some(p) => {
                let d = spec_tagged_digest(p.0, schema_id as u8);
                match spec_recover_key(d, p.1, p.2, p.3) {
                    None => Some(TrustError::VerificationError),
                    Some(pk) => if spec_sig_valid(d, p.1, p.2, p.3, pk) {
                        None
                    } else {
                        Some(TrustError::VerificationError)
                    },
                }
            },
        }
    } else {
        Some(TrustError::UnsupportedSchema)
    }
}

/// The fields of the Term a successfully derived event stands for: `from`
/// is the address of the recovered signer, `to` the subject key, the weight
/// is the fixed per-domain constant, the domain is the schema's tag, and the
/// polarity is negative only for an audit disapproval.
pub open spec fn spec_term_fields_ok(
    t: (Seq<u8>, Seq<u8>, u32, u32, bool),
    schema_id: u32,
    v: Seq<u8>,
) -> bool {
    if schema_id == 1 {
        match spec_parse_follow(v) {
            None => false,
            Some(f) => {
                let d = spec_follow_digest(f.0, f.1, f.2);
                match spec_recover_key(d, f.3, f.4, f.5) {
                    None => false,
                    Some(pk) => {
                        &&& spec_sig_valid(d, f.3, f.4, f.5, pk)
                        &&& t.0 == spec_address_of(pk)
                        &&& t.1 == f.0
                        &&& t.2 == 50
                        &&& t.3 == 1
                        &&& t.4 == true
                    },
                }
            },
        }
    } else if schema_id == 2 || schema_id == 3 || schema_id == 4 {
        match spec_parse_plain(v) {
            None => false,
            Some(p) => {
                let d = spec_tagged_digest(p.0, schema_id as u8);
                match spec_recover_key(d, p.1, p.2, p.3) {
                    None => false,
                    Some(pk) => {
                        &&& spec_sig_valid(d, p.1, p.2, p.3, pk)
                        &&& t.0 == spec_address_of(pk)
                        &&& t.1 == p.0
                        &&& t.2 == 50
                        &&& t.3 == schema_id
                        &&& t.4 == (schema_id != 3)
                    },
                }
            },
        }
    } else {
        false
    }
}

/// The id-keyed store entries a list of derived Terms becomes.
pub open spec fn spec_term_entries(terms: Seq<(u32, Term)>) -> Seq<(Seq<u8>, Seq<u8>)> {
    terms.map_values(
        |p: (u32, Term)|
            (
                spec_u32_to_be(p.0),
                spec_term_encode(p.1.from@, p.1.to@, p.1.weight, p.1.domain, p.1.positive),
            ),
    )
}

/// Position `j` of a served batch holds a well-formed Term decoded from the
/// record stored under id `start + j`.
pub open spec fn spec_term_at(m: Map<Seq<u8>, Seq<u8>>, start: u32, j: int, t: Term) -> bool {
    &&& t.wf()
    &&& m.contains_key(spec_u32_to_be((start + j) as u32))
    &&& spec_term_decode(m[spec_u32_to_be((start + j) as u32)]) == Some(
        (t.from@, t.to@, t.weight, t.domain, t.positive),
    )
}

/// The first failure a Term read over `[start, start + n)` runs into, if
/// any: a missing id is a [`TrustError::NotFoundError`], an undecodable
/// record a [`TrustError::ParseError`].
pub open spec fn spec_read_outcome(m: Map<Seq<u8>, Seq<u8>>, start: int, n: int) -> Option<
    TrustError,
>
    decreases n,
{
    if n <= 0 {
        None
    } else if start > u32::MAX {
        Some(TrustError::NotFoundError)
    } else if !m.contains_key(spec_u32_to_be(start as u32)) {
        Some(TrustError::NotFoundError)
    } else if spec_term_decode(m[spec_u32_to_be(start as u32)]) is None {
        Some(TrustError::ParseError)
    } else {
        spec_read_outcome(m, start + 1, n - 1)
    }
}

/// The first failure a batch of indexer events runs into, if any: an id off
/// the running counter is a [`TrustError::SequenceGapError`]; a bad event
/// fails as [`spec_event_err`] says.
pub open spec fn spec_events_outcome(events: Seq<IndexerEvent>, start: int) -> Option<TrustError>
    decreases events.len(),
{
    if events.len() == 0 {
        None
    } else if start > u32::MAX || events[0].id != start {
        Some(TrustError::SequenceGapError)
    } else {
        match spec_event_err(events[0].schema_id, events[0].schema_value@) {
            Some(e) => Some(e),
            None => spec_events_outcome(events.drop_first(), start + 1),
        }
    }
}

/// Looking a key up after a batch write finds the batch's last entry for it.
proof fn lemma_batch_lookup(m: Map<Seq<u8>, Seq<u8>>, es: Seq<(Seq<u8>, Seq<u8>)>, j: int)
    requires
        0 <= j < es.len(),
        forall|l: int| j < l < es.len() ==> es[l].0 != es[j].0,
    ensures
        crate::store::batch_inserted(m, es).contains_key(es[j].0),
        crate::store::batch_inserted(m, es)[es[j].0] == es[j].1,
    decreases es.len(),
{
    if j == es.len() - 1 {
    } else {
        lemma_batch_lookup(m, es.drop_last(), j);
    }
}

/// The transformer service over its store.
pub struct TransformerService {
    pub store: Store,
}

impl TransformerService {
    /// Open the service over a fresh store; the checkpoint starts at 0.
    pub fn new() -> (r: Result<TransformerService, TrustError>)
        ensures
            match r {
                Ok(t) => checkpoint_wf(t.store.contents()) && spec_checkpoint(t.store.contents())
                    == 0,
                Err(_) => false,
            },
    {
        let mut store = Store::new();
        let _ = write_checkpoint(&mut store, 0);
        Ok(TransformerService { store })
    }

    /// Read the last processed sequential id.
    pub fn read_checkpoint(db: &Store) -> (r: Result<u32, TrustError>)
        ensures
            checkpoint_wf(db.contents()) ==> r == Ok::<u32, TrustError>(
                spec_checkpoint(db.contents()),
            ),
            !checkpoint_wf(db.contents()) ==> r == Err::<u32, TrustError>(TrustError::StorageError),
    {
        read_checkpoint(db)
    }

    /// Persist the processed count.
    pub fn write_checkpoint(db: &mut Store, count: u32) -> (r: Result<(), TrustError>)
        ensures
            r is Ok,
            final(db).contents() == old(db).contents().insert(
                spec_checkpoint_key(),
                spec_u32_to_be(count),
            ),
    {
        write_checkpoint(db, count)
    }

    /// Derive `(event id, Term)` from one raw event, by schema dispatch.
    pub fn parse_event(event: &IndexerEvent) -> (r: Result<(u32, Term), TrustError>)
        ensures
            match r {
                Ok(p) => {
                    &&& spec_event_err(event.schema_id, event.schema_value@) is None
                    &&& p.0 == event.id
                    &&& p.1.wf()
                    &&& spec_term_fields_ok(
                        (p.1.from@, p.1.to@, p.1.weight, p.1.domain, p.1.positive),
                        event.schema_id,
                        event.schema_value@,
                    )
                },
                Err(e) => spec_event_err(event.schema_id, event.schema_value@) == Some(e),
            },
    {
        let schema_type = match SchemaType::from_id(event.schema_id) {
            Ok(t) => t,
            Err(e) => {
                return Err(e);
            },
        };
        let term = match schema_type {
            SchemaType::Follow => {
                let parsed = match FollowSchema::parse(&event.schema_value) {
                    Ok(p) => p,
                    Err(e) => {
                        return Err(e);
                    },
                };
                match parsed.into_term() {
                    Ok(t) => t,
                    Err(e) => {
                        return Err(e);
                    },
                }
            },
            SchemaType::AuditApprove => {
                let parsed = match AuditApproveSchema::parse(&event.schema_value) {
                    Ok(p) => p,
                    Err(e) => {
                        return Err(e);
                    },
                };
                match parsed.into_term() {
                    Ok(t) => t,
                    Err(e) => {
                        return Err(e);
                    },
                }
            },
            SchemaType::AuditDisapprove => {
                let parsed = match AuditDisapproveSchema::parse(&event.schema_value) {
                    Ok(p) => p,
                    Err(e) => {
                        return Err(e);
                    },
                };
                match parsed.into_term() {
                    Ok(t) => t,
                    Err(e) => {
                        return Err(e);
                    },
                }
            },
            SchemaType::EndorseCredential => {
                let parsed = match EndorseCredential::parse(&event.schema_value) {
                    Ok(p) => p,
                    Err(e) => {
                        return Err(e);
                    },
                };
                match parsed.into_term() {
                    Ok(t) => t,
                    Err(e) => {
                        return Err(e);
                    },
                }
            },
        };
        Ok((event.id, term))
    }

    /// Write derived Terms in one batch, keyed by their big-endian ids.
    pub fn write_terms(db: &mut Store, terms: &Vec<(u32, Term)>) -> (r: Result<(), TrustError>)
        requires
            forall|j: int| 0 <= j < terms@.len() ==> (#[trigger] terms@[j].1).wf(),
        ensures
            r is Ok,
            final(db).contents() == crate::store::batch_inserted(
                old(db).contents(),
                spec_term_entries(terms@),
            ),
    {
        let batch = Self::term_entries(terms);
        db.write_batch(batch);
        Ok(())
    }

    /// The id-keyed batch entries of a list of derived Terms.
    pub fn term_entries(terms: &Vec<(u32, Term)>) -> (batch: Vec<(Vec<u8>, Vec<u8>)>)
        requires
            forall|j: int| 0 <= j < terms@.len() ==> (#[trigger] terms@[j].1).wf(),
        ensures
            batch@.map_values(|p: (Vec<u8>, Vec<u8>)| (p.0@, p.1@)) == spec_term_entries(terms@),
    {
        let mut batch: Vec<(Vec<u8>, Vec<u8>)> = Vec::new();
        let mut i: usize = 0;
        while i < terms.len()
            invariant
                i <= terms@.len(),
                batch@.len() == i,
                forall|j: int| 0 <= j < terms@.len() ==> (#[trigger] terms@[j].1).wf(),
                batch@.map_values(|p: (Vec<u8>, Vec<u8>)| (p.0@, p.1@)) == spec_term_entries(
                    terms@.take(i as int),
                ),
            decreases terms@.len() - i,
        {
            let id_bytes = u32_to_be(terms[i].0);
            let term_bytes = terms[i].1.into_bytes();
            let ghost prev = batch@;
            batch.push((id_bytes, term_bytes));
            proof {
                assert(batch@[i as int].0@ == spec_u32_to_be(terms@[i as int].0));
                assert(batch@[i as int].1@ == spec_term_encode(
                    terms@[i as int].1.from@,
                    terms@[i as int].1.to@,
                    terms@[i as int].1.weight,
                    terms@[i as int].1.domain,
                    terms@[i as int].1.positive,
                ));
                let mapped = batch@.map_values(|p: (Vec<u8>, Vec<u8>)| (p.0@, p.1@));
                let target = spec_term_entries(terms@.take(i + 1 as int));
                assert forall|j: int| 0 <= j < i + 1 implies #[trigger] mapped[j] == target[j] by {
                    if j < i {
                        assert(batch@[j] == prev[j]);
                        assert(prev.map_values(|p: (Vec<u8>, Vec<u8>)| (p.0@, p.1@))[j]
                            == spec_term_entries(terms@.take(i as int))[j]);
                        assert(terms@.take(i as int)[j] == terms@.take(i + 1 as int)[j]);
                    }
                };
                assert(mapped =~= target);
            }
            i = i + 1;
        }
        proof {
            assert(terms@.take(terms@.len() as int) =~= terms@);
        }
        batch
    }

    /// Read the Terms for ids `[start, start + size)`; the range must be
    /// fully populated.
    pub fn read_terms(db: &Store, batch: TermBatch) -> (r: Result<Vec<Term>, TrustError>)
        ensures
            match r {
                Ok(v) => {
                    &&& spec_read_outcome(db.contents(), batch.start as int, batch.size as int)
                        is None
                    &&& v@.len() == batch.size
                    &&& forall|j: int|
                        0 <= j < batch.size ==> #[trigger] spec_term_at(
                            db.contents(),
                            batch.start,
                            j,
                            v@[j],
                        )
                },
                Err(e) => spec_read_outcome(db.contents(), batch.start as int, batch.size as int)
                    == Some(e),
            },
    {
        let ghost m = db.contents();
        let mut terms: Vec<Term> = Vec::new();
        let mut i: u32 = 0;
        while i < batch.size
            invariant
                i <= batch.size,
                terms@.len() == i,
                spec_read_outcome(m, batch.start as int, batch.size as int) == spec_read_outcome(
                    m,
                    batch.start + i,
                    batch.size - i,
                ),
                m == db.contents(),
                forall|j: int|
                    0 <= j < i ==> #[trigger] spec_term_at(m, batch.start, j, terms@[j]),
            decreases batch.size - i,
        {
            let id = match batch.start.checked_add(i) {
                Some(id) => id,
                None => {
                    return Err(TrustError::NotFoundError);
                },
            };
            let id_bytes = u32_to_be(id);
            let record = match db.get(&id_bytes) {
                Some(v) => v,
                None => {
                    return Err(TrustError::NotFoundError);
                },
            };
            let term = match Term::from_bytes(&record) {
                Ok(t) => t,
                Err(_) => {
                    return Err(TrustError::ParseError);
                },
            };
            terms.push(term);
            i = i + 1;
        }
        Ok(terms)
    }

    /// One sync invocation over an already-drained event batch: check the
    /// ids are gap-free from the checkpoint on, derive every Term, then
    /// commit the batch and the new checkpoint.  Any failure leaves the
    /// store exactly as it was.
    #[verifier::rlimit(100)]
    pub fn sync_events(&mut self, events: &Vec<IndexerEvent>) -> (r: Result<u32, TrustError>)
        ensures
            !checkpoint_wf(old(self).store.contents()) ==> r == Err::<u32, TrustError>(
                TrustError::StorageError,
            ) && final(self).store.contents() == old(self).store.contents(),
            checkpoint_wf(old(self).store.contents()) ==> match r {
                Ok(count) => {
                    let start = spec_checkpoint(old(self).store.contents()) as int;
                    &&& spec_events_outcome(events@, start) is None
                    &&& start + events@.len() <= u32::MAX
                    &&& count == start + events@.len()
                    &&& checkpoint_wf(final(self).store.contents())
                    &&& spec_checkpoint(final(self).store.contents()) == count
                    &&& forall|j: int|
                        0 <= j < events@.len() ==> final(self).store.contents().contains_key(
                            spec_u32_to_be((start + j) as u32),
                        ) && (spec_term_decode(
                            #[trigger] final(self).store.contents()[spec_u32_to_be(
                                (start + j) as u32,
                            )],
                        ) matches Some(t) && spec_term_fields_ok(
                            t,
                            events@[j].schema_id,
                            events@[j].schema_value@,
                        ))
                },
                Err(e) => {
                    let start = spec_checkpoint(old(self).store.contents()) as int;
                    &&& final(self).store.contents() == old(self).store.contents()
                    &&& match spec_events_outcome(events@, start) {
                        Some(e0) => e == e0,
                        None => e == TrustError::SequenceGapError && start + events@.len()
                            > u32::MAX,
                    }
                },
            },
    {
        let start = match read_checkpoint(&self.store) {
            Ok(c) => c,
            Err(e) => {
                return Err(e);
            },
        };
        let ghost start0 = start as int;
        proof {
            assert(events@.skip(0) =~= events@);
        }
        let mut terms: Vec<(u32, Term)> = Vec::new();
        let mut i: usize = 0;
        while i < events.len()
            invariant
                i <= events@.len(),
                terms@.len() == i,
                start0 == start as int,
                checkpoint_wf(old(self).store.contents()),
                start0 == spec_checkpoint(old(self).store.contents()) as int,
                self.store.contents() == old(self).store.contents(),
                spec_events_outcome(events@, start0) == spec_events_outcome(
                    events@.skip(i as int),
                    start0 + i,
                ),
                start0 + i <= u32::MAX + 1,
                forall|j: int|
                    0 <= j < i ==> (#[trigger] terms@[j]).0 == start0 + j && terms@[j].1.wf()
                        && spec_term_fields_ok(
                        (terms@[j].1.from@, terms@[j].1.to@, terms@[j].1.weight, terms@[j].1.domain,
                        terms@[j].1.positive),
                        events@[j].schema_id,
                        events@[j].schema_value@,
                    ),
            decreases events@.len() - i,
        {
            proof {
                assert(events@.skip(i as int)[0] == events@[i as int]);
            }
            let expected_wide = match u64::checked_add(start as u64, i as u64) {
                Some(v) => v,
                None => {
                    return Err(TrustError::SequenceGapError);
                },
            };
            if expected_wide > u32::MAX as u64 {
                proof {
                    assert(spec_events_outcome(events@.skip(i as int), start0 + i) == Some(
                        TrustError::SequenceGapError,
                    ));
                }
                return Err(TrustError::SequenceGapError);
            }
            let expected = expected_wide as u32;
            if events[i].id != expected {
                proof {
                    assert(events@.skip(i as int)[0].id != start0 + i);
                    assert(spec_events_outcome(events@.skip(i as int), start0 + i) == Some(
                        TrustError::SequenceGapError,
                    ));
                }
                return Err(TrustError::SequenceGapError);
            }
            let parsed = match Self::parse_event(&events[i]) {
                Ok(p) => p,
                Err(e) => {
                    proof {
                        assert(spec_event_err(
                            events@.skip(i as int)[0].schema_id,
                            events@.skip(i as int)[0].schema_value@,
                        ) == Some(e));
                        assert(spec_events_outcome(events@.skip(i as int), start0 + i) == Some(e));
                    }
                    return Err(e);
                },
            };
            proof {
                assert(events@.skip(i as int).drop_first() =~= events@.skip(i + 1 as int));
            }
            terms.push((expected, parsed.1));
            i = i + 1;
        }
        proof {
            assert(events@.skip(events@.len() as int).len() == 0);
        }
        if events.len() > u32::MAX as usize {
            return Err(TrustError::SequenceGapError);
        }
        let count = match u32::checked_add(start, events.len() as u32) {
            Some(v) => v,
            None => {
                return Err(TrustError::SequenceGapError);
            },
        };
        let mut batch = Self::term_entries(&terms);
        let ghost staged = batch@.map_values(|p: (Vec<u8>, Vec<u8>)| (p.0@, p.1@));
        batch.push((checkpoint_key(), u32_to_be(count)));
        self.store.write_batch(batch);
        proof {
            let m0 = old(self).store.contents();
            let entries = spec_term_entries(terms@);
            let bview = batch@.map_values(|p: (Vec<u8>, Vec<u8>)| (p.0@, p.1@));
            assert(bview =~= staged.push((spec_checkpoint_key(), spec_u32_to_be(count))));
            assert(bview.drop_last() =~= entries);
            assert(self.store.contents() == crate::store::batch_inserted(m0, entries).insert(
                spec_checkpoint_key(),
                spec_u32_to_be(count),
            ));
            lemma_u32_be_roundtrip(count);
            assert forall|j: int| 0 <= j < events@.len() implies self.store.contents().contains_key(
                spec_u32_to_be((start0 + j) as u32),
            ) && (spec_term_decode(
                #[trigger] self.store.contents()[spec_u32_to_be((start0 + j) as u32)],
            ) matches Some(t) && spec_term_fields_ok(
                t,
                events@[j].schema_id,
                events@[j].schema_value@,
            )) by {
                assert(entries[j].0 == spec_u32_to_be(terms@[j].0));
                assert forall|l: int| j < l < entries.len() implies entries[l].0 != entries[j].0 by {
                    if entries[l].0 == entries[j].0 {
                        crate::bytes::lemma_u32_be_injective(terms@[l].0, terms@[j].0);
                    }
                };
                lemma_batch_lookup(m0, entries, j);
                assert(spec_checkpoint_key().len() == 10);
                assert(entries[j].0.len() == 4);
                crate::term::lemma_term_roundtrip(
                    terms@[j].1.from@,
                    terms@[j].1.to@,
                    terms@[j].1.weight,
                    terms@[j].1.domain,
                    terms@[j].1.positive,
                );
            };
        }
        Ok(count)
    }

    /// Serve the Terms for a bounded range: a size over the fixed maximum is
    /// rejected before the store is touched; the range must then be fully
    /// populated.
    #[verifier::rlimit(100)]
    pub fn term_stream_batch(&self, batch: TermBatch) -> (r: Result<Vec<Term>, TrustError>)
        ensures
            batch.size > MAX_TERM_BATCH_SIZE ==> r == Err::<Vec<Term>, TrustError>(
                TrustError::BatchSizeExceeded,
            ),
            batch.size <= MAX_TERM_BATCH_SIZE ==> match r {
                Ok(v) => {
                    &&& spec_read_outcome(
                        self.store.contents(),
                        batch.start as int,
                        batch.size as int,
                    ) is None
                    &&& v@.len() == batch.size
                    &&& forall|j: int|
                        0 <= j < batch.size ==> #[trigger] spec_term_at(
                            self.store.contents(),
                            batch.start,
                            j,
                            v@[j],
                        )
                },
                Err(e) => spec_read_outcome(
                    self.store.contents(),
                    batch.start as int,
                    batch.size as int,
                ) == Some(e),
            },
    {
        if batch.size > MAX_TERM_BATCH_SIZE {
            return Err(TrustError::BatchSizeExceeded);
        }
        Self::read_terms(&self.store, batch)
    }
}

} // verus!
