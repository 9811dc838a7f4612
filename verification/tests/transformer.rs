use trustgraph::errors::TrustError;
use trustgraph::schemas::follow::{FollowSchema, Scope};
use trustgraph::store::Store;
use trustgraph::transformer::{IndexerEvent, TermBatch, TransformerService};

#[test]
fn should_write_read_checkpoint() {
    let mut db = Store::new();
    TransformerService::write_checkpoint(&mut db, 15).unwrap();
    let checkpoint = TransformerService::read_checkpoint(&db).unwrap();
    assert_eq!(checkpoint, 15);
}

#[test]
fn should_write_read_term() {
    let mut db = Store::new();

    let follow_schema = FollowSchema::new(
        "did:pkh:eth:90f8bf6a479f320ead074411a4b0e7944ea8c9c2",
        true,
        Scope::Auditor,
    )
    .unwrap();
    let indexed_event = IndexerEvent {
        id: 0,
        schema_id: 1,
        schema_value: follow_schema.encode(),
        timestamp: 2397848,
    };
    let term = TransformerService::parse_event(&indexed_event).unwrap();
    TransformerService::write_terms(&mut db, &vec![term]).unwrap();

    let term_batch = TermBatch { start: 0, size: 1 };
    let terms = TransformerService::read_terms(&db, term_batch).unwrap();

    let term = follow_schema.into_term().unwrap();
    let term_obj = term.to_object();
    let read_objs: Vec<_> = terms.iter().map(|t| t.to_object()).collect();
    assert_eq!(read_objs, vec![term_obj]);
}

#[test]
fn checkpoint_roundtrip_edge_values() {
    let mut db = Store::new();
    TransformerService::write_checkpoint(&mut db, 0).unwrap();
    assert_eq!(TransformerService::read_checkpoint(&db).unwrap(), 0);
    TransformerService::write_checkpoint(&mut db, u32::MAX).unwrap();
    assert_eq!(TransformerService::read_checkpoint(&db).unwrap(), u32::MAX);
}

#[test]
fn checkpoint_absent_reads_zero() {
    let db = Store::new();
    assert_eq!(TransformerService::read_checkpoint(&db).unwrap(), 0);
}

#[test]
fn checkpoint_malformed_is_storage_error() {
    let mut db = Store::new();
    db.put(b"checkpoint".to_vec(), vec![1, 2, 3]);
    assert_eq!(
        TransformerService::read_checkpoint(&db),
        Err(TrustError::StorageError)
    );
}

#[test]
fn parse_event_rejects_unknown_schema() {
    let event = IndexerEvent {
        id: 0,
        schema_id: 9,
        schema_value: Vec::new(),
        timestamp: 0,
    };
    assert_eq!(
        TransformerService::parse_event(&event),
        Err(TrustError::UnsupportedSchema)
    );
}

#[test]
fn parse_event_rejects_malformed_payload() {
    let event = IndexerEvent {
        id: 0,
        schema_id: 1,
        schema_value: b"not an attestation record".to_vec(),
        timestamp: 0,
    };
    assert_eq!(
        TransformerService::parse_event(&event),
        Err(TrustError::ParseError)
    );
}

#[test]
fn sync_events_rejects_sequence_gap() {
    let mut service = TransformerService::new().unwrap();
    let follow_schema = FollowSchema::new(
        "did:pkh:eth:90f8bf6a479f320ead074411a4b0e7944ea8c9c2",
        true,
        Scope::Reviewer,
    )
    .unwrap();
    let events = vec![IndexerEvent {
        id: 7,
        schema_id: 1,
        schema_value: follow_schema.encode(),
        timestamp: 0,
    }];
    assert_eq!(
        service.sync_events(&events),
        Err(TrustError::SequenceGapError)
    );
    assert_eq!(TransformerService::read_checkpoint(&service.store).unwrap(), 0);
}

#[test]
fn term_stream_rejects_oversized_batch() {
    let service = TransformerService::new().unwrap();
    let batch = TermBatch {
        start: 0,
        size: 1001,
    };
    assert_eq!(
        service.term_stream_batch(batch),
        Err(TrustError::BatchSizeExceeded)
    );
}

#[test]
fn term_stream_gap_is_not_found() {
    let mut service = TransformerService::new().unwrap();
    let follow_schema = FollowSchema::new(
        "did:pkh:eth:90f8bf6a479f320ead074411a4b0e7944ea8c9c2",
        true,
        Scope::Developer,
    )
    .unwrap();
    let events = vec![IndexerEvent {
        id: 0,
        schema_id: 1,
        schema_value: follow_schema.encode(),
        timestamp: 0,
    }];
    service.sync_events(&events).unwrap();
    let batch = TermBatch { start: 0, size: 3 };
    assert_eq!(
        service.term_stream_batch(batch),
        Err(TrustError::NotFoundError)
    );
}
