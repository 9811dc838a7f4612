use trustgraph::combiner::LinearCombinerService;
use trustgraph::indexer::{
    parse_level_from_string, LogLevel, MetamaskConnectorClient, MetamaskConnectorClientConfig,
};
use trustgraph::schemas::follow::{FollowSchema, Scope};
use trustgraph::term::Term;
use trustgraph::transformer::{IndexerEvent, TermBatch, TransformerService};

#[test]
fn end_to_end_follow_pipeline() {
    // the indexer emits events 0, 1, 2 for the Follow schema, signer A, did B
    let did_b = "did:pkh:eth:90f8bf6a479f320ead074411a4b0e7944ea8c9c2";
    let follow_schema = FollowSchema::new(did_b, true, Scope::Auditor).unwrap();
    let record = follow_schema.encode();
    let events: Vec<IndexerEvent> = (0..3)
        .map(|id| IndexerEvent {
            id,
            schema_id: 1,
            schema_value: record.clone(),
            timestamp: 0,
        })
        .collect();

    let mut transformer = TransformerService::new().unwrap();
    let count = transformer.sync_events(&events).unwrap();
    assert_eq!(count, 3);
    assert_eq!(
        TransformerService::read_checkpoint(&transformer.store).unwrap(),
        3
    );

    let terms = transformer
        .term_stream_batch(TermBatch { start: 0, size: 3 })
        .unwrap();
    assert_eq!(terms.len(), 3);

    let objects: Vec<_> = terms.iter().map(Term::to_object).collect();
    let mut combiner = LinearCombinerService::new().unwrap();
    combiner.sync_transformer(&objects).unwrap();

    // A got index 0, B index 1, and the (0, 1) cell accumulated 150
    let mut offset = LinearCombinerService::read_checkpoint(&combiner.main).unwrap();
    assert_eq!(offset, 2);
    let x = LinearCombinerService::get_index(&mut combiner.main, objects[0].from.clone(), &mut offset)
        .unwrap();
    let y = LinearCombinerService::get_index(&mut combiner.main, objects[0].to.clone(), &mut offset)
        .unwrap();
    assert_eq!(x, vec![0, 0, 0, 0]);
    assert_eq!(y, vec![0, 0, 0, 1]);
    assert_eq!(offset, 2);

    let mut key = x;
    key.extend_from_slice(&y);
    assert_eq!(LinearCombinerService::get_value(&combiner.main, &key), 150);
    assert_eq!(LinearCombinerService::get_value(&combiner.updates, &key), 150);
}

#[test]
fn term_binary_roundtrip() {
    let samples = vec![
        Term::new(vec![0; 20], vec![255; 20], 0, 1, true),
        Term::new(vec![0x90; 20], vec![0x0a; 20], 50, 2, false),
        Term::new(vec![1; 20], vec![2; 20], u32::MAX, u32::MAX, true),
    ];
    for term in samples {
        let bytes = term.into_bytes();
        let back = Term::from_bytes(&bytes).unwrap();
        assert_eq!(back, term);
    }
}

#[test]
fn term_from_bytes_rejects_malformed() {
    assert!(Term::from_bytes(&vec![0; 48]).is_err());
    let mut bytes = Term::new(vec![0; 20], vec![1; 20], 7, 1, true).into_bytes();
    bytes[48] = 2;
    assert!(Term::from_bytes(&bytes).is_err());
}

#[test]
fn level_words_parse_case_insensitively() {
    assert_eq!(parse_level_from_string("trace"), Some(LogLevel::Trace));
    assert_eq!(parse_level_from_string("DEBUG"), Some(LogLevel::Debug));
    assert_eq!(parse_level_from_string("Info"), Some(LogLevel::Info));
    assert_eq!(parse_level_from_string("wArN"), Some(LogLevel::Warn));
    assert_eq!(parse_level_from_string("error"), Some(LogLevel::Error));
    assert_eq!(parse_level_from_string("verbose"), None);
}

#[test]
fn query_path_numbers_records_from_one() {
    let client = MetamaskConnectorClient::new(MetamaskConnectorClientConfig {
        url: "http://localhost:3030".to_string(),
    });
    assert_eq!(
        client.query_path(Some(5), None),
        "http://localhost:3030/assertions/?from=6&to=1024"
    );
    assert_eq!(
        client.query_path(None, Some(32)),
        "http://localhost:3030/assertions/?from=1&to=32"
    );
}
