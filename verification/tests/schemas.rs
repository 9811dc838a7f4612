use trustgraph::crypto::{address_from_ecdsa_key, generate_keypair, sign_recoverable};
use trustgraph::did::Did;
use trustgraph::errors::TrustError;
use trustgraph::schemas::follow::{FollowSchema, Scope};

fn dup(f: &FollowSchema) -> FollowSchema {
    FollowSchema {
        id: Did {
            key: f.id.key.clone(),
        },
        is_trustworthy: f.is_trustworthy,
        scope: f.scope,
        sig: (f.sig.0, f.sig.1.clone(), f.sig.2.clone()),
    }
}

fn signed_follow_schema(did_string: &str) -> (FollowSchema, Vec<u8>) {
    let did = Did::parse(did_string).unwrap();
    let probe = FollowSchema {
        id: did,
        is_trustworthy: true,
        scope: Scope::Auditor,
        sig: (0, vec![0; 32], vec![0; 32]),
    };
    let digest = probe.digest();
    let (sk, pk) = generate_keypair();
    let sig = sign_recoverable(&digest, &sk).unwrap();
    (FollowSchema { sig, ..probe }, pk)
}

#[test]
fn should_validate_follow_schema() {
    let did_string = "did:pkh:eth:90f8bf6a479f320ead074411a4b0e7944ea8c9c2";
    let (follow_schema, pk) = signed_follow_schema(did_string);

    let (rec_pk, valid) = follow_schema.validate().unwrap();

    assert_eq!(rec_pk, pk);
    assert!(valid);
}

#[test]
fn follow_term_links_signer_and_subject() {
    let did_string = "did:pkh:eth:90f8bf6a479f320ead074411a4b0e7944ea8c9c2";
    let (follow_schema, pk) = signed_follow_schema(did_string);
    let subject_key = follow_schema.id.key.clone();

    let term = follow_schema.into_term().unwrap();

    assert_eq!(term.from, address_from_ecdsa_key(&pk));
    assert_eq!(term.to, subject_key);
    assert_eq!(term.weight, 50);
    assert_eq!(term.domain, 1);
    assert!(term.positive);
}

#[test]
fn tampered_signature_yields_no_term() {
    let did_string = "did:pkh:eth:90f8bf6a479f320ead074411a4b0e7944ea8c9c2";
    let (follow_schema, _) = signed_follow_schema(did_string);

    // an out-of-range recovery id never recovers
    let mut bad_rec_id = dup(&follow_schema);
    bad_rec_id.sig.0 = 4;
    assert_eq!(
        bad_rec_id.into_term().err(),
        Some(TrustError::VerificationError)
    );

    // an r value past the curve order never parses as a signature
    let mut bad_r = dup(&follow_schema);
    bad_r.sig.1 = vec![0xff; 32];
    assert_eq!(bad_r.into_term().err(), Some(TrustError::VerificationError));

    // an s value past the curve order never parses either
    let mut bad_s = follow_schema;
    bad_s.sig.2 = vec![0xff; 32];
    assert_eq!(bad_s.into_term().err(), Some(TrustError::VerificationError));
}

#[test]
fn follow_record_roundtrip() {
    let did_string = "did:pkh:eth:90f8bf6a479f320ead074411a4b0e7944ea8c9c2";
    let (follow_schema, _) = signed_follow_schema(did_string);
    let encoded = follow_schema.encode();
    let parsed = FollowSchema::parse(&encoded).unwrap();
    assert_eq!(parsed.id.key, follow_schema.id.key);
    assert_eq!(parsed.is_trustworthy, follow_schema.is_trustworthy);
    assert_eq!(parsed.scope, follow_schema.scope);
    assert_eq!(parsed.sig, follow_schema.sig);
}

#[test]
fn did_parse_accepts_and_rejects() {
    let did = Did::parse("did:pkh:eth:90f8bf6a479f320ead074411a4b0e7944ea8c9c2").unwrap();
    assert_eq!(did.key.len(), 20);
    assert_eq!(did.key[0], 0x90);
    assert_eq!(did.key[19], 0xc2);

    assert!(Did::parse("did:pkh:eth:90f8").is_err());
    assert!(Did::parse("did:pkh:btc:90f8bf6a479f320ead074411a4b0e7944ea8c9c2").is_err());
    assert!(Did::parse("did:pkh:eth:90f8bf6a479f320ead074411a4b0e7944ea8c9czz").is_err());
}
