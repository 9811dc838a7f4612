//! Keccak-256 digests and recoverable ECDSA over secp256k1.
//!
//! Every attestation is signed over the Keccak-256 digest of its canonically
//! ordered fields.  Verification recovers the signer's public key from the
//! recoverable signature and re-checks the signature against that key; the
//! signer's address is the last 20 bytes of the Keccak-256 digest of the
//! uncompressed public key without its format prefix byte.

use vstd::prelude::*;

use secp256k1::ecdsa::{RecoverableSignature, RecoveryId};
use secp256k1::{Message, PublicKey, Secp256k1, SecretKey};
use sha3::Digest;

verus! {

/// The Keccak-256 digest of a byte string.
pub uninterp spec fn keccak256(data: Seq<u8>) -> Seq<u8>;

/// The uncompressed public key that signature recovery yields for a digest
/// and a compact recoverable signature, when recovery succeeds.
pub uninterp spec fn spec_recover_key(
    digest: Seq<u8>,
    rec_id: i32,
    r: Seq<u8>,
    s: Seq<u8>,
) -> Option<Seq<u8>>;

/// Whether a compact signature verifies for a digest under an uncompressed
/// public key.
pub uninterp spec fn spec_sig_valid(
    digest: Seq<u8>,
    rec_id: i32,
    r: Seq<u8>,
    s: Seq<u8>,
    pk: Seq<u8>,
) -> bool;

/// The uncompressed public key belonging to a 32-byte secret key.
pub uninterp spec fn spec_pubkey_of(sk: Seq<u8>) -> Seq<u8>;

/// The compact recoverable signature that deterministic (RFC 6979) signing
/// produces for a digest under a secret key.
pub uninterp spec fn spec_sign(digest: Seq<u8>, sk: Seq<u8>) -> (i32, Seq<u8>, Seq<u8>);

/// Whether 32 bytes are a valid secret key (nonzero and below the curve
/// order), as `SecretKey::from_slice` decides it.
pub uninterp spec fn spec_sk_valid(sk: Seq<u8>) -> bool;

/// Relies on `sha3::Keccak256`: a fixed 32-byte digest determined by the
/// input bytes alone.
#[verifier::external_body]
pub fn keccak_digest(data: &Vec<u8>) -> (r: Vec<u8>)
    ensures
        r@ == keccak256(data@),
        r@.len() == 32,
{
    let mut hasher = sha3::Keccak256::default();
    hasher.update(data.as_slice());
    hasher.finalize().to_vec()
}

/// Relies on `secp256k1`: `RecoveryId::from_i32`, `Message::from_digest_slice`,
/// `RecoverableSignature::from_compact` and `Secp256k1::recover_ecdsa`, then
/// `PublicKey::serialize_uncompressed`.  Recovery is a function of the digest
/// and signature alone; a recovered key serializes to 65 bytes.
#[verifier::external_body]
pub fn recover_signer(digest: &Vec<u8>, rec_id: i32, r: &Vec<u8>, s: &Vec<u8>) -> (res: Option<
    Vec<u8>,
>)
    requires
        digest@.len() == 32,
        r@.len() == 32,
        s@.len() == 32,
    ensures
        match res {
            Some(pk) => spec_recover_key(digest@, rec_id, r@, s@) == Some(pk@) && pk@.len() == 65,
            None => spec_recover_key(digest@, rec_id, r@, s@) is None,
        },
{
    let message = Message::from_digest_slice(digest.as_slice()).ok()?;
    let id = RecoveryId::from_i32(rec_id).ok()?;
    let mut compact = [0u8; 64];
    compact[..32].copy_from_slice(r.as_slice());
    compact[32..].copy_from_slice(s.as_slice());
    let signature = RecoverableSignature::from_compact(&compact, id).ok()?;
    let pk = Secp256k1::verification_only().recover_ecdsa(&message, &signature).ok()?;
    Some(pk.serialize_uncompressed().to_vec())
}

/// Relies on `secp256k1::Secp256k1::verify_ecdsa` (with the same conversions
/// as recovery, and `PublicKey::from_slice`): whether the standard signature
/// verifies under the given key, a function of its arguments alone.
#[verifier::external_body]
pub fn verify_signature(digest: &Vec<u8>, rec_id: i32, r: &Vec<u8>, s: &Vec<u8>, pk: &Vec<u8>) -> (res:
    bool)
    requires
        digest@.len() == 32,
        r@.len() == 32,
        s@.len() == 32,
    ensures
        res == spec_sig_valid(digest@, rec_id, r@, s@, pk@),
{
    let valid = || -> Option<bool> {
        let message = Message::from_digest_slice(digest.as_slice()).ok()?;
        let id = RecoveryId::from_i32(rec_id).ok()?;
        let mut compact = [0u8; 64];
        compact[..32].copy_from_slice(r.as_slice());
        compact[32..].copy_from_slice(s.as_slice());
        let signature = RecoverableSignature::from_compact(&compact, id).ok()?;
        let key = PublicKey::from_slice(pk.as_slice()).ok()?;
        Some(Secp256k1::verification_only().verify_ecdsa(&message, &signature.to_standard(), &key).is_ok())
    };
    valid().unwrap_or(false)
}

/// Relies on `secp256k1::Secp256k1::generate_keypair` with
/// `rand::thread_rng`: a fresh pair of a valid secret key and the public key
/// derived from it; nothing else is promised of a random draw.
#[verifier::external_body]
pub fn generate_keypair() -> (res: (Vec<u8>, Vec<u8>))
    ensures
        res.0@.len() == 32,
        res.1@.len() == 65,
        res.1@ == spec_pubkey_of(res.0@),
        spec_sk_valid(res.0@),
{
    let (sk, pk) = Secp256k1::new().generate_keypair(&mut secp256k1::rand::thread_rng());
    (sk.secret_bytes().to_vec(), pk.serialize_uncompressed().to_vec())
}

/// Relies on `secp256k1::Secp256k1::sign_ecdsa_recoverable` (RFC 6979, so a
/// function of digest and key alone) and `serialize_compact` (whose recovery
/// id comes from the ffi in 0..=3); per the crate, recovery on the produced
/// signature yields the signing key, and the signature verifies under it.
/// Signing succeeds exactly when `SecretKey::from_slice` accepts the bytes.
#[verifier::external_body]
pub fn sign_recoverable(digest: &Vec<u8>, sk: &Vec<u8>) -> (res: Option<(i32, Vec<u8>, Vec<u8>)>)
    requires
        digest@.len() == 32,
    ensures
        match res {
            Some(sig) => {
                &&& spec_sk_valid(sk@)
                &&& (sig.0, sig.1@, sig.2@) == spec_sign(digest@, sk@)
                &&& 0 <= sig.0 <= 3
                &&& sig.1@.len() == 32
                &&& sig.2@.len() == 32
                &&& spec_recover_key(digest@, sig.0, sig.1@, sig.2@) == Some(spec_pubkey_of(sk@))
                &&& spec_sig_valid(digest@, sig.0, sig.1@, sig.2@, spec_pubkey_of(sk@))
            },
            None => !spec_sk_valid(sk@),
        },
{
    let secret = SecretKey::from_slice(sk.as_slice()).ok()?;
    let message = Message::from_digest_slice(digest.as_slice()).ok()?;
    let signature = Secp256k1::new().sign_ecdsa_recoverable(&message, &secret);
    let (id, compact) = signature.serialize_compact();
    Some((id.to_i32(), compact[..32].to_vec(), compact[32..].to_vec()))
}

/// The address of an uncompressed public key: the last 20 bytes of the
/// Keccak-256 digest of the key without its format prefix byte.
pub open spec fn spec_address_of(pk: Seq<u8>) -> Seq<u8> {
    keccak256(pk.skip(1)).skip(12)
}

/// Derive the 20-byte address of an uncompressed public key.
pub fn address_from_ecdsa_key(pk: &Vec<u8>) -> (r: Vec<u8>)
    requires
        pk@.len() == 65,
    ensures
        r@ == spec_address_of(pk@),
        r@.len() == 20,
{
    let mut body: Vec<u8> = Vec::new();
    let mut i: usize = 1;
    while i < 65
        invariant
            1 <= i <= 65,
            pk@.len() == 65,
            body@ == pk@.subrange(1, i as int),
        decreases 65 - i,
    {
        body.push(pk[i]);
        assert(body@ =~= pk@.subrange(1, i + 1 as int));
        i = i + 1;
    }
    assert(body@ =~= pk@.skip(1));
    let digest = keccak_digest(&body);
    let mut r: Vec<u8> = Vec::new();
    let mut j: usize = 12;
    while j < 32
        invariant
            12 <= j <= 32,
            digest@.len() == 32,
            r@ == digest@.subrange(12, j as int),
        decreases 32 - j,
    {
        r.push(digest[j]);
        assert(r@ =~= digest@.subrange(12, j + 1 as int));
        j = j + 1;
    }
    assert(r@ =~= digest@.skip(12));
    r
}

} // verus!
