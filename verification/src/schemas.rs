//! Attestation schemas: the closed set of signed claim kinds.
//!
//! Each schema kind carries a DID subject and a recoverable ECDSA signature
//! over the Keccak-256 digest of its canonically ordered fields, validates
//! its own signature, and derives a [`crate::term::Term`].
//!
//! A schema value crosses the wire as a canonical self-describing text
//! record, e.g. `{"id":"did:pkh:eth:<40 hex>","sig":[<digit>,"<64 hex>","<64
//! hex>"]}`; the signature triple is its recovery id and the two 32-byte
//! halves in lowercase hex.  Only the canonical spelling parses.

pub mod approve;
pub mod disapprove;
pub mod follow;
pub mod status;

use vstd::prelude::*;

use crate::crypto::{keccak256, keccak_digest, recover_signer, spec_recover_key, spec_sig_valid,
    verify_signature};
use crate::errors::TrustError;

verus! {

/// The closed enumeration of attestation kinds.
#[derive(Clone, Copy, Debug, PartialEq, Eq, Structural)]
pub enum SchemaType {
    Follow,
    AuditApprove,
    AuditDisapprove,
    EndorseCredential,
}

impl SchemaType {
    /// The kind a wire-level schema id names; unknown ids are a hard error.
    pub fn from_id(schema_id: u32) -> (r: Result<SchemaType, TrustError>)
        ensures
            r == match schema_id {
                1u32 => Ok::<SchemaType, TrustError>(SchemaType::Follow),
                2u32 => Ok::<SchemaType, TrustError>(SchemaType::AuditApprove),
                3u32 => Ok::<SchemaType, TrustError>(SchemaType::AuditDisapprove),
                4u32 => Ok::<SchemaType, TrustError>(SchemaType::EndorseCredential),
                _ => Err::<SchemaType, TrustError>(TrustError::UnsupportedSchema),
            },
    {
        match schema_id {
            1 => Ok(SchemaType::Follow),
            2 => Ok(SchemaType::AuditApprove),
            3 => Ok(SchemaType::AuditDisapprove),
            4 => Ok(SchemaType::EndorseCredential),
            _ => Err(TrustError::UnsupportedSchema),
        }
    }
}

/// The text `{"id":"`.
pub open spec fn spec_lit_id() -> Seq<u8> {
    seq![123u8, 34u8, 105u8, 100u8, 34u8, 58u8, 34u8]
}

/// The text `","is_trustworthy":`.
pub open spec fn spec_lit_trust() -> Seq<u8> {
    seq![34u8, 44u8, 34u8, 105u8, 115u8, 95u8, 116u8, 114u8, 117u8, 115u8, 116u8, 119u8, 111u8,
        114u8, 116u8, 104u8, 121u8, 34u8, 58u8]
}

/// The text `,"scope":"`.
pub open spec fn spec_lit_scope() -> Seq<u8> {
    seq![44u8, 34u8, 115u8, 99u8, 111u8, 112u8, 101u8, 34u8, 58u8, 34u8]
}

/// The text `","sig":[`.
pub open spec fn spec_lit_sig() -> Seq<u8> {
    seq![34u8, 44u8, 34u8, 115u8, 105u8, 103u8, 34u8, 58u8, 91u8]
}

/// The text `,"`.
pub open spec fn spec_lit_comma_quote() -> Seq<u8> {
    seq![44u8, 34u8]
}

/// The text `","`.
pub open spec fn spec_lit_quote_comma_quote() -> Seq<u8> {
    seq![34u8, 44u8, 34u8]
}

/// The text `"]}`.
pub open spec fn spec_lit_close() -> Seq<u8> {
    seq![34u8, 93u8, 125u8]
}

/// The text `true`.
pub open spec fn spec_lit_true() -> Seq<u8> {
    seq![116u8, 114u8, 117u8, 101u8]
}

/// The text `false`.
pub open spec fn spec_lit_false() -> Seq<u8> {
    seq![102u8, 97u8, 108u8, 115u8, 101u8]
}

/// Where parsing stands after matching `lit` at offset `i` of `s`.
pub open spec fn spec_expect(s: Seq<u8>, i: int, lit: Seq<u8>) -> Option<int> {
    if 0 <= i && i + lit.len() <= s.len() && s.subrange(i, i + lit.len()) == lit {
        Some(i + lit.len())
    } else {
        None
    }
}

/// A signature triple: recovery id and the two 32-byte halves.
pub open spec fn sig_wf(sig: (i32, Seq<u8>, Seq<u8>)) -> bool {
    &&& 0 <= sig.0 < 10
    &&& sig.1.len() == 32
    &&& sig.2.len() == 32
}

/// Build the fragment `{"id":"`.
pub fn lit_id() -> (r: Vec<u8>)
    ensures
        r@ == spec_lit_id(),
{
    let mut r: Vec<u8> = Vec::new();
    r.push(123);
    r.push(34);
    r.push(105);
    r.push(100);
    r.push(34);
    r.push(58);
    r.push(34);
    assert(r@ =~= spec_lit_id());
    r
}

/// Build the fragment `","is_trustworthy":`.
pub fn lit_trust() -> (r: Vec<u8>)
    ensures
        r@ == spec_lit_trust(),
{
    let mut r: Vec<u8> = Vec::new();
    r.push(34);
    r.push(44);
    r.push(34);
    r.push(105);
    r.push(115);
    r.push(95);
    r.push(116);
    r.push(114);
    r.push(117);
    r.push(115);
    r.push(116);
    r.push(119);
    r.push(111);
    r.push(114);
    r.push(116);
    r.push(104);
    r.push(121);
    r.push(34);
    r.push(58);
    assert(r@ =~= spec_lit_trust());
    r
}

/// Build the fragment `,"scope":"`.
pub fn lit_scope() -> (r: Vec<u8>)
    ensures
        r@ == spec_lit_scope(),
{
    let mut r: Vec<u8> = Vec::new();
    r.push(44);
    r.push(34);
    r.push(115);
    r.push(99);
    r.push(111);
    r.push(112);
    r.push(101);
    r.push(34);
    r.push(58);
    r.push(34);
    assert(r@ =~= spec_lit_scope());
    r
}

/// Build the fragment `","sig":[`.
pub fn lit_sig() -> (r: Vec<u8>)
    ensures
        r@ == spec_lit_sig(),
{
    let mut r: Vec<u8> = Vec::new();
    r.push(34);
    r.push(44);
    r.push(34);
    r.push(115);
    r.push(105);
    r.push(103);
    r.push(34);
    r.push(58);
    r.push(91);
    assert(r@ =~= spec_lit_sig());
    r
}

/// Build the fragment `,"`.
pub fn lit_comma_quote() -> (r: Vec<u8>)
    ensures
        r@ == spec_lit_comma_quote(),
{
    let mut r: Vec<u8> = Vec::new();
    r.push(44);
    r.push(34);
    assert(r@ =~= spec_lit_comma_quote());
    r
}

/// Build the fragment `","`.
pub fn lit_quote_comma_quote() -> (r: Vec<u8>)
    ensures
        r@ == spec_lit_quote_comma_quote(),
{
    let mut r: Vec<u8> = Vec::new();
    r.push(34);
    r.push(44);
    r.push(34);
    assert(r@ =~= spec_lit_quote_comma_quote());
    r
}

/// Build the fragment `"]}`.
pub fn lit_close() -> (r: Vec<u8>)
    ensures
        r@ == spec_lit_close(),
{
    let mut r: Vec<u8> = Vec::new();
    r.push(34);
    r.push(93);
    r.push(125);
    assert(r@ =~= spec_lit_close());
    r
}

/// Build the text `true`.
pub fn lit_true() -> (r: Vec<u8>)
    ensures
        r@ == spec_lit_true(),
{
    let mut r: Vec<u8> = Vec::new();
    r.push(116);
    r.push(114);
    r.push(117);
    r.push(101);
    assert(r@ =~= spec_lit_true());
    r
}

/// Build the text `false`.
pub fn lit_false() -> (r: Vec<u8>)
    ensures
        r@ == spec_lit_false(),
{
    let mut r: Vec<u8> = Vec::new();
    r.push(102);
    r.push(97);
    r.push(108);
    r.push(115);
    r.push(101);
    assert(r@ =~= spec_lit_false());
    r
}

/// Match `lit` at offset `i` of `s`; `None` when the text differs.
pub fn expect_lit(s: &Vec<u8>, i: usize, lit: &Vec<u8>) -> (r: Option<usize>)
    ensures
        match r {
            Some(j) => spec_expect(s@, i as int, lit@) == Some(j as int) && j == i + lit@.len(),
            None => spec_expect(s@, i as int, lit@) is None,
        },
{
    if s.len() < lit.len() || i > s.len() - lit.len() {
        return None;
    }
    let mut k: usize = 0;
    while k < lit.len()
        invariant
            i + lit.len() <= s.len(),
            k <= lit@.len(),
            forall|j: int| 0 <= j < k ==> s@[i + j] == lit@[j],
        decreases lit@.len() - k,
    {
        if s[i + k] != lit[k] {
            proof {
                assert(s@.subrange(i as int, i + lit@.len()) != lit@) by {
                    assert(s@.subrange(i as int, i + lit@.len())[k as int] != lit@[k as int]);
                };
            }
            return None;
        }
        k = k + 1;
    }
    assert(s@.subrange(i as int, i + lit@.len()) =~= lit@);
    Some(i + lit.len())
}

/// Copy `s[a..b]` out.
pub fn copy_range(s: &Vec<u8>, a: usize, b: usize) -> (r: Vec<u8>)
    requires
        a <= b <= s@.len(),
    ensures
        r@ == s@.subrange(a as int, b as int),
{
    let mut r: Vec<u8> = Vec::new();
    let mut i: usize = a;
    while i < b
        invariant
            a <= i <= b <= s@.len(),
            r@ == s@.subrange(a as int, i as int),
        decreases b - i,
    {
        r.push(s[i]);
        assert(r@ =~= s@.subrange(a as int, i + 1 as int));
        i = i + 1;
    }
    r
}

/// The canonical text of a signature triple with the record's closing text:
/// `<digit>,"<64 hex>","<64 hex>"]}`.
pub open spec fn spec_sig_text(rid: i32, rb: Seq<u8>, sb: Seq<u8>) -> Seq<u8> {
    seq![(48 + rid) as u8] + spec_lit_comma_quote() + crate::hexstr::spec_hex_encode(rb)
        + spec_lit_quote_comma_quote() + crate::hexstr::spec_hex_encode(sb) + spec_lit_close()
}

/// The canonical record text of a schema that carries only a subject and a
/// signature: `{"id":"<did>","sig":[<digit>,"<64 hex>","<64 hex>"]}`.
pub open spec fn spec_encode_plain(key: Seq<u8>, rid: i32, rb: Seq<u8>, sb: Seq<u8>) -> Seq<u8> {
    spec_lit_id() + crate::did::spec_did_encode(key) + spec_lit_sig() + spec_sig_text(rid, rb, sb)
}

/// The fields a plain record text stands for, when it is canonical.
#[verifier::opaque]
pub open spec fn spec_parse_plain(s: Seq<u8>) -> Option<(Seq<u8>, i32, Seq<u8>, Seq<u8>)> {
    match spec_expect(s, 0, spec_lit_id()) {
        None => None,
        Some(i0) => if s.len() < i0 + 52 {
            None
        } else {
            match crate::did::spec_did_parse(s.subrange(i0, i0 + 52)) {
                None => None,
                Some(key) => match spec_expect(s, i0 + 52, spec_lit_sig()) {
                    None => None,
                    Some(i2) => spec_parse_sig_tail(s, i2, key),
                },
            }
        },
    }
}

/// The signature part of a record from offset `i` on: digit, the two hex
/// halves, the closing text, and nothing after it.
#[verifier::opaque]
pub open spec fn spec_parse_sig_tail(s: Seq<u8>, i: int, key: Seq<u8>) -> Option<
    (Seq<u8>, i32, Seq<u8>, Seq<u8>),
> {
    if !(i < s.len() && 48 <= s[i] <= 57) {
        None
    } else {
        let rid = (s[i] - 48) as i32;
        match spec_expect(s, i + 1, spec_lit_comma_quote()) {
            None => None,
            Some(i4) => if s.len() < i4 + 64 || !crate::hexstr::is_hex_text(
                s.subrange(i4, i4 + 64),
            ) {
                None
            } else {
                let rb = crate::hexstr::spec_hex_decode(s.subrange(i4, i4 + 64));
                match spec_expect(s, i4 + 64, spec_lit_quote_comma_quote()) {
                    None => None,
                    Some(i5) => if s.len() < i5 + 64 || !crate::hexstr::is_hex_text(
                        s.subrange(i5, i5 + 64),
                    ) {
                        None
                    } else {
                        let sb = crate::hexstr::spec_hex_decode(s.subrange(i5, i5 + 64));
                        match spec_expect(s, i5 + 64, spec_lit_close()) {
                            None => None,
                            Some(i6) => if i6 == s.len() {
                                Some((key, rid, rb, sb))
                            } else {
                                None
                            },
                        }
                    },
                }
            },
        }
    }
}

/// Emit the canonical record text of a plain schema.
pub fn encode_plain(did: &crate::did::Did, sig: &(i32, Vec<u8>, Vec<u8>)) -> (r: Vec<u8>)
    requires
        did.wf(),
        sig_wf((sig.0, sig.1@, sig.2@)),
    ensures
        r@ == spec_encode_plain(did.key@, sig.0, sig.1@, sig.2@),
{
    let mut r = lit_id();
    let mut part = did.encode_bytes();
    r.append(&mut part);
    let mut part = lit_sig();
    r.append(&mut part);
    append_sig(&mut r, sig);
    assert(r@ =~= spec_encode_plain(did.key@, sig.0, sig.1@, sig.2@));
    r
}

/// Append `<digit>,"<64 hex>","<64 hex>"]}` to a record being built.
pub fn append_sig(r: &mut Vec<u8>, sig: &(i32, Vec<u8>, Vec<u8>))
    requires
        sig_wf((sig.0, sig.1@, sig.2@)),
    ensures
        final(r)@ == old(r)@ + spec_sig_text(sig.0, sig.1@, sig.2@),
{
    let digit: u8 = 48 + (sig.0 as u8);
    r.push(digit);
    let mut part = lit_comma_quote();
    r.append(&mut part);
    let mut part = crate::hexstr::hex_encode(&sig.1);
    r.append(&mut part);
    let mut part = lit_quote_comma_quote();
    r.append(&mut part);
    let mut part = crate::hexstr::hex_encode(&sig.2);
    r.append(&mut part);
    let mut part = lit_close();
    r.append(&mut part);
    assert(r@ =~= old(r)@ + spec_sig_text(sig.0, sig.1@, sig.2@));
}

/// Read a plain record back; only the canonical spelling parses.
pub fn parse_plain(s: &Vec<u8>) -> (r: Result<(crate::did::Did, (i32, Vec<u8>, Vec<u8>)), TrustError>)
    ensures
        match r {
            Ok(p) => {
                &&& p.0.wf()
                &&& sig_wf((p.1.0, p.1.1@, p.1.2@))
                &&& spec_parse_plain(s@) == Some((p.0.key@, p.1.0, p.1.1@, p.1.2@))
            },
            Err(e) => e == TrustError::ParseError && spec_parse_plain(s@) is None,
        },
{
    proof {
        reveal(spec_parse_plain);
    }
    let l = lit_id();
    let i0 = match expect_lit(s, 0, &l) {
        Some(i) => i,
        None => {
            return Err(TrustError::ParseError);
        },
    };
    if s.len() - i0 < 52 {
        return Err(TrustError::ParseError);
    }
    let didseg = copy_range(s, i0, i0 + 52);
    let did = match crate::did::Did::parse_bytes(&didseg) {
        Ok(d) => d,
        Err(_) => {
            return Err(TrustError::ParseError);
        },
    };
    let l = lit_sig();
    let i2 = match expect_lit(s, i0 + 52, &l) {
        Some(i) => i,
        None => {
            return Err(TrustError::ParseError);
        },
    };
    match parse_sig_tail(s, i2) {
        Ok(sig) => Ok((did, sig)),
        Err(e) => Err(e),
    }
}

/// Read the signature tail of a record from offset `i` on.
pub fn parse_sig_tail(s: &Vec<u8>, i: usize) -> (r: Result<(i32, Vec<u8>, Vec<u8>), TrustError>)
    ensures
        match r {
            Ok(sig) => {
                &&& sig_wf((sig.0, sig.1@, sig.2@))
                &&& forall|key: Seq<u8>| spec_parse_sig_tail(s@, i as int, key) == Some(
                    (key, sig.0, sig.1@, sig.2@),
                )
            },
            Err(e) => e == TrustError::ParseError && forall|key: Seq<u8>|
                spec_parse_sig_tail(s@, i as int, key) is None,
        },
{
    proof {
        reveal(spec_parse_sig_tail);
    }
    if i >= s.len() {
        return Err(TrustError::ParseError);
    }
    let d = s[i];
    if !(48 <= d && d <= 57) {
        return Err(TrustError::ParseError);
    }
    let rid = (d - 48) as i32;
    let l = lit_comma_quote();
    let i4 = match expect_lit(s, i + 1, &l) {
        Some(j) => j,
        None => {
            return Err(TrustError::ParseError);
        },
    };
    if s.len() - i4 < 64 {
        return Err(TrustError::ParseError);
    }
    let seg = copy_range(s, i4, i4 + 64);
    let rb = match crate::hexstr::hex_decode(&seg) {
        Some(v) => v,
        None => {
            return Err(TrustError::ParseError);
        },
    };
    let l = lit_quote_comma_quote();
    let i5 = match expect_lit(s, i4 + 64, &l) {
        Some(j) => j,
        None => {
            return Err(TrustError::ParseError);
        },
    };
    if s.len() - i5 < 64 {
        return Err(TrustError::ParseError);
    }
    let seg = copy_range(s, i5, i5 + 64);
    let sb = match crate::hexstr::hex_decode(&seg) {
        Some(v) => v,
        None => {
            return Err(TrustError::ParseError);
        },
    };
    let l = lit_close();
    let i6 = match expect_lit(s, i5 + 64, &l) {
        Some(j) => j,
        None => {
            return Err(TrustError::ParseError);
        },
    };
    if i6 != s.len() {
        return Err(TrustError::ParseError);
    }
    Ok((rid, rb, sb))
}

/// The signature tail parses wherever a record carries it after a prefix.
pub proof fn lemma_sig_tail_at(prefix: Seq<u8>, key: Seq<u8>, rid: i32, rb: Seq<u8>, sb: Seq<u8>)
    requires
        0 <= rid < 10,
        rb.len() == 32,
        sb.len() == 32,
    ensures
        spec_parse_sig_tail(prefix + spec_sig_text(rid, rb, sb), prefix.len() as int, key)
            == Some((key, rid, rb, sb)),
{
    reveal(spec_parse_sig_tail);
    let s = prefix + spec_sig_text(rid, rb, sb);
    let i: int = prefix.len() as int;
    assert(s.len() == i + 137);
    assert(s[i] == (48 + rid) as u8);
    assert(s.subrange(i + 1, i + 3) =~= spec_lit_comma_quote());
    assert(spec_expect(s, i + 1, spec_lit_comma_quote()) == Some((i + 3) as int));
    assert(s.subrange(i + 3, i + 67) =~= crate::hexstr::spec_hex_encode(rb));
    crate::hexstr::lemma_hex_roundtrip(rb);
    assert(crate::hexstr::is_hex_text(s.subrange(i + 3, i + 67)));
    assert(crate::hexstr::spec_hex_decode(s.subrange(i + 3, i + 67)) == rb);
    assert(s.subrange(i + 67, i + 70) =~= spec_lit_quote_comma_quote());
    assert(spec_expect(s, i + 67, spec_lit_quote_comma_quote()) == Some((i + 70) as int));
    assert(s.subrange(i + 70, i + 134) =~= crate::hexstr::spec_hex_encode(sb));
    crate::hexstr::lemma_hex_roundtrip(sb);
    assert(crate::hexstr::is_hex_text(s.subrange(i + 70, i + 134)));
    assert(crate::hexstr::spec_hex_decode(s.subrange(i + 70, i + 134)) == sb);
    assert(s.subrange(i + 134, i + 137) =~= spec_lit_close());
    assert(spec_expect(s, i + 134, spec_lit_close()) == Some((i + 137) as int));
}

/// Parsing a plain record inverts encoding it.
pub proof fn lemma_plain_roundtrip(key: Seq<u8>, rid: i32, rb: Seq<u8>, sb: Seq<u8>)
    requires
        key.len() == 20,
        0 <= rid < 10,
        rb.len() == 32,
        sb.len() == 32,
    ensures
        spec_parse_plain(spec_encode_plain(key, rid, rb, sb)) == Some((key, rid, rb, sb)),
{
    reveal(spec_parse_plain);
    let s = spec_encode_plain(key, rid, rb, sb);
    let prefix = spec_lit_id() + crate::did::spec_did_encode(key) + spec_lit_sig();
    assert(s =~= prefix + spec_sig_text(rid, rb, sb));
    assert(s.len() == 205);
    assert(s.subrange(0, 7) =~= spec_lit_id());
    assert(spec_expect(s, 0, spec_lit_id()) == Some(7int));
    assert(s.subrange(7, 59) =~= crate::did::spec_did_encode(key));
    crate::did::lemma_did_roundtrip(key);
    assert(crate::did::spec_did_parse(s.subrange(7, 59)) == Some(key));
    assert(s.subrange(59, 68) =~= spec_lit_sig());
    assert(spec_expect(s, 59, spec_lit_sig()) == Some(68int));
    lemma_sig_tail_at(prefix, key, rid, rb, sb);
    assert(spec_parse_sig_tail(s, 68, key) == Some((key, rid, rb, sb)));
}

/// The digest the audit and endorsement schemas sign: Keccak-256 of the
/// subject key followed by the schema's domain tag byte.
pub open spec fn spec_tagged_digest(key: Seq<u8>, tag: u8) -> Seq<u8> {
    keccak256(key.push(tag))
}

/// Compute the tagged digest.
pub fn tagged_digest(key: &Vec<u8>, tag: u8) -> (r: Vec<u8>)
    ensures
        r@ == spec_tagged_digest(key@, tag),
        r@.len() == 32,
{
    let mut preimage = key.clone();
    preimage.push(tag);
    keccak_digest(&preimage)
}

/// Recover the signer of `digest` from `sig` and re-verify the signature
/// against the recovered key.  `Ok` carries the 65-byte uncompressed key and
/// the verification verdict; recovery failure is a
/// [`TrustError::VerificationError`].
pub fn recover_and_verify(digest: &Vec<u8>, sig: &(i32, Vec<u8>, Vec<u8>)) -> (r: Result<
    (Vec<u8>, bool),
    TrustError,
>)
    requires
        digest@.len() == 32,
        sig.1@.len() == 32,
        sig.2@.len() == 32,
    ensures
        match r {
            Ok(pv) => {
                &&& spec_recover_key(digest@, sig.0, sig.1@, sig.2@) == Some(pv.0@)
                &&& pv.0@.len() == 65
                &&& pv.1 == spec_sig_valid(digest@, sig.0, sig.1@, sig.2@, pv.0@)
            },
            Err(e) => {
                &&& e == TrustError::VerificationError
                &&& spec_recover_key(digest@, sig.0, sig.1@, sig.2@) is None
            },
        },
{
    match recover_signer(digest, sig.0, &sig.1, &sig.2) {
        Some(pk) => {
            let valid = verify_signature(digest, sig.0, &sig.1, &sig.2, &pk);
            Ok((pk, valid))
        },
        None => Err(TrustError::VerificationError),
    }
}

} // verus!
