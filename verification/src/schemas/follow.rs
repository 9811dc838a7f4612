//! The follow attestation: one identity vouching for another.

use vstd::prelude::*;

use crate::crypto::{generate_keypair, keccak256, keccak_digest, sign_recoverable, spec_address_of,
    spec_pubkey_of, spec_recover_key, spec_sig_valid, spec_sign, address_from_ecdsa_key};
use crate::did::{spec_did_parse, Did};
use crate::errors::TrustError;
use crate::schemas::{append_sig, expect_lit, lit_false, lit_id, lit_scope, lit_sig, lit_true,
    lit_trust, parse_sig_tail, recover_and_verify, sig_wf, spec_expect, spec_lit_comma_quote,
    spec_lit_close, spec_lit_false, spec_lit_id, spec_lit_quote_comma_quote, spec_lit_scope,
    spec_lit_sig, spec_lit_true, spec_lit_trust, spec_parse_sig_tail, copy_range};
use crate::term::Term;

verus! {

/// The capacity in which the subject is trusted.
#[derive(Clone, Copy, Debug, PartialEq, Eq, Structural)]
pub enum Scope {
    Reviewer,
    Developer,
    Auditor,
}

impl Scope {
    /// The single byte a scope contributes to the signed digest.
    pub open spec fn spec_byte(self) -> u8 {
        match self {
            Scope::Reviewer => 0,
            Scope::Developer => 1,
            Scope::Auditor => 2,
        }
    }

    /// Emit the digest byte of this scope.
    pub fn as_byte(&self) -> (r: u8)
        ensures
            r == self.spec_byte(),
    {
        match self {
            Scope::Reviewer => 0,
            Scope::Developer => 1,
            Scope::Auditor => 2,
        }
    }

    /// The canonical text of this scope.
    pub open spec fn spec_text(self) -> Seq<u8> {
        match self {
            Scope::Reviewer => seq![82u8, 101u8, 118u8, 105u8, 101u8, 119u8, 101u8, 114u8],
            Scope::Developer => seq![68u8, 101u8, 118u8, 101u8, 108u8, 111u8, 112u8, 101u8, 114u8],
            Scope::Auditor => seq![65u8, 117u8, 100u8, 105u8, 116u8, 111u8, 114u8],
        }
    }

    /// Emit the canonical text of this scope.
    pub fn text(&self) -> (r: Vec<u8>)
        ensures
            r@ == self.spec_text(),
    {
        let mut r: Vec<u8> = Vec::new();
        match self {
            Scope::Reviewer => {
                r.push(82);
                r.push(101);
                r.push(118);
                r.push(105);
                r.push(101);
                r.push(119);
                r.push(101);
                r.push(114);
            },
            Scope::Developer => {
                r.push(68);
                r.push(101);
                r.push(118);
                r.push(101);
                r.push(108);
                r.push(111);
                r.push(112);
                r.push(101);
                r.push(114);
            },
            Scope::Auditor => {
                r.push(65);
                r.push(117);
                r.push(100);
                r.push(105);
                r.push(116);
                r.push(111);
                r.push(114);
            },
        }
        assert(r@ =~= self.spec_text());
        r
    }
}

/// One identity vouching that another is (or is not) trustworthy in a scope.
pub struct FollowSchema {
    pub id: Did,
    pub is_trustworthy: bool,
    pub scope: Scope,
    pub sig: (i32, Vec<u8>, Vec<u8>),
}

/// The digest a follow attestation signs: Keccak-256 over the subject key,
/// the trustworthiness byte and the scope byte, in that order.
pub open spec fn spec_follow_digest(key: Seq<u8>, trustworthy: bool, scope: Scope) -> Seq<u8> {
    keccak256(
        key.push(
            if trustworthy {
                1u8
            } else {
                0u8
            },
        ).push(scope.spec_byte()),
    )
}

/// The canonical record text of a follow attestation.
pub open spec fn spec_encode_follow(
    key: Seq<u8>,
    trustworthy: bool,
    scope: Scope,
    rid: i32,
    rb: Seq<u8>,
    sb: Seq<u8>,
) -> Seq<u8> {
    spec_lit_id() + crate::did::spec_did_encode(key) + spec_lit_trust() + (if trustworthy {
        spec_lit_true()
    } else {
        spec_lit_false()
    }) + spec_lit_scope() + scope.spec_text() + spec_lit_sig()
        + crate::schemas::spec_sig_text(rid, rb, sb)
}

/// The fields a follow record stands for, when it is canonical.
#[verifier::opaque]
pub open spec fn spec_parse_follow(s: Seq<u8>) -> Option<
    (Seq<u8>, bool, Scope, i32, Seq<u8>, Seq<u8>),
> {
    match spec_expect(s, 0, spec_lit_id()) {
        None => None,
        Some(i0) => if s.len() < i0 + 52 {
            None
        } else {
            match spec_did_parse(s.subrange(i0, i0 + 52)) {
                None => None,
                Some(key) => match spec_expect(s, i0 + 52, spec_lit_trust()) {
                    None => None,
                    Some(i1) => if i1 < s.len() && s[i1] == 116u8 {
                        match spec_expect(s, i1, spec_lit_true()) {
                            None => None,
                            Some(i2) => spec_parse_scope_part(s, i2, key, true),
                        }
                    } else if i1 < s.len() && s[i1] == 102u8 {
                        match spec_expect(s, i1, spec_lit_false()) {
                            None => None,
                            Some(i2) => spec_parse_scope_part(s, i2, key, false),
                        }
                    } else {
                        None
                    },
                },
            }
        },
    }
}

/// The scope and signature part of a follow record from offset `i` on.
#[verifier::opaque]
pub open spec fn spec_parse_scope_part(s: Seq<u8>, i: int, key: Seq<u8>, trustworthy: bool) -> Option<
    (Seq<u8>, bool, Scope, i32, Seq<u8>, Seq<u8>),
> {
    match spec_expect(s, i, spec_lit_scope()) {
        None => None,
        Some(i3) => {
            let scope_opt: Option<Scope> = if i3 < s.len() && s[i3] == 82u8 {
                Some(Scope::Reviewer)
            } else if i3 < s.len() && s[i3] == 68u8 {
                Some(Scope::Developer)
            } else if i3 < s.len() && s[i3] == 65u8 {
                Some(Scope::Auditor)
            } else {
                None
            };
            match scope_opt {
                None => None,
                Some(scope) => match spec_expect(s, i3, scope.spec_text()) {
                    None => None,
                    Some(i4) => match spec_expect(s, i4, spec_lit_sig()) {
                        None => None,
                        Some(i5) => match spec_parse_sig_tail(s, i5, key) {
                            None => None,
                            Some(p) => Some((p.0, trustworthy, scope, p.1, p.2, p.3)),
                        },
                    },
                },
            }
        },
    }
}

impl FollowSchema {
    /// A parsed subject key, a plausible signature triple.
    pub open spec fn wf(self) -> bool {
        self.id.wf() && sig_wf((self.sig.0, self.sig.1@, self.sig.2@))
    }

    /// The digest this attestation signs.
    pub open spec fn spec_digest(self) -> Seq<u8> {
        spec_follow_digest(self.id.key@, self.is_trustworthy, self.scope)
    }

    /// Compute the signed digest.
    pub fn digest(&self) -> (r: Vec<u8>)
        requires
            self.wf(),
        ensures
            r@ == self.spec_digest(),
            r@.len() == 32,
    {
        let mut preimage = self.id.key.clone();
        preimage.push(if self.is_trustworthy {
            1
        } else {
            0
        });
        preimage.push(self.scope.as_byte());
        keccak_digest(&preimage)
    }

    /// Build and sign a follow attestation with a freshly generated key pair.
    /// This succeeds exactly on a well-formed DID; the fresh key always
    /// signs, and the signature it leaves recovers to that key.
    pub fn new(id: &str, is_trustworthy: bool, scope: Scope) -> (r: Result<FollowSchema, TrustError>)
        ensures
            r is Ok <==> spec_did_parse(vstd::utf8::encode_utf8(id@)) is Some,
            match r {
                Ok(f) => {
                    &&& f.wf()
                    &&& spec_did_parse(vstd::utf8::encode_utf8(id@)) == Some(f.id.key@)
                    &&& f.is_trustworthy == is_trustworthy
                    &&& f.scope == scope
                    &&& exists|sk: Seq<u8>|
                        {
                            &&& (f.sig.0, f.sig.1@, f.sig.2@) == spec_sign(f.spec_digest(), sk)
                            &&& spec_recover_key(f.spec_digest(), f.sig.0, f.sig.1@, f.sig.2@)
                                == Some(#[trigger] spec_pubkey_of(sk))
                            &&& spec_sig_valid(
                                f.spec_digest(),
                                f.sig.0,
                                f.sig.1@,
                                f.sig.2@,
                                spec_pubkey_of(sk),
                            )
                        }
                },
                Err(e) => e == TrustError::ParseError,
            },
    {
        let did = match Did::parse(id) {
            Ok(d) => d,
            Err(e) => {
                return Err(e);
            },
        };
        let (sk, _pk) = generate_keypair();
        let probe = FollowSchema {
            id: Did { key: did.key },
            is_trustworthy,
            scope,
            sig: (0, sk.clone(), sk.clone()),
        };
        let digest = probe.digest();
        let sig = match sign_recoverable(&digest, &sk) {
            Some(s) => s,
            None => {
                proof {
                    assert(false);
                }
                return Err(TrustError::ParseError);
            },
        };
        let f = FollowSchema { id: probe.id, is_trustworthy, scope, sig };
        proof {
            assert(f.spec_digest() == probe.spec_digest());
            assert((f.sig.0, f.sig.1@, f.sig.2@) == spec_sign(f.spec_digest(), sk@));
        }
        Ok(f)
    }

    /// The canonical record text of this attestation.
    pub fn encode(&self) -> (r: Vec<u8>)
        requires
            self.wf(),
        ensures
            r@ == spec_encode_follow(
                self.id.key@,
                self.is_trustworthy,
                self.scope,
                self.sig.0,
                self.sig.1@,
                self.sig.2@,
            ),
    {
        let mut r = lit_id();
        let mut part = self.id.encode_bytes();
        r.append(&mut part);
        let mut part = lit_trust();
        r.append(&mut part);
        let mut part = if self.is_trustworthy {
            lit_true()
        } else {
            lit_false()
        };
        r.append(&mut part);
        let mut part = lit_scope();
        r.append(&mut part);
        let mut part = self.scope.text();
        r.append(&mut part);
        let mut part = lit_sig();
        r.append(&mut part);
        append_sig(&mut r, &self.sig);
        assert(r@ =~= spec_encode_follow(
            self.id.key@,
            self.is_trustworthy,
            self.scope,
            self.sig.0,
            self.sig.1@,
            self.sig.2@,
        ));
        r
    }

    /// Read a follow attestation back; only the canonical spelling parses.
    pub fn parse(s: &Vec<u8>) -> (r: Result<FollowSchema, TrustError>)
        ensures
            match r {
                Ok(f) => f.wf() && spec_parse_follow(s@) == Some(
                    (f.id.key@, f.is_trustworthy, f.scope, f.sig.0, f.sig.1@, f.sig.2@),
                ),
                Err(e) => e == TrustError::ParseError && spec_parse_follow(s@) is None,
            },
    {
        proof {
            reveal(spec_parse_follow);
            reveal(spec_parse_scope_part);
        }
        let l = lit_id();
        let i0 = match expect_lit(s, 0, &l) {
            Some(i) => i,
            None => {
                return Err(TrustError::ParseError);
            },
        };
        if s.len() - i0 < 52 {
            return Err(TrustError::ParseError);
        }
        let didseg = copy_range(s, i0, i0 + 52);
        let did = match Did::parse_bytes(&didseg) {
            Ok(d) => d,
            Err(_) => {
                return Err(TrustError::ParseError);
            },
        };
        let l = lit_trust();
        let i1 = match expect_lit(s, i0 + 52, &l) {
            Some(i) => i,
            None => {
                return Err(TrustError::ParseError);
            },
        };
        if i1 >= s.len() {
            return Err(TrustError::ParseError);
        }
        let b = s[i1];
        let (is_trustworthy, i2) = if b == 116 {
            let l = lit_true();
            match expect_lit(s, i1, &l) {
                Some(i) => (true, i),
                None => {
                    return Err(TrustError::ParseError);
                },
            }
        } else if b == 102 {
            let l = lit_false();
            match expect_lit(s, i1, &l) {
                Some(i) => (false, i),
                None => {
                    return Err(TrustError::ParseError);
                },
            }
        } else {
            return Err(TrustError::ParseError);
        };
        let l = lit_scope();
        let i3 = match expect_lit(s, i2, &l) {
            Some(i) => i,
            None => {
                return Err(TrustError::ParseError);
            },
        };
        if i3 >= s.len() {
            return Err(TrustError::ParseError);
        }
        let c = s[i3];
        let scope = if c == 82 {
            Scope::Reviewer
        } else if c == 68 {
            Scope::Developer
        } else if c == 65 {
            Scope::Auditor
        } else {
            return Err(TrustError::ParseError);
        };
        let word = scope.text();
        let i4 = match expect_lit(s, i3, &word) {
            Some(i) => i,
            None => {
                return Err(TrustError::ParseError);
            },
        };
        let l = lit_sig();
        let i5 = match expect_lit(s, i4, &l) {
            Some(i) => i,
            None => {
                return Err(TrustError::ParseError);
            },
        };
        match parse_sig_tail(s, i5) {
            Ok(sig) => Ok(FollowSchema { id: did, is_trustworthy, scope, sig }),
            Err(e) => Err(e),
        }
    }

    /// Recover the signer and re-verify the signature against the recovered
    /// key.
    pub fn validate(&self) -> (r: Result<(Vec<u8>, bool), TrustError>)
        requires
            self.wf(),
        ensures
            match r {
                Ok(pv) => {
                    &&& spec_recover_key(self.spec_digest(), self.sig.0, self.sig.1@, self.sig.2@)
                        == Some(pv.0@)
                    &&& pv.0@.len() == 65
                    &&& pv.1 == spec_sig_valid(
                        self.spec_digest(),
                        self.sig.0,
                        self.sig.1@,
                        self.sig.2@,
                        pv.0@,
                    )
                },
                Err(e) => e == TrustError::VerificationError && spec_recover_key(
                    self.spec_digest(),
                    self.sig.0,
                    self.sig.1@,
                    self.sig.2@,
                ) is None,
            },
    {
        let digest = self.digest();
        recover_and_verify(&digest, &self.sig)
    }

    /// Derive the edge this attestation stands for: signer trusts subject,
    /// weight 50 in domain 1.  A signature that fails to recover or verify is
    /// a [`TrustError::VerificationError`] and yields no edge.
    pub fn into_term(self) -> (r: Result<Term, TrustError>)
        requires
            self.wf(),
        ensures
            match r {
                Ok(t) => {
                    &&& spec_recover_key(self.spec_digest(), self.sig.0, self.sig.1@, self.sig.2@)
                        matches Some(pk) && t.from@ == spec_address_of(pk) && spec_sig_valid(
                        self.spec_digest(),
                        self.sig.0,
                        self.sig.1@,
                        self.sig.2@,
                        pk,
                    )
                    &&& t.to@ == self.id.key@
                    &&& t.weight == 50
                    &&& t.domain == 1
                    &&& t.positive == true
                    &&& t.wf()
                },
                Err(e) => {
                    &&& e == TrustError::VerificationError
                    &&& match spec_recover_key(
                        self.spec_digest(),
                        self.sig.0,
                        self.sig.1@,
                        self.sig.2@,
                    ) {
                        Some(pk) => !spec_sig_valid(
                            self.spec_digest(),
                            self.sig.0,
                            self.sig.1@,
                            self.sig.2@,
                            pk,
                        ),
                        None => true,
                    }
                },
            },
    {
        let digest = self.digest();
        let (pk, valid) = match recover_and_verify(&digest, &self.sig) {
            Ok(p) => p,
            Err(e) => {
                return Err(e);
            },
        };
        if !valid {
            return Err(TrustError::VerificationError);
        }
        let from = address_from_ecdsa_key(&pk);
        Ok(Term::new(from, self.id.key, 50, 1, true))
    }
}

/// The scope and signature part parses wherever a record carries it after a
/// prefix.
#[verifier::rlimit(100)]
pub proof fn lemma_scope_part_at(
    prefix: Seq<u8>,
    key: Seq<u8>,
    trustworthy: bool,
    scope: Scope,
    rid: i32,
    rb: Seq<u8>,
    sb: Seq<u8>,
)
    requires
        0 <= rid < 10,
        rb.len() == 32,
        sb.len() == 32,
    ensures
        spec_parse_scope_part(
            prefix + spec_lit_scope() + scope.spec_text() + spec_lit_sig()
                + crate::schemas::spec_sig_text(rid, rb, sb),
            prefix.len() as int,
            key,
            trustworthy,
        ) == Some((key, trustworthy, scope, rid, rb, sb)),
{
    reveal(spec_parse_scope_part);
    let s = prefix + spec_lit_scope() + scope.spec_text() + spec_lit_sig()
        + crate::schemas::spec_sig_text(rid, rb, sb);
    let i2 = prefix.len() as int;
    let wl = scope.spec_text().len() as int;
    let i3 = i2 + 10;
    let i4 = i3 + wl;
    let i5 = i4 + 9;
    let prefix2 = prefix + spec_lit_scope() + scope.spec_text() + spec_lit_sig();
    assert(s == prefix2 + crate::schemas::spec_sig_text(rid, rb, sb));
    crate::schemas::lemma_sig_tail_at(prefix2, key, rid, rb, sb);
    assert(spec_parse_sig_tail(s, i5, key) == Some((key, rid, rb, sb)));
    assert(s.subrange(i2, i3) =~= spec_lit_scope());
    assert(spec_expect(s, i2, spec_lit_scope()) == Some(i3));
    assert(s.subrange(i3, i4) =~= scope.spec_text());
    assert(s[i3] == scope.spec_text()[0]);
    assert(spec_expect(s, i3, scope.spec_text()) == Some(i4));
    assert(s.subrange(i4, i5) =~= spec_lit_sig());
    assert(spec_expect(s, i4, spec_lit_sig()) == Some(i5));
}

/// Parsing a follow record inverts encoding it.
#[verifier::rlimit(100)]
pub proof fn lemma_follow_roundtrip(
    key: Seq<u8>,
    trustworthy: bool,
    scope: Scope,
    rid: i32,
    rb: Seq<u8>,
    sb: Seq<u8>,
)
    requires
        key.len() == 20,
        0 <= rid < 10,
        rb.len() == 32,
        sb.len() == 32,
    ensures
        spec_parse_follow(spec_encode_follow(key, trustworthy, scope, rid, rb, sb)) == Some(
            (key, trustworthy, scope, rid, rb, sb),
        ),
{
    reveal(spec_parse_follow);
    let s = spec_encode_follow(key, trustworthy, scope, rid, rb, sb);
    let bool_text = if trustworthy {
        spec_lit_true()
    } else {
        spec_lit_false()
    };
    let bl = bool_text.len() as int;
    let i1: int = 78;
    let i2 = i1 + bl;
    let head = spec_lit_id() + crate::did::spec_did_encode(key) + spec_lit_trust() + bool_text;
    assert(head.len() == i2);
    assert(s == head + spec_lit_scope() + scope.spec_text() + spec_lit_sig()
        + crate::schemas::spec_sig_text(rid, rb, sb));
    lemma_scope_part_at(head, key, trustworthy, scope, rid, rb, sb);
    assert(spec_parse_scope_part(s, i2, key, trustworthy) == Some(
        (key, trustworthy, scope, rid, rb, sb),
    ));
    assert(s.subrange(0, 7) =~= spec_lit_id());
    assert(spec_expect(s, 0, spec_lit_id()) == Some(7int));
    assert(s.subrange(7, 59) =~= crate::did::spec_did_encode(key));
    crate::did::lemma_did_roundtrip(key);
    assert(crate::did::spec_did_parse(s.subrange(7, 59)) == Some(key));
    assert(s.subrange(59, i1) =~= spec_lit_trust());
    assert(spec_expect(s, 59, spec_lit_trust()) == Some(i1));
    assert(s.subrange(i1, i2) =~= bool_text);
    assert(s[i1] == bool_text[0]);
    assert(spec_expect(s, i1, bool_text) == Some(i2));
}

} // verus!
