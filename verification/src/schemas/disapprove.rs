//! The audit-disapproval attestation.

use vstd::prelude::*;

use crate::crypto::{spec_address_of, spec_recover_key, spec_sig_valid, address_from_ecdsa_key};
use crate::did::Did;
use crate::errors::TrustError;
use crate::schemas::{encode_plain, parse_plain, recover_and_verify, sig_wf, spec_encode_plain,
    spec_parse_plain, spec_tagged_digest, tagged_digest};
use crate::term::Term;

verus! {

/// An audit disapproval of the subject named by the DID.
pub struct AuditDisapproveSchema {
    pub id: Did,
    pub sig: (i32, Vec<u8>, Vec<u8>),
}

impl AuditDisapproveSchema {
    /// A parsed subject key and a plausible signature triple.
    pub open spec fn wf(self) -> bool {
        self.id.wf() && sig_wf((self.sig.0, self.sig.1@, self.sig.2@))
    }

    /// The digest this schema signs: the subject key tagged with its domain.
    pub open spec fn spec_digest(self) -> Seq<u8> {
        spec_tagged_digest(self.id.key@, 3)
    }

    /// The canonical record text of this attestation.
    pub fn encode(&self) -> (r: Vec<u8>)
        requires
            self.wf(),
        ensures
            r@ == spec_encode_plain(self.id.key@, self.sig.0, self.sig.1@, self.sig.2@),
    {
        encode_plain(&self.id, &self.sig)
    }

    /// Read an attestation back from canonical record text.
    pub fn parse(bytes: &Vec<u8>) -> (r: Result<AuditDisapproveSchema, TrustError>)
        ensures
            match r {
                Ok(a) => a.wf() && spec_parse_plain(bytes@) == Some(
                    (a.id.key@, a.sig.0, a.sig.1@, a.sig.2@),
                ),
                Err(e) => e == TrustError::ParseError && spec_parse_plain(bytes@) is None,
            },
    {
        match parse_plain(bytes) {
            Ok((id, sig)) => Ok(AuditDisapproveSchema { id, sig }),
            Err(e) => Err(e),
        }
    }

    /// Recover the signer and re-verify the signature against the recovered
    /// key.
    pub fn validate(&self) -> (r: Result<(Vec<u8>, bool), TrustError>)
        requires
            self.wf(),
        ensures
            match r {
                Ok(pv) => {
                    &&& spec_recover_key(self.spec_digest(), self.sig.0, self.sig.1@, self.sig.2@)
                        == Some(pv.0@)
                    &&& pv.0@.len() == 65
                    &&& pv.1 == spec_sig_valid(
                        self.spec_digest(),
                        self.sig.0,
                        self.sig.1@,
                        self.sig.2@,
                        pv.0@,
                    )
                },
                Err(e) => e == TrustError::VerificationError && spec_recover_key(
                    self.spec_digest(),
                    self.sig.0,
                    self.sig.1@,
                    self.sig.2@,
                ) is None,
            },
    {
        let digest = tagged_digest(&self.id.key, 3);
        recover_and_verify(&digest, &self.sig)
    }

    /// Derive the edge this attestation stands for: signer disapproves subject:
    /// a negative edge of weight 50 in domain 3.  A signature that fails to recover or verify is
    /// a [`TrustError::VerificationError`] and yields no edge.
    pub fn into_term(self) -> (r: Result<Term, TrustError>)
        requires
            self.wf(),
        ensures
            match r {
                Ok(t) => {
                    &&& spec_recover_key(self.spec_digest(), self.sig.0, self.sig.1@, self.sig.2@)
                        matches Some(pk) && t.from@ == spec_address_of(pk) && spec_sig_valid(
                        self.spec_digest(),
                        self.sig.0,
                        self.sig.1@,
                        self.sig.2@,
                        pk,
                    )
                    &&& t.to@ == self.id.key@
                    &&& t.weight == 50
                    &&& t.domain == 3
                    &&& t.positive == false
                    &&& t.wf()
                },
                Err(e) => {
                    &&& e == TrustError::VerificationError
                    &&& match spec_recover_key(
                        self.spec_digest(),
                        self.sig.0,
                        self.sig.1@,
                        self.sig.2@,
                    ) {
                        Some(pk) => !spec_sig_valid(
                            self.spec_digest(),
                            self.sig.0,
                            self.sig.1@,
                            self.sig.2@,
                            pk,
                        ),
                        None => true,
                    }
                },
            },
    {
        let digest = tagged_digest(&self.id.key, 3);
        let (pk, valid) = match recover_and_verify(&digest, &self.sig) {
            Ok(p) => p,
            Err(e) => {
                return Err(e);
            },
        };
        if !valid {
            return Err(TrustError::VerificationError);
        }
        let from = address_from_ecdsa_key(&pk);
        Ok(Term::new(from, self.id.key, 50, 3, false))
    }
}

} // verus!
