//! Decentralized identifiers.
//!
//! A DID of the shape `did:pkh:eth:<40 hex digits>` names an identity by a
//! 20-byte address-like key.  Anything else fails to parse.

use vstd::prelude::*;
use vstd::string::StrSliceExecFns;
use vstd::string::StringSliceAdditionalSpecFns;

use crate::errors::TrustError;
use crate::hexstr::{hex_decode, hex_encode, is_hex_text, lemma_hex_roundtrip, spec_hex_decode,
    spec_hex_encode};

verus! {

/// The bytes of the text `did:pkh:eth:`.
pub open spec fn spec_did_prefix() -> Seq<u8> {
    seq![100u8, 105u8, 100u8, 58u8, 112u8, 107u8, 104u8, 58u8, 101u8, 116u8, 104u8, 58u8]
}

/// A parsed identity reference: exactly 20 key bytes.
#[derive(Clone, Debug)]
pub struct Did {
    pub key: Vec<u8>,
}

impl Did {
    /// The parsed key is always 20 bytes.
    pub open spec fn wf(self) -> bool {
        self.key@.len() == 20
    }
}

/// The key a DID text stands for, when it is well-formed.
pub open spec fn spec_did_parse(s: Seq<u8>) -> Option<Seq<u8>> {
    if s.len() == 52 && s.take(12) == spec_did_prefix() && is_hex_text(s.skip(12)) {
        Some(spec_hex_decode(s.skip(12)))
    } else {
        None
    }
}

/// The canonical text of a 20-byte key: the prefix and 40 lowercase digits.
pub open spec fn spec_did_encode(key: Seq<u8>) -> Seq<u8> {
    spec_did_prefix() + spec_hex_encode(key)
}

/// Parsing inverts encoding.
pub proof fn lemma_did_roundtrip(key: Seq<u8>)
    requires
        key.len() == 20,
    ensures
        spec_did_parse(spec_did_encode(key)) == Some(key),
{
    let s = spec_did_encode(key);
    lemma_hex_roundtrip(key);
    assert(s.take(12) =~= spec_did_prefix());
    assert(s.skip(12) =~= spec_hex_encode(key));
}

/// Build the prefix `did:pkh:eth:`.
fn did_prefix() -> (r: Vec<u8>)
    ensures
        r@ == spec_did_prefix(),
{
    let mut r: Vec<u8> = Vec::new();
    r.push(100);
    r.push(105);
    r.push(100);
    r.push(58);
    r.push(112);
    r.push(107);
    r.push(104);
    r.push(58);
    r.push(101);
    r.push(116);
    r.push(104);
    r.push(58);
    assert(r@ =~= spec_did_prefix());
    r
}

impl Did {
    /// Parse DID text into its 20-byte key; malformed text is a
    /// [`TrustError::ParseError`].
    pub fn parse(value: &str) -> (r: Result<Did, TrustError>)
        ensures
            match r {
                Ok(d) => d.wf() && spec_did_parse(value.spec_bytes()) == Some(d.key@),
                Err(e) => e == TrustError::ParseError && spec_did_parse(value.spec_bytes())
                    is None,
            },
    {
        let bs = value.as_bytes_vec();
        Did::parse_bytes(&bs)
    }

    /// Parse DID text given as raw bytes.
    pub fn parse_bytes(bs: &Vec<u8>) -> (r: Result<Did, TrustError>)
        ensures
            match r {
                Ok(d) => d.wf() && spec_did_parse(bs@) == Some(d.key@),
                Err(e) => e == TrustError::ParseError && spec_did_parse(bs@) is None,
            },
    {
        if bs.len() != 52 {
            return Err(TrustError::ParseError);
        }
        let prefix = did_prefix();
        let mut i: usize = 0;
        while i < 12
            invariant
                i <= 12,
                bs@.len() == 52,
                prefix@ == spec_did_prefix(),
                forall|j: int| 0 <= j < i ==> bs@[j] == spec_did_prefix()[j],
            decreases 12 - i,
        {
            if bs[i] != prefix[i] {
                proof {
                    assert(bs@.take(12)[i as int] != spec_did_prefix()[i as int]);
                }
                return Err(TrustError::ParseError);
            }
            i = i + 1;
        }
        assert(bs@.take(12) =~= spec_did_prefix());
        let mut tail: Vec<u8> = Vec::new();
        let mut j: usize = 12;
        while j < 52
            invariant
                12 <= j <= 52,
                bs@.len() == 52,
                tail@ == bs@.subrange(12, j as int),
            decreases 52 - j,
        {
            tail.push(bs[j]);
            assert(tail@ =~= bs@.subrange(12, j + 1 as int));
            j = j + 1;
        }
        assert(tail@ =~= bs@.skip(12));
        match hex_decode(&tail) {
            Some(key) => Ok(Did { key }),
            None => Err(TrustError::ParseError),
        }
    }

    /// The canonical text of this DID, as bytes.
    pub fn encode_bytes(&self) -> (r: Vec<u8>)
        requires
            self.wf(),
        ensures
            r@ == spec_did_encode(self.key@),
    {
        let mut r = did_prefix();
        let mut hexpart = hex_encode(&self.key);
        r.append(&mut hexpart);
        r
    }
}

} // verus!
