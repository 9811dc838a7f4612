//! The canonical trust-graph edge and its persistent binary form.
//!
//! A `Term` is a directed, weighted, domain-tagged edge derived from one
//! verified attestation.  The store keeps it as 49 bytes: the two 20-byte
//! addresses, the 4-byte big-endian weight and domain, and one polarity byte.

use vstd::prelude::*;
use vstd::utf8::encode_utf8;

use crate::bytes::{lemma_u32_be_roundtrip, spec_u32_from_be, spec_u32_to_be, u32_from_be, u32_to_be};
use crate::errors::TrustError;
use crate::hexstr::{hex_encode, spec_hex_encode};
use crate::strings::ascii_to_string;

verus! {

/// A directed, weighted, domain-tagged edge of the trust graph.
#[derive(Clone, Debug, PartialEq, Eq)]
pub struct Term {
    pub from: Vec<u8>,
    pub to: Vec<u8>,
    pub weight: u32,
    pub domain: u32,
    pub positive: bool,
}

/// The same edge as it crosses the wire: addresses as lowercase hex text.
#[derive(Clone, Debug, PartialEq, Eq)]
pub struct TermObject {
    pub from: String,
    pub to: String,
    pub weight: u32,
}

impl Term {
    /// Both addresses hold exactly 20 bytes.
    pub open spec fn wf(self) -> bool {
        self.from@.len() == 20 && self.to@.len() == 20
    }

    /// Build an edge from its parts.
    pub fn new(from: Vec<u8>, to: Vec<u8>, weight: u32, domain: u32, positive: bool) -> (t: Term)
        ensures
            t.from == from,
            t.to == to,
            t.weight == weight,
            t.domain == domain,
            t.positive == positive,
    {
        Term { from, to, weight, domain, positive }
    }
}

/// The 49-byte persistent image of an edge.
pub open spec fn spec_term_encode(
    from: Seq<u8>,
    to: Seq<u8>,
    weight: u32,
    domain: u32,
    positive: bool,
) -> Seq<u8> {
    from + to + spec_u32_to_be(weight) + spec_u32_to_be(domain) + seq![
        if positive {
            1u8
        } else {
            0u8
        },
    ]
}

/// The edge a 49-byte record stands for, when well-formed.
pub open spec fn spec_term_decode(s: Seq<u8>) -> Option<(Seq<u8>, Seq<u8>, u32, u32, bool)> {
    if s.len() == 49 && (s[48] == 0u8 || s[48] == 1u8) {
        Some(
            (
                s.subrange(0, 20),
                s.subrange(20, 40),
                spec_u32_from_be(s.subrange(40, 44)),
                spec_u32_from_be(s.subrange(44, 48)),
                s[48] == 1u8,
            ),
        )
    } else {
        None
    }
}

/// Decoding inverts encoding: the persistent image of a well-formed edge
/// reads back equal in every field.
pub proof fn lemma_term_roundtrip(from: Seq<u8>, to: Seq<u8>, weight: u32, domain: u32, positive: bool)
    requires
        from.len() == 20,
        to.len() == 20,
    ensures
        spec_term_decode(spec_term_encode(from, to, weight, domain, positive)) == Some(
            (from, to, weight, domain, positive),
        ),
{
    let s = spec_term_encode(from, to, weight, domain, positive);
    assert(s.len() == 49);
    assert(s[48] == if positive { 1u8 } else { 0u8 });
    assert(s.subrange(0, 20) =~= from);
    assert(s.subrange(20, 40) =~= to);
    assert(s.subrange(40, 44) =~= spec_u32_to_be(weight));
    assert(s.subrange(44, 48) =~= spec_u32_to_be(domain));
    lemma_u32_be_roundtrip(weight);
    lemma_u32_be_roundtrip(domain);
}

impl Term {
    /// The persistent image of this edge.
    pub fn into_bytes(&self) -> (r: Vec<u8>)
        requires
            self.wf(),
        ensures
            r@ == spec_term_encode(self.from@, self.to@, self.weight, self.domain, self.positive),
    {
        let mut r: Vec<u8> = Vec::new();
        let mut from = self.from.clone();
        let mut to = self.to.clone();
        r.append(&mut from);
        r.append(&mut to);
        let mut w = u32_to_be(self.weight);
        r.append(&mut w);
        let mut d = u32_to_be(self.domain);
        r.append(&mut d);
        r.push(if self.positive { 1 } else { 0 });
        assert(r@ =~= spec_term_encode(self.from@, self.to@, self.weight, self.domain, self.positive));
        r
    }

    /// Read an edge back from its persistent image; anything but a
    /// well-formed 49-byte record is a [`TrustError::ParseError`].
    pub fn from_bytes(bytes: &Vec<u8>) -> (r: Result<Term, TrustError>)
        ensures
            match r {
                Ok(t) => {
                    &&& t.wf()
                    &&& spec_term_decode(bytes@) == Some(
                        (t.from@, t.to@, t.weight, t.domain, t.positive),
                    )
                },
                Err(e) => e == TrustError::ParseError && spec_term_decode(bytes@) is None,
            },
    {
        if bytes.len() != 49 {
            return Err(TrustError::ParseError);
        }
        let tag = bytes[48];
        if tag != 0 && tag != 1 {
            return Err(TrustError::ParseError);
        }
        let mut from: Vec<u8> = Vec::new();
        let mut to: Vec<u8> = Vec::new();
        let mut wb: Vec<u8> = Vec::new();
        let mut db: Vec<u8> = Vec::new();
        let mut i: usize = 0;
        while i < 20
            invariant
                i <= 20,
                bytes@.len() == 49,
                from@ == bytes@.subrange(0, i as int),
            decreases 20 - i,
        {
            from.push(bytes[i]);
            assert(from@ =~= bytes@.subrange(0, i + 1 as int));
            i = i + 1;
        }
        let mut i: usize = 20;
        while i < 40
            invariant
                20 <= i <= 40,
                bytes@.len() == 49,
                to@ == bytes@.subrange(20, i as int),
            decreases 40 - i,
        {
            to.push(bytes[i]);
            assert(to@ =~= bytes@.subrange(20, i + 1 as int));
            i = i + 1;
        }
        let mut i: usize = 40;
        while i < 44
            invariant
                40 <= i <= 44,
                bytes@.len() == 49,
                wb@ == bytes@.subrange(40, i as int),
            decreases 44 - i,
        {
            wb.push(bytes[i]);
            assert(wb@ =~= bytes@.subrange(40, i + 1 as int));
            i = i + 1;
        }
        let mut i: usize = 44;
        while i < 48
            invariant
                44 <= i <= 48,
                bytes@.len() == 49,
                db@ == bytes@.subrange(44, i as int),
            decreases 48 - i,
        {
            db.push(bytes[i]);
            assert(db@ =~= bytes@.subrange(44, i + 1 as int));
            i = i + 1;
        }
        let weight = u32_from_be(&wb);
        let domain = u32_from_be(&db);
        Ok(Term { from, to, weight, domain, positive: tag == 1 })
    }

    /// The wire form of this edge: addresses as lowercase hex text.
    pub fn to_object(&self) -> (r: TermObject)
        requires
            self.wf(),
        ensures
            encode_utf8(r.from@) == spec_hex_encode(self.from@),
            encode_utf8(r.to@) == spec_hex_encode(self.to@),
            r.weight == self.weight,
    {
        let from_hex = hex_encode(&self.from);
        let to_hex = hex_encode(&self.to);
        TermObject {
            from: ascii_to_string(from_hex),
            to: ascii_to_string(to_hex),
            weight: self.weight,
        }
    }
}

} // verus!
