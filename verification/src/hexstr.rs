//! Hexadecimal text for 20-byte addresses.
//!
//! Addresses cross the wire as hex strings; the stores key them by their raw
//! bytes.  Encoding emits lowercase digits; decoding accepts either case.

use vstd::prelude::*;

verus! {

/// Is `b` the ASCII code of a hex digit?
pub open spec fn is_hex_digit(b: u8) -> bool {
    (48 <= b <= 57) || (97 <= b <= 102) || (65 <= b <= 70)
}

/// The value of a hex digit.
pub open spec fn hex_val(b: u8) -> u8
    recommends
        is_hex_digit(b),
{
    if 48 <= b <= 57 {
        (b - 48) as u8
    } else if 97 <= b <= 102 {
        (b - 87) as u8
    } else if 65 <= b <= 70 {
        (b - 55) as u8
    } else {
        0
    }
}

/// The lowercase digit of a value below 16.
pub open spec fn hex_digit(n: u8) -> u8
    recommends
        n < 16,
{
    if n < 10 {
        (48 + n) as u8
    } else {
        (87 + n) as u8
    }
}

/// The lowercase hex image of a byte string: two digits per byte.
pub open spec fn spec_hex_encode(bs: Seq<u8>) -> Seq<u8> {
    Seq::new(
        2 * bs.len(),
        |i: int|
            if i % 2 == 0 {
                hex_digit(bs[i / 2] / 16)
            } else {
                hex_digit((bs[i / 2] % 16) as u8)
            },
    )
}

/// Whether a byte string is well-formed hex text: even length, digits only.
pub open spec fn is_hex_text(s: Seq<u8>) -> bool {
    s.len() % 2 == 0 && (forall|i: int| 0 <= i < s.len() ==> is_hex_digit(#[trigger] s[i]))
}

/// The bytes hex text stands for.
pub open spec fn spec_hex_decode(s: Seq<u8>) -> Seq<u8>
    recommends
        is_hex_text(s),
{
    Seq::new(s.len() / 2, |i: int| (hex_val(s[2 * i]) * 16 + hex_val(s[2 * i + 1])) as u8)
}

/// Decoding inverts encoding.
pub proof fn lemma_hex_roundtrip(bs: Seq<u8>)
    ensures
        is_hex_text(spec_hex_encode(bs)),
        spec_hex_decode(spec_hex_encode(bs)) == bs,
{
    let enc = spec_hex_encode(bs);
    assert forall|i: int| 0 <= i < enc.len() implies is_hex_digit(#[trigger] enc[i]) by {
        assert(bs[i / 2] / 16 < 16);
    };
    assert forall|i: int| 0 <= i < bs.len() implies spec_hex_decode(enc)[i] == bs[i] by {
        assert(enc[2 * i] == hex_digit(bs[i] / 16));
        assert(enc[2 * i + 1] == hex_digit((bs[i] % 16) as u8));
        assert(hex_val(hex_digit(bs[i] / 16)) == bs[i] / 16);
        assert(hex_val(hex_digit((bs[i] % 16) as u8)) == bs[i] % 16);
        assert(bs[i] / 16 * 16 + bs[i] % 16 == bs[i]);
    };
    assert(spec_hex_decode(enc) =~= bs);
}

/// Emit the lowercase hex text of `bs`.
pub fn hex_encode(bs: &Vec<u8>) -> (r: Vec<u8>)
    ensures
        r@ == spec_hex_encode(bs@),
{
    let mut r: Vec<u8> = Vec::new();
    let mut i: usize = 0;
    while i < bs.len()
        invariant
            i <= bs.len(),
            r@.len() == 2 * i,
            forall|j: int| 0 <= j < r@.len() ==> r@[j] == spec_hex_encode(bs@)[j],
        decreases bs.len() - i,
    {
        let b = bs[i];
        let hi = b / 16;
        let lo = b % 16;
        r.push(if hi < 10 { 48 + hi } else { 87 + hi });
        r.push(if lo < 10 { 48 + lo } else { 87 + lo });
        i = i + 1;
    }
    assert(r@ =~= spec_hex_encode(bs@));
    r
}

/// Read hex text back into bytes; `None` on odd length or a stray character.
pub fn hex_decode(s: &Vec<u8>) -> (r: Option<Vec<u8>>)
    ensures
        match r {
            Some(v) => is_hex_text(s@) && v@ == spec_hex_decode(s@),
            None => !is_hex_text(s@),
        },
{
    if s.len() % 2 != 0 {
        return None;
    }
    let mut r: Vec<u8> = Vec::new();
    let mut i: usize = 0;
    while i < s.len()
        invariant
            s@.len() % 2 == 0,
            i <= s.len(),
            i % 2 == 0,
            r@.len() == i / 2,
            forall|j: int| 0 <= j < i ==> is_hex_digit(#[trigger] s@[j]),
            forall|j: int| 0 <= j < r@.len() ==> r@[j] == (hex_val(s@[2 * j]) * 16 + hex_val(
                s@[2 * j + 1],
            )) as u8,
        decreases s.len() - i,
    {
        let hi = s[i];
        let lo = s[i + 1];
        let hv = if 48 <= hi && hi <= 57 {
            hi - 48
        } else if 97 <= hi && hi <= 102 {
            hi - 87
        } else if 65 <= hi && hi <= 70 {
            hi - 55
        } else {
            return None;
        };
        let lv = if 48 <= lo && lo <= 57 {
            lo - 48
        } else if 97 <= lo && lo <= 102 {
            lo - 87
        } else if 65 <= lo && lo <= 70 {
            lo - 55
        } else {
            return None;
        };
        r.push(hv * 16 + lv);
        i = i + 2;
    }
    assert(r@ =~= spec_hex_decode(s@));
    Some(r)
}

} // verus!
