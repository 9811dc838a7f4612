//! Indexer-side configuration and the connector client's request shaping.
//!
//! The raw API connector itself only fetches; everything it decides — the
//! request path for a record range, the logging level a word names — is
//! computed here.

use vstd::prelude::*;
use vstd::string::StrSliceExecFns;
use vstd::string::StringExecFns;
use vstd::utf8::encode_utf8;

use crate::strings::ascii_to_string;

verus! {

/// Configuration of the connector client: the API base address.
pub struct MetamaskConnectorClientConfig {
    pub url: String,
}

/// The client that pulls assertion records from the connector API.
pub struct MetamaskConnectorClient {
    pub config: MetamaskConnectorClientConfig,
}

/// The decimal digits of `n`.
pub open spec fn spec_dec_bytes(n: nat) -> Seq<u8>
    decreases n,
{
    if n < 10 {
        seq![(48 + n) as u8]
    } else {
        spec_dec_bytes(n / 10).push((48 + n % 10) as u8)
    }
}

/// Emit the decimal digits of `n`.
pub fn dec_bytes(n: u64) -> (r: Vec<u8>)
    ensures
        r@ == spec_dec_bytes(n as nat),
        forall|i: int| 0 <= i < r@.len() ==> r@[i] < 128,
    decreases n,
{
    if n < 10 {
        let mut r: Vec<u8> = Vec::new();
        r.push(48 + n as u8);
        assert(r@ =~= spec_dec_bytes(n as nat));
        r
    } else {
        let mut r = dec_bytes(n / 10);
        assert(n % 10 < 10) by (nonlinear_arith);
        r.push(48 + (n % 10) as u8);
        r
    }
}

impl MetamaskConnectorClient {
    /// Wrap a configuration.
    pub fn new(config: MetamaskConnectorClientConfig) -> (r: MetamaskConnectorClient)
        ensures
            r.config == config,
    {
        MetamaskConnectorClient { config }
    }

    /// The request path a record query uses: records are numbered from 1, so
    /// the start offset is one past `from` (0 when absent), and the limit
    /// defaults to 1024.
    pub fn query_path(&self, from: Option<u64>, range: Option<u64>) -> (r: String)
        requires
            from is Some ==> (from matches Some(f) && f < u64::MAX),
        ensures
            ({
                let offset: nat = match from {
                    Some(f) => (f + 1) as nat,
                    None => 1nat,
                };
                let limit: nat = match range {
                    Some(l) => l as nat,
                    None => 1024nat,
                };
                r@ == self.config.url@ + "/assertions/?from="@ + spec_dec_bytes(
                    offset,
                ).map_values(|b: u8| b as char) + "&to="@ + spec_dec_bytes(limit).map_values(
                    |b: u8| b as char,
                )
            }),
    {
        let offset: u64 = match from {
            Some(f) => f + 1,
            None => 1,
        };
        let limit: u64 = match range {
            Some(l) => l,
            None => 1024,
        };
        let mut r = self.config.url.clone();
        r.append("/assertions/?from=");
        let off_text = ascii_to_string(dec_bytes(offset));
        r.append(off_text.as_str());
        r.append("&to=");
        let lim_text = ascii_to_string(dec_bytes(limit));
        r.append(lim_text.as_str());
        r
    }
}

/// A logging verbosity, from most to least detailed.
#[derive(Clone, Copy, Debug, PartialEq, Eq, Structural)]
pub enum LogLevel {
    Trace,
    Debug,
    Info,
    Warn,
    Error,
}

/// Connection settings of the chain indexer.
pub struct EVMIndexerConfig {
    pub rpc_url: String,
    pub master_registry_contract: String,
    pub from_block: u64,
}

/// Logging settings.
pub struct LoggerConfig {
    pub logger_level: LogLevel,
}

/// Everything the indexer reads from its environment.
pub struct Config {
    pub evm_indexer_config: EVMIndexerConfig,
    pub logger_config: LoggerConfig,
}

/// `s` with every ASCII capital folded to lowercase.
pub open spec fn spec_ascii_lower(s: Seq<u8>) -> Seq<u8> {
    s.map_values(
        |b: u8|
            if 65 <= b <= 90 {
                (b + 32) as u8
            } else {
                b
            },
    )
}

/// The level a word names, compared without regard to ASCII case; `None`
/// for any other word.
pub open spec fn spec_parse_level(s: Seq<u8>) -> Option<LogLevel> {
    let lower = spec_ascii_lower(s);
    if lower == seq![116u8, 114u8, 97u8, 99u8, 101u8] {
        Some(LogLevel::Trace)
    } else if lower == seq![100u8, 101u8, 98u8, 117u8, 103u8] {
        Some(LogLevel::Debug)
    } else if lower == seq![105u8, 110u8, 102u8, 111u8] {
        Some(LogLevel::Info)
    } else if lower == seq![119u8, 97u8, 114u8, 110u8] {
        Some(LogLevel::Warn)
    } else if lower == seq![101u8, 114u8, 114u8, 111u8, 114u8] {
        Some(LogLevel::Error)
    } else {
        None
    }
}

/// Fold ASCII capitals to lowercase.
fn ascii_lower(s: &Vec<u8>) -> (r: Vec<u8>)
    ensures
        r@ == spec_ascii_lower(s@),
{
    let mut r: Vec<u8> = Vec::new();
    let mut i: usize = 0;
    while i < s.len()
        invariant
            i <= s@.len(),
            r@.len() == i,
            forall|j: int| 0 <= j < i ==> r@[j] == spec_ascii_lower(s@)[j],
        decreases s@.len() - i,
    {
        let b = s[i];
        r.push(if 65 <= b && b <= 90 {
            b + 32
        } else {
            b
        });
        i = i + 1;
    }
    assert(r@ =~= spec_ascii_lower(s@));
    r
}

/// Compare a byte string against an expected word.
fn bytes_match(s: &Vec<u8>, word: &Vec<u8>) -> (r: bool)
    ensures
        r == (s@ == word@),
{
    if s.len() != word.len() {
        proof {
            assert(s@ != word@);
        }
        return false;
    }
    let mut i: usize = 0;
    while i < s.len()
        invariant
            s@.len() == word@.len(),
            i <= s@.len(),
            forall|j: int| 0 <= j < i ==> s@[j] == word@[j],
        decreases s@.len() - i,
    {
        if s[i] != word[i] {
            return false;
        }
        i = i + 1;
    }
    assert(s@ =~= word@);
    true
}

/// The level a word names, whatever its ASCII case; `None` for any other
/// word.
pub fn parse_level_from_string(level: &str) -> (r: Option<LogLevel>)
    ensures
        r == spec_parse_level(encode_utf8(level@)),
{
    let bs = level.as_bytes_vec();
    let lower = ascii_lower(&bs);
    let mut word: Vec<u8> = Vec::new();
    word.push(116);
    word.push(114);
    word.push(97);
    word.push(99);
    word.push(101);
    assert(word@ =~= seq![116u8, 114u8, 97u8, 99u8, 101u8]);
    if bytes_match(&lower, &word) {
        return Some(LogLevel::Trace);
    }
    let mut word: Vec<u8> = Vec::new();
    word.push(100);
    word.push(101);
    word.push(98);
    word.push(117);
    word.push(103);
    assert(word@ =~= seq![100u8, 101u8, 98u8, 117u8, 103u8]);
    if bytes_match(&lower, &word) {
        return Some(LogLevel::Debug);
    }
    let mut word: Vec<u8> = Vec::new();
    word.push(105);
    word.push(110);
    word.push(102);
    word.push(111);
    assert(word@ =~= seq![105u8, 110u8, 102u8, 111u8]);
    if bytes_match(&lower, &word) {
        return Some(LogLevel::Info);
    }
    let mut word: Vec<u8> = Vec::new();
    word.push(119);
    word.push(97);
    word.push(114);
    word.push(110);
    assert(word@ =~= seq![119u8, 97u8, 114u8, 110u8]);
    if bytes_match(&lower, &word) {
        return Some(LogLevel::Warn);
    }
    let mut word: Vec<u8> = Vec::new();
    word.push(101);
    word.push(114);
    word.push(114);
    word.push(111);
    word.push(114);
    assert(word@ =~= seq![101u8, 114u8, 114u8, 111u8, 114u8]);
    if bytes_match(&lower, &word) {
        return Some(LogLevel::Error);
    }
    None
}

} // verus!
