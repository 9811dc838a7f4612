//! Error taxonomy shared by the transformer and the linear combiner.

use vstd::prelude::*;

verus! {

/// Every failure a pipeline call can report.  All of them abort the current
/// call and leave persisted checkpoints unchanged, so the next call retries
/// from the same point.
#[derive(Clone, Copy, Debug, PartialEq, Eq, Structural)]
pub enum TrustError {
    /// Malformed attestation payload.
    ParseError,
    /// Signature recovery or verification failure.
    VerificationError,
    /// Schema id outside the closed enumeration of attestation kinds.
    UnsupportedSchema,
    /// Key-value engine failure.
    StorageError,
    /// An expected record is missing.
    NotFoundError,
    /// Indexer stream id does not match the running counter.
    SequenceGapError,
    /// Requested batch is larger than the fixed maximum.
    BatchSizeExceeded,
}

} // verus!
