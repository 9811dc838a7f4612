//! Trust-graph attestation pipeline.
//!
//! Signed attestations pulled from an event indexer are verified, turned into
//! weighted directed edges (`Term`s) of a global trust graph, and aggregated
//! into a persistent sparse adjacency matrix for a downstream solver.

pub mod bytes;
pub mod combiner;
pub mod crypto;
pub mod did;
pub mod errors;
pub mod hexstr;
pub mod indexer;
pub mod schemas;
pub mod store;
pub mod strings;
pub mod term;
pub mod transformer;
