//! Why a sync or a fold was abandoned.

use crate::types::{Address, H256};
use vstd::prelude::*;

verus! {

/// The chain provider could not answer.
#[derive(Clone, Copy, Debug, PartialEq, Eq)]
pub enum QueryError {
    /// The query for the "input added" events of `dapp` at `contract`.
    Logs { contract: Address, dapp: Address },
    /// The query for the block with this hash.
    Block { hash: H256 },
}

/// A block disagrees with the metadata of a log said to be in it.
#[derive(Clone, Copy, Debug, PartialEq, Eq)]
pub enum IntegrityError {
    BlockHash { meta_hash: H256, block_hash: H256 },
    BlockNumber { meta_number: u64, block_number: u64 },
}

/// The payload of an input could not be obtained.
#[derive(Clone, Copy, Debug, PartialEq, Eq)]
pub enum EnrichmentError {
    /// The data-availability service gave no answer to read.
    Retrieval,
    /// The answer is not JSON.
    MalformedJson,
    /// The answer holds no string at `data[0].blob`.
    MissingBlob,
    /// The blob does not start with `0x`.
    MissingPrefix,
    /// What follows `0x` is not an even number of hexadecimal digits.
    InvalidHex,
}

/// Any failure of a sync or a fold. None leaves a partial state behind.
#[derive(Clone, Copy, Debug, PartialEq, Eq)]
pub enum FoldableError {
    Query(QueryError),
    Integrity(IntegrityError),
    /// The payload of an input of block `block_number` could not be had.
    Enrichment { block_number: u64, cause: EnrichmentError },
}

} // verus!
