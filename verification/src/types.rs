//! The plain values the fold works on: addresses, hashes, blocks, log
//! metadata and the input record itself.

use std::sync::Arc;
use vstd::prelude::*;

verus! {

/// A 20-byte account or contract address.
pub type Address = [u8; 20];

/// A 32-byte hash, as of a block.
pub type H256 = [u8; 32];

/// The 32-byte hash of a transaction.
pub type TxHash = [u8; 32];

/// The 2048-bit log summary of a block.
pub type Bloom = [u8; 256];

/// A block of the chain, as far as the fold reads it.
#[derive(Clone, Copy, Debug)]
pub struct Block {
    pub hash: H256,
    pub number: u64,
    pub parent_hash: H256,
    /// 256-bit timestamp, least significant limb first.
    pub timestamp: [u64; 4],
    pub logs_bloom: Bloom,
}

/// Where a log was found.
#[derive(Clone, Copy, Debug)]
pub struct LogMeta {
    pub block_hash: H256,
    pub block_number: u64,
    pub transaction_hash: TxHash,
    pub log_index: u64,
}

/// One "input added" event together with everything that was retrieved for
/// it.
#[derive(Clone, Debug)]
pub struct FetchedEvent {
    /// The account that submitted the input. Where an input is built, this
    /// handle becomes its sender, so it is the one the identity cache holds.
    pub sender: Arc<Address>,
    /// The application the input is addressed to; a handle as for `sender`.
    pub dapp: Arc<Address>,
    pub meta: LogMeta,
    /// The block with hash `meta.block_hash` as the chain provider returned
    /// it; `None` when the provider could not answer or was not asked.
    pub queried_block: Option<Block>,
    /// The body of the data-availability service's answer for the block;
    /// `None` when the request failed or was not answered with success.
    pub blob_response: Option<String>,
}

/// What a tracked input box is created from.
#[derive(Clone, Debug, PartialEq, Eq, Hash)]
pub struct InputBoxInitialState {
    pub dapp_address: Arc<Address>,
    pub input_box_address: Arc<Address>,
}

/// One input, complete with its payload.
#[derive(Clone, Debug)]
pub struct Input {
    pub sender: Arc<Address>,
    pub payload: Vec<u8>,
    pub block_added: Arc<Block>,
    pub dapp: Arc<Address>,
    pub tx_hash: Arc<TxHash>,
}

/// The mathematical content of an `Input`.
pub struct InputView {
    pub sender: Seq<u8>,
    pub payload: Seq<u8>,
    pub block_added: Block,
    pub dapp: Seq<u8>,
    pub tx_hash: Seq<u8>,
}

impl View for Input {
    type V = InputView;

    open spec fn view(&self) -> InputView {
        InputView {
            sender: self.sender@,
            payload: self.payload@,
            block_added: *self.block_added,
            dapp: self.dapp@,
            tx_hash: self.tx_hash@,
        }
    }
}

} // verus!
