//! Reconstruction of the inputs submitted to an input-box contract, grouped by
//! the application that receives them.
//!
//! A state is built once from the whole event history (`InputBox::sync`) and
//! then advanced one block at a time (`InputBox::fold`). Every state is an
//! immutable value; a step returns a new one and leaves the old one valid.

pub mod blob;
pub mod bloom;
pub mod bytes;
pub mod error;
pub mod fold;
pub mod hexcode;
pub mod json;
pub mod laws;
pub mod order;
pub mod store;
pub mod types;

pub use blob::{blob_of_answer, blob_sidecar_url, decode_blob, extract_blob_sidecar};
pub use error::{EnrichmentError, FoldableError, IntegrityError, QueryError};
pub use fold::{
    fetch_all_new_inputs, input_added_query, meta_consistent_with_block, updated_inputs,
    EventQuery, InputBox, InputBoxView, QueryScope,
};
pub use json::Json;
pub use order::{log_le, log_order};
pub use store::{DAppInputBox, DAppInputBoxes};
pub use types::{
    Address, Block, Bloom, FetchedEvent, Input, InputBoxInitialState, InputView, LogMeta,
    TxHash, H256,
};
