//! The log summary of a block: what it may hold, and what it cannot.
//!
//! A summary never misses an address or topic of a log in its block. It may
//! admit one that is in no log.

use crate::types::{Address, Bloom, H256};
use vstd::prelude::*;

verus! {

/// Whether the summary `bloom` admits `input`: whether each bit that the
/// Keccak-256 hash of `input` selects is set in it.
pub uninterp spec fn bloom_admits(bloom: Seq<u8>, input: Seq<u8>) -> bool;

/// The topic under which an address is indexed in a log: the address at the
/// end of a 32-byte word, behind twelve zero bytes.
pub open spec fn spec_address_topic(address: Seq<u8>) -> Seq<u8> {
    Seq::new(32, |i: int| if i < 12 { 0u8 } else { address[i - 12] })
}

/// `ethbloom::BloomRef::contains_input` on raw bytes: the membership test
/// of the summary.
#[verifier::external_body]
fn bloom_contains_input(bloom: &Bloom, input: &[u8]) -> (r: bool)
    ensures
        r == bloom_admits(bloom@, input@),
{
    let summary = eth_state_fold_types::ethereum_types::BloomRef::from(bloom);
    summary.contains_input(eth_state_fold_types::ethereum_types::BloomInput::Raw(input))
}

/// Whether a log of the contract at `address` may be in the block.
pub fn contains_address(bloom: &Bloom, address: &Address) -> (r: bool)
    ensures
        r == bloom_admits(bloom@, address@),
{
    bloom_contains_input(bloom, address.as_slice())
}

/// Whether a log with `topic` may be in the block.
pub fn contains_topic(bloom: &Bloom, topic: &H256) -> (r: bool)
    ensures
        r == bloom_admits(bloom@, topic@),
{
    bloom_contains_input(bloom, topic.as_slice())
}

/// The topic under which `address` is indexed.
pub fn address_topic(address: &Address) -> (topic: H256)
    ensures
        topic@ == spec_address_topic(address@),
{
    let mut topic: H256 = [0u8; 32];
    let mut i: usize = 0;
    while i < 20
        invariant
            i <= 20,
            forall|j: int| 0 <= j < 12 ==> topic@[j] == 0u8,
            forall|j: int| 12 <= j < 12 + i ==> topic@[j] == address@[j - 12],
        decreases 20 - i,
    {
        topic[i + 12] = address[i];
        i += 1;
    }
    assert(topic@ =~= spec_address_topic(address@));
    topic
}

} // verus!
