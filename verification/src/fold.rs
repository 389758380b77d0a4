//! Sync and fold: from what was fetched for a block, or for the whole
//! history, to the next state.

use crate::blob::{extract_blob_sidecar, spec_extract_blob};
use crate::bloom::{
    address_topic, bloom_admits, contains_address, contains_topic, spec_address_topic,
};
use crate::bytes::{same_bytes, share};
use crate::error::{EnrichmentError, FoldableError, IntegrityError, QueryError};
use crate::order::{log_order, picked, spec_sort_by_log};
use crate::store::{
    input_lists, insert_in_place, map_clone, map_new, spec_insert_all, DAppInputBoxes,
};
use crate::types::{
    Address, Block, FetchedEvent, Input, InputBoxInitialState, InputView, LogMeta, H256,
};
use std::sync::Arc;
use vstd::prelude::*;

verus! {

/// The inputs sent through one input box, by receiving application.
#[derive(Debug)]
pub struct InputBox {
    pub dapp_address: Arc<Address>,
    pub input_box_address: Arc<Address>,
    pub dapp_input_boxes: Arc<DAppInputBoxes>,
}

/// The mathematical content of an `InputBox`.
pub struct InputBoxView {
    pub dapp_address: Address,
    pub input_box_address: Address,
    /// For each application with inputs, their contents in order.
    pub dapp_input_boxes: Map<Seq<u8>, Seq<InputView>>,
}

impl View for InputBox {
    type V = InputBoxView;

    open spec fn view(&self) -> InputBoxView {
        InputBoxView {
            dapp_address: *self.dapp_address,
            input_box_address: *self.input_box_address,
            dapp_input_boxes: input_lists(*self.dapp_input_boxes),
        }
    }
}

impl Clone for InputBox {
    /// The same state once more; the two share their lists.
    fn clone(&self) -> (r: InputBox)
        ensures
            r == *self,
    {
        InputBox {
            dapp_address: share(&self.dapp_address),
            input_box_address: share(&self.input_box_address),
            dapp_input_boxes: share(&self.dapp_input_boxes),
        }
    }
}

/// The blocks that a query covers.
#[derive(Clone, Copy, Debug, PartialEq, Eq)]
pub enum QueryScope {
    /// Every block up to the one with this number, that one included.
    UpTo { number: u64 },
    /// The one block with this hash.
    Only { hash: H256 },
}

/// A query for the "input added" events of one input box that are addressed
/// to one application.
#[derive(Clone, Copy, Debug, PartialEq, Eq)]
pub struct EventQuery {
    /// The contract whose logs are asked for.
    pub contract: Address,
    /// The first topic of the logs asked for.
    pub event_signature: H256,
    /// Their second topic: the application.
    pub dapp_topic: H256,
    pub scope: QueryScope,
}

/// Whether `query` asks, within `scope`, for the events with signature
/// `event_signature` that the contract at `contract_address` logged for the
/// application at `dapp_address`.
pub open spec fn is_event_query(
    query: EventQuery,
    contract_address: Address,
    dapp_address: Address,
    event_signature: H256,
    scope: QueryScope,
) -> bool {
    &&& query.contract == contract_address
    &&& query.event_signature == event_signature
    &&& query.dapp_topic@ == spec_address_topic(dapp_address@)
    &&& query.scope == scope
}

/// The query for the events of one application at one input box.
pub fn input_added_query(
    contract_address: &Address,
    dapp_address: &Address,
    event_signature: &H256,
    scope: QueryScope,
) -> (query: EventQuery)
    ensures
        is_event_query(query, *contract_address, *dapp_address, *event_signature, scope),
{
    EventQuery {
        contract: *contract_address,
        event_signature: *event_signature,
        dapp_topic: address_topic(dapp_address),
        scope,
    }
}

/// The events that were fetched, where the query for them was answered.
pub open spec fn logs_view(logs: Option<Vec<FetchedEvent>>) -> Option<Seq<FetchedEvent>> {
    match logs {
        Some(events) => Some(events@),
        None => None,
    }
}

/// Whether `block` is the block that `meta` speaks of: first by hash, then
/// by number.
pub open spec fn spec_meta_consistent(meta: LogMeta, block: Block) -> Result<(), IntegrityError> {
    if meta.block_hash@ != block.hash@ {
        Err(IntegrityError::BlockHash { meta_hash: meta.block_hash, block_hash: block.hash })
    } else if meta.block_number != block.number {
        Err(
            IntegrityError::BlockNumber {
                meta_number: meta.block_number,
                block_number: block.number,
            },
        )
    } else {
        Ok(())
    }
}

/// Checks that a log's metadata and the block it is said to be in agree.
pub fn meta_consistent_with_block(meta: &LogMeta, block: &Block) -> (r: Result<
    (),
    IntegrityError,
>)
    ensures
        r == spec_meta_consistent(*meta, *block),
{
    if !same_bytes(meta.block_hash.as_slice(), block.hash.as_slice()) {
        return Err(
            IntegrityError::BlockHash { meta_hash: meta.block_hash, block_hash: block.hash },
        );
    }
    if meta.block_number != block.number {
        return Err(
            IntegrityError::BlockNumber {
                meta_number: meta.block_number,
                block_number: block.number,
            },
        );
    }
    Ok(())
}

/// The block an event belongs to: the one in hand, else the one the
/// provider returned for the hash in the event's metadata.
pub open spec fn spec_resolve_block(fetched: FetchedEvent, block_opt: Option<Block>) -> Result<
    Block,
    FoldableError,
> {
    match block_opt {
        Some(block) => Ok(block),
        None => match fetched.queried_block {
            Some(block) => Ok(block),
            None => Err(FoldableError::Query(QueryError::Block { hash: fetched.meta.block_hash })),
        },
    }
}

/// The payload of an event whose block is `block`.
pub open spec fn spec_payload(fetched: FetchedEvent, block: Block) -> Result<
    Seq<u8>,
    FoldableError,
> {
    match fetched.blob_response {
        Some(response) => match spec_extract_blob(response@) {
            Ok(payload) => Ok(payload),
            Err(cause) => Err(FoldableError::Enrichment { block_number: block.number, cause }),
        },
        None => Err(
            FoldableError::Enrichment {
                block_number: block.number,
                cause: EnrichmentError::Retrieval,
            },
        ),
    }
}

/// The input that an event becomes, or why it becomes none: the block must
/// be known, then agree with the metadata, then the payload must be had.
pub open spec fn spec_build_input(fetched: FetchedEvent, block_opt: Option<Block>) -> Result<
    InputView,
    FoldableError,
> {
    match spec_resolve_block(fetched, block_opt) {
        Err(e) => Err(e),
        Ok(block) => match spec_meta_consistent(fetched.meta, block) {
            Err(e) => Err(FoldableError::Integrity(e)),
            Ok(_) => match spec_payload(fetched, block) {
                Err(e) => Err(e),
                Ok(payload) => Ok(
                    InputView {
                        sender: fetched.sender@,
                        payload,
                        block_added: block,
                        dapp: fetched.dapp@,
                        tx_hash: fetched.meta.transaction_hash@,
                    },
                ),
            },
        },
    }
}

/// The inputs that `events` become, in their order; where one becomes
/// none, the failure of the first such event.
pub open spec fn spec_build_all(events: Seq<FetchedEvent>, block_opt: Option<Block>) -> Result<
    Seq<InputView>,
    FoldableError,
>
    decreases events.len(),
{
    if events.len() == 0 {
        Ok(Seq::empty())
    } else {
        match spec_build_all(events.drop_last(), block_opt) {
            Err(e) => Err(e),
            Ok(built) => match spec_build_input(events.last(), block_opt) {
                Err(e) => Err(e),
                Ok(input) => Ok(built.push(input)),
            },
        }
    }
}

/// The new inputs of a query, where it was answered: those of its events,
/// taken in the order of the log, whatever order they are listed in.
pub open spec fn spec_fetch_all_new_inputs(
    logs: Option<Seq<FetchedEvent>>,
    contract_address: Address,
    dapp_address: Address,
    block_opt: Option<Block>,
) -> Result<Seq<InputView>, FoldableError> {
    match logs {
        Some(events) => spec_build_all(spec_sort_by_log(events), block_opt),
        None => Err(
            FoldableError::Query(
                QueryError::Logs { contract: contract_address, dapp: dapp_address },
            ),
        ),
    }
}

/// The lists after the new inputs of a query were added to `previous`.
pub open spec fn spec_updated_inputs(
    previous: Map<Seq<u8>, Seq<InputView>>,
    logs: Option<Seq<FetchedEvent>>,
    contract_address: Address,
    dapp_address: Address,
    block_opt: Option<Block>,
) -> Result<Map<Seq<u8>, Seq<InputView>>, FoldableError> {
    match spec_fetch_all_new_inputs(logs, contract_address, dapp_address, block_opt) {
        Ok(inputs) => Ok(spec_insert_all(previous, inputs)),
        Err(e) => Err(e),
    }
}

/// Whether the log summary of `block` admits an "input added" event of the
/// input box for the application: the contract's address, the application's
/// address as a topic, and the event's signature.
pub open spec fn spec_may_hold_inputs(
    input_box_address: Address,
    dapp_address: Address,
    event_signature: H256,
    block: Block,
) -> bool {
    &&& bloom_admits(block.logs_bloom@, input_box_address@)
    &&& bloom_admits(block.logs_bloom@, spec_address_topic(dapp_address@))
    &&& bloom_admits(block.logs_bloom@, event_signature@)
}

/// The state that a sync gives.
pub open spec fn spec_sync(
    initial: InputBoxInitialState,
    logs: Option<Seq<FetchedEvent>>,
) -> Result<InputBoxView, FoldableError> {
    match spec_updated_inputs(
        Map::empty(),
        logs,
        *initial.input_box_address,
        *initial.dapp_address,
        None,
    ) {
        Ok(lists) => Ok(
            InputBoxView {
                dapp_address: *initial.dapp_address,
                input_box_address: *initial.input_box_address,
                dapp_input_boxes: lists,
            },
        ),
        Err(e) => Err(e),
    }
}

/// The state that a fold of `block` gives.
pub open spec fn spec_fold(
    previous: InputBoxView,
    block: Block,
    event_signature: H256,
    logs: Option<Seq<FetchedEvent>>,
) -> Result<InputBoxView, FoldableError> {
    if !spec_may_hold_inputs(
        previous.input_box_address,
        previous.dapp_address,
        event_signature,
        block,
    ) {
        Ok(previous)
    } else {
        match spec_updated_inputs(
            previous.dapp_input_boxes,
            logs,
            previous.input_box_address,
            previous.dapp_address,
            Some(block),
        ) {
            Ok(lists) => Ok(
                InputBoxView {
                    dapp_address: previous.dapp_address,
                    input_box_address: previous.input_box_address,
                    dapp_input_boxes: lists,
                },
            ),
            Err(e) => Err(e),
        }
    }
}

/// The content of a built input, or the failure.
pub open spec fn input_view(r: Result<Input, FoldableError>) -> Result<InputView, FoldableError> {
    match r {
        Ok(input) => Ok(input@),
        Err(e) => Err(e),
    }
}

/// The contents of built inputs, or the failure.
pub open spec fn inputs_view(r: Result<Vec<Input>, FoldableError>) -> Result<
    Seq<InputView>,
    FoldableError,
> {
    match r {
        Ok(inputs) => Ok(inputs@.map_values(|input: Input| input@)),
        Err(e) => Err(e),
    }
}

/// The lists of a store, or the failure.
pub open spec fn lists_view(r: Result<Arc<DAppInputBoxes>, FoldableError>) -> Result<
    Map<Seq<u8>, Seq<InputView>>,
    FoldableError,
> {
    match r {
        Ok(boxes) => Ok(input_lists(*boxes)),
        Err(e) => Err(e),
    }
}

/// The content of a state, or the failure.
pub open spec fn state_view(r: Result<InputBox, FoldableError>) -> Result<
    InputBoxView,
    FoldableError,
> {
    match r {
        Ok(state) => Ok(state@),
        Err(e) => Err(e),
    }
}

/// The lists to start from: those of the previous store, or none.
pub open spec fn previous_lists(previous: Option<&DAppInputBoxes>) -> Map<
    Seq<u8>,
    Seq<InputView>,
> {
    match previous {
        Some(boxes) => input_lists(*boxes),
        None => Map::empty(),
    }
}

impl Input {
    /// Builds the input of one event from what was fetched for it. The
    /// block is `block_opt` where the caller has it in hand, else the block
    /// that the provider returned.
    pub fn build_input(fetched: &FetchedEvent, block_opt: &Option<Block>) -> (r: Result<
        Input,
        FoldableError,
    >)
        ensures
            input_view(r) == spec_build_input(*fetched, *block_opt),
    {
        let block = match block_opt {
            Some(block) => *block,
            None => match fetched.queried_block {
                Some(block) => block,
                None => {
                    return Err(
                        FoldableError::Query(QueryError::Block { hash: fetched.meta.block_hash }),
                    );
                },
            },
        };
        match meta_consistent_with_block(&fetched.meta, &block) {
            Ok(_) => {},
            Err(e) => {
                return Err(FoldableError::Integrity(e));
            },
        }
        let payload = match &fetched.blob_response {
            Some(response) => match extract_blob_sidecar(response.as_str()) {
                Ok(payload) => payload,
                Err(cause) => {
                    return Err(FoldableError::Enrichment { block_number: block.number, cause });
                },
            },
            None => {
                return Err(
                    FoldableError::Enrichment {
                        block_number: block.number,
                        cause: EnrichmentError::Retrieval,
                    },
                );
            },
        };
        Ok(
            Input {
                sender: share(&fetched.sender),
                payload,
                block_added: Arc::new(block),
                dapp: share(&fetched.dapp),
                tx_hash: Arc::new(fetched.meta.transaction_hash),
            },
        )
    }
}

/// Builds the inputs of all events of a query, in the order of the log: by
/// block, within a block by log index, and at the same place of the log as
/// listed. `logs` is the answer to the query for the events of
/// `dapp_address` at `contract_address`, in any order: `None` where the
/// provider could not answer. One event that fails makes the whole fail,
/// with the failure of the first such event in the order of the log.
pub fn fetch_all_new_inputs(
    logs: &Option<Vec<FetchedEvent>>,
    contract_address: &Address,
    dapp_address: &Address,
    block_opt: &Option<Block>,
) -> (r: Result<Vec<Input>, FoldableError>)
    ensures
        inputs_view(r) == spec_fetch_all_new_inputs(
            logs_view(*logs),
            *contract_address,
            *dapp_address,
            *block_opt,
        ),
{
    let events = match logs {
        Some(events) => events,
        None => {
            return Err(
                FoldableError::Query(
                    QueryError::Logs { contract: *contract_address, dapp: *dapp_address },
                ),
            );
        },
    };
    let order = log_order(events);
    let ghost sorted = spec_sort_by_log(events@);
    let mut inputs: Vec<Input> = Vec::new();
    let mut i: usize = 0;
    assert(sorted.take(0) =~= Seq::empty());
    assert(inputs@.map_values(|input: Input| input@) =~= Seq::empty());
    while i < order.len()
        invariant
            i <= order@.len(),
            order@.len() == events@.len(),
            forall|k: int| 0 <= k < order@.len() ==> (#[trigger] order@[k]) < events@.len(),
            sorted == picked(events@, order@),
            sorted == spec_sort_by_log(events@),
            logs_view(*logs) == Some(events@),
            spec_build_all(sorted.take(i as int), *block_opt) matches Ok(built) && built
                == inputs@.map_values(|input: Input| input@),
        decreases order@.len() - i,
    {
        let ghost before = sorted.take(i as int);
        let ghost upto = sorted.take(i + 1);
        assert(upto.drop_last() =~= before);
        assert(upto.last() == events@[order@[i as int] as int]);
        match Input::build_input(&events[order[i]], block_opt) {
            Ok(input) => {
                let ghost built = inputs@.map_values(|input: Input| input@);
                inputs.push(input);
                assert(inputs@.map_values(|input: Input| input@) =~= built.push(input@));
            },
            Err(e) => {
                proof {
                    lemma_build_all_fails(sorted, i as int, *block_opt);
                }
                return Err(e);
            },
        }
        i += 1;
    }
    assert(sorted.take(i as int) =~= sorted);
    Ok(inputs)
}

/// Once the events up to some point have failed, all of them have, and in
/// the same way.
pub proof fn lemma_build_all_fails(events: Seq<FetchedEvent>, i: int, block_opt: Option<Block>)
    requires
        0 <= i < events.len(),
        spec_build_all(events.take(i + 1), block_opt) is Err,
    ensures
        spec_build_all(events, block_opt) == spec_build_all(events.take(i + 1), block_opt),
    decreases events.len(),
{
    if i + 1 == events.len() {
        assert(events.take(i + 1) =~= events);
    } else {
        assert(events.drop_last().take(i + 1) =~= events.take(i + 1));
        lemma_build_all_fails(events.drop_last(), i, block_opt);
    }
}

/// Adds the new inputs of a query to the previous store, in the order of
/// the log, each to the list of the application it is addressed to. The
/// previous store stays as it is.
pub fn updated_inputs(
    previous_input_boxes: Option<&DAppInputBoxes>,
    logs: &Option<Vec<FetchedEvent>>,
    contract_address: &Address,
    dapp_address: &Address,
    block_opt: &Option<Block>,
) -> (r: Result<Arc<DAppInputBoxes>, FoldableError>)
    ensures
        lists_view(r) == spec_updated_inputs(
            previous_lists(previous_input_boxes),
            logs_view(*logs),
            *contract_address,
            *dapp_address,
            *block_opt,
        ),
{
    let mut input_boxes = match previous_input_boxes {
        Some(boxes) => map_clone(boxes),
        None => map_new(),
    };
    assert(input_lists(input_boxes) =~= previous_lists(previous_input_boxes));
    let new_inputs = match fetch_all_new_inputs(logs, contract_address, dapp_address, block_opt) {
        Ok(new_inputs) => new_inputs,
        Err(e) => {
            return Err(e);
        },
    };
    let ghost start = input_lists(input_boxes);
    let ghost views = new_inputs@.map_values(|input: Input| input@);
    assert(views.take(0) =~= Seq::empty());
    for input in it: new_inputs.into_iter()
        invariant
            it.seq().map_values(|input: Input| input@) == views,
            input_lists(input_boxes) == spec_insert_all(start, views.take(it.index() as int)),
    {
        let ghost done = views.take(it.index() as int);
        let ghost next = views.take(it.index() + 1);
        assert(next.drop_last() =~= done);
        assert(next.last() == input@);
        let dapp = share(&input.dapp);
        insert_in_place(&mut input_boxes, dapp, Arc::new(input));
    }
    assert(views.take(views.len() as int) =~= views);
    Ok(Arc::new(input_boxes))
}

impl InputBox {
    /// Whether the log summary of `block` admits an input for this state's
    /// application. Where it does not, the block holds none.
    pub fn may_hold_inputs(&self, block: &Block, event_signature: &H256) -> (r: bool)
        ensures
            r == spec_may_hold_inputs(
                self@.input_box_address,
                self@.dapp_address,
                *event_signature,
                *block,
            ),
    {
        let topic = address_topic(&*self.dapp_address);
        contains_address(&block.logs_bloom, &*self.input_box_address) && contains_topic(
            &block.logs_bloom,
            &topic,
        ) && contains_topic(&block.logs_bloom, event_signature)
    }

    /// The query whose answer a sync up to `block` is built from.
    pub fn sync_query(
        initial_state: &InputBoxInitialState,
        block: &Block,
        event_signature: &H256,
    ) -> (query: EventQuery)
        ensures
            is_event_query(
                query,
                *initial_state.input_box_address,
                *initial_state.dapp_address,
                *event_signature,
                (QueryScope::UpTo { number: block.number }),
            ),
    {
        input_added_query(
            &*initial_state.input_box_address,
            &*initial_state.dapp_address,
            event_signature,
            QueryScope::UpTo { number: block.number },
        )
    }

    /// The query whose answer a fold of `block` is built from; `None` where
    /// the log summary of the block rules out an input for the application,
    /// so that the fold needs no answer.
    pub fn fold_query(&self, block: &Block, event_signature: &H256) -> (r: Option<EventQuery>)
        ensures
            r is Some <==> spec_may_hold_inputs(
                self@.input_box_address,
                self@.dapp_address,
                *event_signature,
                *block,
            ),
            r matches Some(query) ==> is_event_query(
                query,
                self@.input_box_address,
                self@.dapp_address,
                *event_signature,
                (QueryScope::Only { hash: block.hash }),
            ),
    {
        if self.may_hold_inputs(block, event_signature) {
            Some(
                input_added_query(
                    &*self.input_box_address,
                    &*self.dapp_address,
                    event_signature,
                    QueryScope::Only { hash: block.hash },
                ),
            )
        } else {
            None
        }
    }

    /// Builds the state from the events of the whole history up to `block`.
    /// `logs` is the answer to `sync_query`, in any order: `None` where the
    /// provider could not answer. Each event brings the block that the
    /// provider returned for it. Every list is in the order of the log.
    pub fn sync(
        initial_state: &InputBoxInitialState,
        _block: &Block,
        logs: &Option<Vec<FetchedEvent>>,
    ) -> (r: Result<InputBox, FoldableError>)
        ensures
            state_view(r) == spec_sync(*initial_state, logs_view(*logs)),
    {
        let dapp_address = share(&initial_state.dapp_address);
        let input_box_address = share(&initial_state.input_box_address);
        match updated_inputs(None, logs, &*input_box_address, &*dapp_address, &None) {
            Ok(dapp_input_boxes) => Ok(
                InputBox { dapp_address, input_box_address, dapp_input_boxes },
            ),
            Err(e) => Err(e),
        }
    }

    /// Advances the state by `block`. Where the block's log summary rules
    /// out an input for the application, the state is returned as it is and
    /// `logs` is not looked at: no query need be made. Else `logs` is the
    /// answer to `fold_query`, the block's events in any order, `None`
    /// where the provider could not answer; their inputs are added to the
    /// lists in the order of the log, all of them or, where one fails,
    /// none. The previous state stays as it is either way.
    pub fn fold(
        previous_state: &InputBox,
        block: &Block,
        event_signature: &H256,
        logs: &Option<Vec<FetchedEvent>>,
    ) -> (r: Result<InputBox, FoldableError>)
        ensures
            state_view(r) == spec_fold(
                previous_state@,
                *block,
                *event_signature,
                logs_view(*logs),
            ),
            !spec_may_hold_inputs(
                previous_state@.input_box_address,
                previous_state@.dapp_address,
                *event_signature,
                *block,
            ) ==> (r matches Ok(state) && state == *previous_state),
    {
        if !previous_state.may_hold_inputs(block, event_signature) {
            return Ok(previous_state.clone());
        }
        let dapp_address = share(&previous_state.dapp_address);
        let input_box_address = share(&previous_state.input_box_address);
        match updated_inputs(
            Some(&*previous_state.dapp_input_boxes),
            logs,
            &*input_box_address,
            &*dapp_address,
            &Some(*block),
        ) {
            Ok(dapp_input_boxes) => Ok(
                InputBox { dapp_address, input_box_address, dapp_input_boxes },
            ),
            Err(e) => Err(e),
        }
    }
}

} // verus!
