//! What holds of every sync and every fold.

use crate::error::{FoldableError, IntegrityError};
use crate::fold::{
    spec_build_all, spec_build_input, spec_fold, spec_may_hold_inputs, spec_resolve_block,
    spec_sync, InputBoxView,
};
use crate::order::{
    is_log_ordered, lemma_log_position, lemma_log_position_is, lemma_sort_concat,
    lemma_sort_is_ordered, lemma_sort_is_permutation, spec_log_le, spec_log_position,
    spec_sort_by_log,
};
use crate::store::{spec_insert, spec_insert_all};
use crate::types::{Block, FetchedEvent, InputBoxInitialState, InputView, H256};
use vstd::prelude::*;

verus! {

/// One fold: the block, and the answer to the query for its events.
pub struct FoldStep {
    pub block: Block,
    pub logs: Option<Seq<FetchedEvent>>,
}

/// The list of an application: empty where the application has none.
pub open spec fn list_of(lists: Map<Seq<u8>, Seq<InputView>>, application: Seq<u8>) -> Seq<
    InputView,
> {
    if lists.dom().contains(application) {
        lists[application]
    } else {
        Seq::empty()
    }
}

/// Whether an input is addressed to `application`.
pub open spec fn input_addressed_to(application: Seq<u8>) -> spec_fn(InputView) -> bool {
    |input: InputView| input.dapp == application
}

/// Whether an event is addressed to `application`.
pub open spec fn event_addressed_to(application: Seq<u8>) -> spec_fn(FetchedEvent) -> bool {
    |event: FetchedEvent| event.dapp@ == application
}

/// Those of `inputs` that are addressed to `application`, in their order.
pub open spec fn inputs_for(inputs: Seq<InputView>, application: Seq<u8>) -> Seq<InputView> {
    inputs.filter(input_addressed_to(application))
}

/// The state after the folds `steps`, one after the other; the failure of
/// the first fold that fails.
pub open spec fn spec_fold_all(
    state: InputBoxView,
    steps: Seq<FoldStep>,
    event_signature: H256,
) -> Result<InputBoxView, FoldableError>
    decreases steps.len(),
{
    if steps.len() == 0 {
        Ok(state)
    } else {
        match spec_fold_all(state, steps.drop_last(), event_signature) {
            Ok(before) => spec_fold(before, steps.last().block, event_signature, steps.last().logs),
            Err(e) => Err(e),
        }
    }
}

/// Whether the log summary of the block of `step` admits an input for the
/// application of `state`.
pub open spec fn step_may_hold_inputs(
    state: InputBoxView,
    step: FoldStep,
    event_signature: H256,
) -> bool {
    spec_may_hold_inputs(state.input_box_address, state.dapp_address, event_signature, step.block)
}

/// The inputs of the events of one block, in the order of the log; none
/// where an event fails.
pub open spec fn spec_inputs_of_block(events: Seq<FetchedEvent>, block: Block) -> Seq<InputView> {
    match spec_build_all(spec_sort_by_log(events), Some(block)) {
        Ok(inputs) => inputs,
        Err(_) => Seq::empty(),
    }
}

/// The inputs that the folds `steps` find, in the order of the blocks and,
/// within a block, of the log index. A block whose log summary rules out an
/// input for the application contributes none.
pub open spec fn spec_discovered(
    state: InputBoxView,
    steps: Seq<FoldStep>,
    event_signature: H256,
) -> Seq<InputView>
    decreases steps.len(),
{
    if steps.len() == 0 {
        Seq::empty()
    } else {
        let step = steps.last();
        let before = spec_discovered(state, steps.drop_last(), event_signature);
        if step_may_hold_inputs(state, step, event_signature) && step.logs is Some {
            before + spec_inputs_of_block(step.logs->Some_0, step.block)
        } else {
            before
        }
    }
}

/// The events of all `steps`, in the order of the steps.
pub open spec fn spec_events_of(steps: Seq<FoldStep>) -> Seq<FetchedEvent>
    decreases steps.len(),
{
    if steps.len() == 0 {
        Seq::empty()
    } else {
        let before = spec_events_of(steps.drop_last());
        match steps.last().logs {
            Some(events) => before + events,
            None => before,
        }
    }
}

/// Whether the chain that a sync with answer `events` and the folds `steps`
/// after it saw is the one a later sync sees: each query was answered; each
/// event of a fold lies in the folded block, which is the block that the
/// provider returns for the hash in the event's metadata; the folded blocks
/// come in ascending order, all after the blocks of `events`; and a block
/// whose log summary rules out an input for the application of `state`
/// holds none.
pub open spec fn stable_chain(
    state: InputBoxView,
    events: Seq<FetchedEvent>,
    steps: Seq<FoldStep>,
    event_signature: H256,
) -> bool {
    &&& forall|j: int|
        0 <= j < steps.len() ==> {
            &&& (#[trigger] steps[j]).logs is Some
            &&& forall|k: int|
                0 <= k < steps[j].logs->Some_0.len() ==> {
                    &&& (#[trigger] steps[j].logs->Some_0[k]).queried_block == Some(
                        steps[j].block,
                    )
                    &&& steps[j].logs->Some_0[k].meta.block_number == steps[j].block.number
                }
            &&& !step_may_hold_inputs(state, steps[j], event_signature)
                ==> steps[j].logs->Some_0.len() == 0
        }
    &&& forall|i: int, j: int|
        0 <= i < j < steps.len() ==> (#[trigger] steps[i]).block.number < (
        #[trigger] steps[j]).block.number
    &&& forall|i: int, j: int|
        0 <= i < events.len() && 0 <= j < steps.len() ==> (
        #[trigger] events[i]).meta.block_number < (#[trigger] steps[j]).block.number
}

/// Adding one input touches the list of its application alone: every other
/// application has the list it had, and has one exactly if it had one.
pub proof fn lemma_insert_leaves_others(
    lists: Map<Seq<u8>, Seq<InputView>>,
    application: Seq<u8>,
    input: InputView,
    other: Seq<u8>,
)
    requires
        other != application,
    ensures
        spec_insert(lists, application, input).dom().contains(other) == lists.dom().contains(
            other,
        ),
        spec_insert(lists, application, input)[other] == lists[other],
        list_of(spec_insert(lists, application, input), other) == list_of(lists, other),
{
}

/// Adding one input appends it to the list of its application.
pub proof fn lemma_insert_appends(
    lists: Map<Seq<u8>, Seq<InputView>>,
    application: Seq<u8>,
    input: InputView,
)
    ensures
        spec_insert(lists, application, input).dom().contains(application),
        list_of(spec_insert(lists, application, input), application) == list_of(
            lists,
            application,
        ).push(input),
{
    assert(list_of(spec_insert(lists, application, input), application) =~= list_of(
        lists,
        application,
    ).push(input));
}

/// Adding inputs in two runs is adding them in one.
pub proof fn lemma_insert_all_concat(
    lists: Map<Seq<u8>, Seq<InputView>>,
    first: Seq<InputView>,
    second: Seq<InputView>,
)
    ensures
        spec_insert_all(spec_insert_all(lists, first), second) == spec_insert_all(
            lists,
            first + second,
        ),
    decreases second.len(),
{
    if second.len() == 0 {
        assert(first + second =~= first);
    } else {
        lemma_insert_all_concat(lists, first, second.drop_last());
        assert((first + second).drop_last() =~= first + second.drop_last());
        assert((first + second).last() == second.last());
    }
}

/// After inputs were added, the list of each application is the list it
/// had, followed by those of the inputs that are addressed to it, in the
/// order in which they were added. Inputs for other applications that lie
/// between them change nothing of it.
pub proof fn lemma_insert_all_keeps_order(
    lists: Map<Seq<u8>, Seq<InputView>>,
    inputs: Seq<InputView>,
    application: Seq<u8>,
)
    ensures
        list_of(spec_insert_all(lists, inputs), application) == list_of(lists, application)
            + inputs_for(inputs, application),
    decreases inputs.len(),
{
    reveal(Seq::filter);
    if inputs.len() == 0 {
        assert(inputs_for(inputs, application) =~= Seq::empty());
        assert(list_of(lists, application) + Seq::<InputView>::empty() =~= list_of(
            lists,
            application,
        ));
    } else {
        let last = inputs.last();
        let before = spec_insert_all(lists, inputs.drop_last());
        lemma_insert_all_keeps_order(lists, inputs.drop_last(), application);
        if last.dapp == application {
            lemma_insert_appends(before, application, last);
            assert(inputs_for(inputs, application) =~= inputs_for(
                inputs.drop_last(),
                application,
            ).push(last));
            assert(list_of(lists, application) + inputs_for(inputs, application) =~= (list_of(
                lists,
                application,
            ) + inputs_for(inputs.drop_last(), application)).push(last));
        } else {
            lemma_insert_leaves_others(before, last.dapp, last, application);
            assert(inputs_for(inputs, application) =~= inputs_for(
                inputs.drop_last(),
                application,
            ));
        }
    }
}

/// Whether every list holds only inputs that are addressed to the
/// application it belongs to.
pub open spec fn grouped_by_application(lists: Map<Seq<u8>, Seq<InputView>>) -> bool {
    forall|application: Seq<u8>, i: int|
        lists.dom().contains(application) && 0 <= i < lists[application].len() ==> (
        #[trigger] lists[application][i]).dapp == application
}

/// Adding inputs keeps every list to the inputs of its own application.
pub proof fn lemma_insert_all_groups(lists: Map<Seq<u8>, Seq<InputView>>, inputs: Seq<InputView>)
    requires
        grouped_by_application(lists),
    ensures
        grouped_by_application(spec_insert_all(lists, inputs)),
    decreases inputs.len(),
{
    if inputs.len() > 0 {
        lemma_insert_all_groups(lists, inputs.drop_last());
    }
}

/// Adding inputs removes and rewrites nothing: every application that had a
/// list has one still, and it starts with the list that was there.
pub proof fn lemma_insert_all_only_appends(
    lists: Map<Seq<u8>, Seq<InputView>>,
    inputs: Seq<InputView>,
    application: Seq<u8>,
)
    requires
        lists.dom().contains(application),
    ensures
        spec_insert_all(lists, inputs).dom().contains(application),
        lists[application].is_prefix_of(spec_insert_all(lists, inputs)[application]),
    decreases inputs.len(),
{
    if inputs.len() > 0 {
        lemma_insert_all_only_appends(lists, inputs.drop_last(), application);
    }
}

/// A fold that succeeds removes and rewrites nothing: every application
/// that had a list has one still, and it starts with the list that was
/// there.
pub proof fn lemma_fold_only_appends(
    previous: InputBoxView,
    block: Block,
    event_signature: H256,
    logs: Option<Seq<FetchedEvent>>,
    application: Seq<u8>,
)
    requires
        spec_fold(previous, block, event_signature, logs) is Ok,
        previous.dapp_input_boxes.dom().contains(application),
    ensures
        spec_fold(previous, block, event_signature, logs)->Ok_0.dapp_input_boxes.dom().contains(
            application,
        ),
        previous.dapp_input_boxes[application].is_prefix_of(
            spec_fold(previous, block, event_signature, logs)->Ok_0.dapp_input_boxes[application],
        ),
{
    if spec_may_hold_inputs(
        previous.input_box_address,
        previous.dapp_address,
        event_signature,
        block,
    ) {
        let inputs = spec_build_all(spec_sort_by_log(logs->Some_0), Some(block))->Ok_0;
        lemma_insert_all_only_appends(previous.dapp_input_boxes, inputs, application);
    }
}

/// A state that a sync gives keeps the inputs of each application in that
/// application's list.
pub proof fn lemma_sync_groups(initial: InputBoxInitialState, logs: Option<Seq<FetchedEvent>>)
    requires
        spec_sync(initial, logs) is Ok,
    ensures
        grouped_by_application(spec_sync(initial, logs)->Ok_0.dapp_input_boxes),
{
    let inputs = spec_build_all(spec_sort_by_log(logs->Some_0), None)->Ok_0;
    lemma_insert_all_groups(Map::empty(), inputs);
}

/// A fold of a state that keeps the inputs of each application in that
/// application's list gives such a state.
pub proof fn lemma_fold_groups(
    previous: InputBoxView,
    block: Block,
    event_signature: H256,
    logs: Option<Seq<FetchedEvent>>,
)
    requires
        grouped_by_application(previous.dapp_input_boxes),
        spec_fold(previous, block, event_signature, logs) is Ok,
    ensures
        grouped_by_application(
            spec_fold(previous, block, event_signature, logs)->Ok_0.dapp_input_boxes,
        ),
{
    if spec_may_hold_inputs(
        previous.input_box_address,
        previous.dapp_address,
        event_signature,
        block,
    ) {
        let inputs = spec_build_all(spec_sort_by_log(logs->Some_0), Some(block))->Ok_0;
        lemma_insert_all_groups(previous.dapp_input_boxes, inputs);
    }
}

/// Building the inputs of two runs of events is building those of the
/// first, then those of the second; the first failure is the failure.
pub proof fn lemma_build_all_concat(
    first: Seq<FetchedEvent>,
    second: Seq<FetchedEvent>,
    block_opt: Option<Block>,
)
    ensures
        spec_build_all(first + second, block_opt) == match spec_build_all(first, block_opt) {
            Err(e) => Err(e),
            Ok(a) => match spec_build_all(second, block_opt) {
                Err(e) => Err(e),
                Ok(b) => Ok(a + b),
            },
        },
    decreases second.len(),
{
    if second.len() == 0 {
        assert(first + second =~= first);
        if let Ok(a) = spec_build_all(first, block_opt) {
            assert(a + Seq::<InputView>::empty() =~= a);
        }
    } else {
        lemma_build_all_concat(first, second.drop_last(), block_opt);
        assert((first + second).drop_last() =~= first + second.drop_last());
        assert((first + second).last() == second.last());
        if let Ok(a) = spec_build_all(first, block_opt) {
            if let Ok(b) = spec_build_all(second.drop_last(), block_opt) {
                if let Ok(input) = spec_build_input(second.last(), block_opt) {
                    assert((a + b).push(input) =~= a + b.push(input));
                }
            }
        }
    }
}

/// An event is built alike with its block in hand and with the same block
/// returned by the provider.
pub proof fn lemma_build_all_same_block(events: Seq<FetchedEvent>, block: Block)
    requires
        forall|k: int|
            0 <= k < events.len() ==> (#[trigger] events[k]).queried_block == Some(block),
    ensures
        spec_build_all(events, Some(block)) == spec_build_all(events, None),
    decreases events.len(),
{
    if events.len() > 0 {
        lemma_build_all_same_block(events.drop_last(), block);
        assert(events.last() == events[events.len() - 1]);
    }
}

/// A fold whose block's log summary rules out an input for the application
/// returns the state unchanged, whatever the query for its events gave.
pub proof fn lemma_fold_short_circuit(
    previous: InputBoxView,
    block: Block,
    event_signature: H256,
    logs: Option<Seq<FetchedEvent>>,
)
    requires
        !spec_may_hold_inputs(
            previous.input_box_address,
            previous.dapp_address,
            event_signature,
            block,
        ),
    ensures
        spec_fold(previous, block, event_signature, logs) matches Ok(state) && state == previous,
{
}

/// A fold in which one event cannot be built gives no state: it fails,
/// wherever that event is listed.
pub proof fn lemma_fold_is_atomic(
    previous: InputBoxView,
    block: Block,
    event_signature: H256,
    events: Seq<FetchedEvent>,
    i: int,
)
    requires
        spec_may_hold_inputs(
            previous.input_box_address,
            previous.dapp_address,
            event_signature,
            block,
        ),
        0 <= i < events.len(),
        spec_build_input(events[i], Some(block)) is Err,
    ensures
        spec_fold(previous, block, event_signature, Some(events)) is Err,
{
    let sorted = spec_sort_by_log(events);
    lemma_listed_event_is_sorted(events, i);
    let k = choose|k: int| 0 <= k < sorted.len() && sorted[k] == events[i];
    if spec_build_all(sorted, Some(block)) is Ok {
        lemma_build_all_pointwise(sorted, Some(block), k);
    }
}

/// A fold that fails where events cannot be built fails with the failure
/// of the first such event in the order of the log.
pub proof fn lemma_fold_fails_with_first_failure(
    previous: InputBoxView,
    block: Block,
    event_signature: H256,
    events: Seq<FetchedEvent>,
    i: int,
)
    requires
        spec_may_hold_inputs(
            previous.input_box_address,
            previous.dapp_address,
            event_signature,
            block,
        ),
        0 <= i < events.len(),
        spec_build_input(spec_sort_by_log(events)[i], Some(block)) is Err,
        forall|k: int|
            0 <= k < i ==> spec_build_input(
                #[trigger] spec_sort_by_log(events)[k],
                Some(block),
            ) is Ok,
    ensures
        spec_fold(previous, block, event_signature, Some(events)) matches Err(e) && e
            == spec_build_input(spec_sort_by_log(events)[i], Some(block))->Err_0,
{
    lemma_sort_is_permutation(events);
    lemma_build_all_first_failure(spec_sort_by_log(events), i, Some(block));
}

/// Every listed event is among the sorted ones.
pub proof fn lemma_listed_event_is_sorted(events: Seq<FetchedEvent>, i: int)
    requires
        0 <= i < events.len(),
    ensures
        exists|k: int|
            0 <= k < spec_sort_by_log(events).len() && spec_sort_by_log(events)[k] == events[i],
{
    let sorted = spec_sort_by_log(events);
    lemma_sort_is_permutation(events);
    sorted.to_multiset_ensures();
    events.to_multiset_ensures();
    assert(events.contains(events[i]));
    assert(events.to_multiset().count(events[i]) > 0);
    assert(sorted.to_multiset().count(events[i]) > 0);
    assert(sorted.contains(events[i]));
}

/// Every sorted event is among the listed ones.
pub proof fn lemma_sorted_event_is_listed(events: Seq<FetchedEvent>, k: int)
    requires
        0 <= k < spec_sort_by_log(events).len(),
    ensures
        exists|i: int| 0 <= i < events.len() && events[i] == spec_sort_by_log(events)[k],
{
    let sorted = spec_sort_by_log(events);
    lemma_sort_is_permutation(events);
    sorted.to_multiset_ensures();
    events.to_multiset_ensures();
    assert(sorted.contains(sorted[k]));
    assert(sorted.to_multiset().count(sorted[k]) > 0);
    assert(events.to_multiset().count(sorted[k]) > 0);
    assert(events.contains(sorted[k]));
}

/// Where events are built, each input is that of the event at its place.
pub proof fn lemma_build_all_pointwise(events: Seq<FetchedEvent>, block_opt: Option<Block>, k: int)
    requires
        spec_build_all(events, block_opt) is Ok,
        0 <= k < events.len(),
    ensures
        spec_build_all(events, block_opt)->Ok_0.len() == events.len(),
        spec_build_input(events[k], block_opt) matches Ok(input) && input == spec_build_all(
            events,
            block_opt,
        )->Ok_0[k],
    decreases events.len(),
{
    if k + 1 < events.len() {
        lemma_build_all_pointwise(events.drop_last(), block_opt, k);
    } else if events.len() > 1 {
        lemma_build_all_pointwise(events.drop_last(), block_opt, 0);
    }
}

/// The failure of the first event that cannot be built is the failure of
/// the whole.
pub proof fn lemma_build_all_first_failure(
    events: Seq<FetchedEvent>,
    i: int,
    block_opt: Option<Block>,
)
    requires
        0 <= i < events.len(),
        spec_build_input(events[i], block_opt) is Err,
        forall|k: int| 0 <= k < i ==> spec_build_input(#[trigger] events[k], block_opt) is Ok,
    ensures
        spec_build_all(events, block_opt) matches Err(e) && e == spec_build_input(
            events[i],
            block_opt,
        )->Err_0,
    decreases events.len(),
{
    if i + 1 == events.len() {
        lemma_build_all_succeeds(events.drop_last(), block_opt);
    } else {
        lemma_build_all_first_failure(events.drop_last(), i, block_opt);
    }
}

/// Where every event can be built, the whole can.
pub proof fn lemma_build_all_succeeds(events: Seq<FetchedEvent>, block_opt: Option<Block>)
    requires
        forall|k: int|
            0 <= k < events.len() ==> spec_build_input(#[trigger] events[k], block_opt) is Ok,
    ensures
        spec_build_all(events, block_opt) is Ok,
        spec_build_all(events, block_opt)->Ok_0.len() == events.len(),
    decreases events.len(),
{
    if events.len() > 0 {
        lemma_build_all_succeeds(events.drop_last(), block_opt);
    }
}

/// An event whose block has another hash than its metadata names is
/// refused for that reason, and no input is built.
pub proof fn lemma_hash_mismatch_is_refused(fetched: FetchedEvent, block_opt: Option<Block>)
    requires
        spec_resolve_block(fetched, block_opt) is Ok,
        spec_resolve_block(fetched, block_opt)->Ok_0.hash@ != fetched.meta.block_hash@,
    ensures
        spec_build_input(fetched, block_opt) matches Err(e) && e == FoldableError::Integrity(
            IntegrityError::BlockHash {
                meta_hash: fetched.meta.block_hash,
                block_hash: spec_resolve_block(fetched, block_opt)->Ok_0.hash,
            },
        ),
{
}

/// After a fold that succeeds, the list of each application is the list it
/// had, followed by the inputs of the block that are addressed to it, in
/// the order of the log index and not of the listing: the events behind
/// them are the listed ones in ascending order, each built at its place.
pub proof fn lemma_fold_orders_by_log(
    previous: InputBoxView,
    block: Block,
    event_signature: H256,
    events: Seq<FetchedEvent>,
    application: Seq<u8>,
)
    requires
        spec_may_hold_inputs(
            previous.input_box_address,
            previous.dapp_address,
            event_signature,
            block,
        ),
        spec_fold(previous, block, event_signature, Some(events)) is Ok,
    ensures
        list_of(
            spec_fold(previous, block, event_signature, Some(events))->Ok_0.dapp_input_boxes,
            application,
        ) == list_of(previous.dapp_input_boxes, application) + inputs_for(
            spec_inputs_of_block(events, block),
            application,
        ),
        is_log_ordered(spec_sort_by_log(events)),
        spec_sort_by_log(events).to_multiset() == events.to_multiset(),
        spec_inputs_of_block(events, block).len() == events.len(),
        forall|k: int|
            0 <= k < events.len() ==> spec_build_input(
                #[trigger] spec_sort_by_log(events)[k],
                Some(block),
            ) == Ok::<InputView, FoldableError>(spec_inputs_of_block(events, block)[k]),
{
    let sorted = spec_sort_by_log(events);
    lemma_sort_is_ordered(events);
    lemma_sort_is_permutation(events);
    lemma_insert_all_keeps_order(
        previous.dapp_input_boxes,
        spec_inputs_of_block(events, block),
        application,
    );
    assert forall|k: int| 0 <= k < events.len() implies spec_build_input(
        #[trigger] sorted[k],
        Some(block),
    ) == Ok::<InputView, FoldableError>(spec_inputs_of_block(events, block)[k]) by {
        lemma_build_all_pointwise(sorted, Some(block), k);
    }
    if events.len() > 0 {
        lemma_build_all_pointwise(sorted, Some(block), 0);
    }
}

/// Those of `events` that are addressed to `application`, in their order.
pub open spec fn events_for(events: Seq<FetchedEvent>, application: Seq<u8>) -> Seq<
    FetchedEvent,
> {
    events.filter(event_addressed_to(application))
}

/// Sorting the events of one application alone gives those of them among
/// all events sorted.
pub proof fn lemma_sort_of_events_for(events: Seq<FetchedEvent>, application: Seq<u8>)
    ensures
        spec_sort_by_log(events_for(events, application)) == events_for(
            spec_sort_by_log(events),
            application,
        ),
    decreases events.len(),
{
    reveal(Seq::filter);
    let p = event_addressed_to(application);
    if events.len() == 0 {
        assert(events.filter(p) =~= Seq::empty());
        assert(spec_sort_by_log(events) =~= Seq::empty());
    } else {
        let event = events.last();
        let earlier = events.drop_last();
        lemma_sort_of_events_for(earlier, application);
        let sorted = spec_sort_by_log(earlier);
        lemma_log_position(sorted, event);
        lemma_sort_is_ordered(earlier);
        let pos = spec_log_position(sorted, event);
        let head = sorted.take(pos);
        let tail = sorted.skip(pos);
        let result = sorted.insert(pos, event);
        assert(sorted =~= head + tail);
        assert(result =~= head.push(event) + tail);
        Seq::filter_distributes_over_add(head, tail, p);
        Seq::filter_distributes_over_add(head.push(event), tail, p);
        assert(head.push(event).drop_last() =~= head);
        assert(sorted.filter(p) == head.filter(p) + tail.filter(p));
        assert(result.filter(p) == head.push(event).filter(p) + tail.filter(p));
        if p(event) {
            let own = events.filter(p);
            assert(own == earlier.filter(p).push(event));
            assert(own.drop_last() =~= earlier.filter(p));
            assert(own.last() == event);
            let chosen = sorted.filter(p);
            assert(spec_sort_by_log(earlier.filter(p)) == chosen);
            let k = head.filter(p).len() as int;
            assert forall|j: int| k <= j < chosen.len() implies !spec_log_le(
                (#[trigger] chosen[j]).meta,
                event.meta,
            ) by {
                let x = tail.filter(p)[j - k];
                assert(chosen[j] == x);
                assert(tail.filter(p).contains(x));
                tail.lemma_filter_contains_rev(p, x);
                let t = choose|t: int| 0 <= t < tail.len() && tail[t] == x;
                assert(tail[t] == sorted[pos + t]);
            }
            if k > 0 {
                let x = head.filter(p)[k - 1];
                assert(chosen[k - 1] == x);
                assert(head.filter(p).contains(x));
                head.lemma_filter_contains_rev(p, x);
                let t = choose|t: int| 0 <= t < head.len() && head[t] == x;
                assert(head[t] == sorted[t]);
                if t < pos - 1 {
                    assert(spec_log_le(sorted[t].meta, sorted[pos - 1].meta));
                }
                assert(spec_log_le(chosen[k - 1].meta, event.meta));
            }
            lemma_log_position_is(chosen, event, k);
            assert(head.push(event).filter(p) == head.filter(p).push(event));
            assert(chosen.insert(k, event) =~= head.filter(p).push(event) + tail.filter(p));
            assert(spec_sort_by_log(own) == chosen.insert(k, event));
        } else {
            assert(events.filter(p) == earlier.filter(p));
            assert(head.push(event).filter(p) == head.filter(p));
        }
    }
}

/// Building the events of one application alone gives those of all inputs
/// that are addressed to it.
pub proof fn lemma_build_all_of_events_for(
    events: Seq<FetchedEvent>,
    block_opt: Option<Block>,
    application: Seq<u8>,
)
    requires
        spec_build_all(events, block_opt) is Ok,
    ensures
        spec_build_all(events_for(events, application), block_opt) matches Ok(inputs) && inputs
            == inputs_for(spec_build_all(events, block_opt)->Ok_0, application),
    decreases events.len(),
{
    reveal(Seq::filter);
    if events.len() > 0 {
        lemma_build_all_of_events_for(events.drop_last(), block_opt, application);
        let built = spec_build_all(events.drop_last(), block_opt)->Ok_0;
        let input = spec_build_input(events.last(), block_opt)->Ok_0;
        assert(built.push(input).drop_last() =~= built);
        if events.last().dapp@ == application {
            assert(events_for(events, application).drop_last() =~= events_for(
                events.drop_last(),
                application,
            ));
        }
    }
}

/// After a fold that succeeds, the list of an application is what it would
/// be had the block held the events of that application alone; events of
/// other applications that lie between them add nothing to it.
pub proof fn lemma_fold_ignores_other_applications(
    previous: InputBoxView,
    block: Block,
    event_signature: H256,
    events: Seq<FetchedEvent>,
    application: Seq<u8>,
)
    requires
        spec_may_hold_inputs(
            previous.input_box_address,
            previous.dapp_address,
            event_signature,
            block,
        ),
        spec_fold(previous, block, event_signature, Some(events)) is Ok,
    ensures
        spec_fold(previous, block, event_signature, Some(events_for(events, application))) is Ok,
        list_of(
            spec_fold(previous, block, event_signature, Some(events))->Ok_0.dapp_input_boxes,
            application,
        ) == list_of(
            spec_fold(
                previous,
                block,
                event_signature,
                Some(events_for(events, application)),
            )->Ok_0.dapp_input_boxes,
            application,
        ),
        forall|k: int|
            0 <= k < inputs_for(spec_inputs_of_block(events, block), application).len() ==> (
            #[trigger] inputs_for(spec_inputs_of_block(events, block), application)[k]).dapp
                == application,
{
    let sorted = spec_sort_by_log(events);
    let own = events_for(events, application);
    lemma_sort_of_events_for(events, application);
    lemma_build_all_of_events_for(sorted, Some(block), application);
    let inputs = spec_inputs_of_block(events, block);
    let own_inputs = spec_inputs_of_block(own, block);
    assert(own_inputs == inputs_for(inputs, application));
    lemma_insert_all_keeps_order(previous.dapp_input_boxes, inputs, application);
    lemma_insert_all_keeps_order(previous.dapp_input_boxes, own_inputs, application);
    assert(inputs_for(own_inputs, application) =~= own_inputs) by {
        lemma_filter_of_filtered(inputs, application);
    }
    assert forall|k: int| 0 <= k < inputs_for(inputs, application).len() implies (
    #[trigger] inputs_for(inputs, application)[k]).dapp == application by {
        inputs.lemma_filter_pred(input_addressed_to(application), k);
    }
}

/// Choosing the inputs of one application twice is choosing them once.
pub proof fn lemma_filter_of_filtered(inputs: Seq<InputView>, application: Seq<u8>)
    ensures
        inputs_for(inputs_for(inputs, application), application) == inputs_for(
            inputs,
            application,
        ),
    decreases inputs.len(),
{
    reveal(Seq::filter);
    if inputs.len() > 0 {
        lemma_filter_of_filtered(inputs.drop_last(), application);
        if inputs.last().dapp == application {
            let chosen = inputs_for(inputs.drop_last(), application);
            assert(chosen.push(inputs.last()).drop_last() =~= chosen);
        }
    }
}

/// After folds that all succeed, the list of each application is the list
/// it had, followed by the inputs addressed to it that the folds found: in
/// the order of the blocks and, within a block, of the log index.
pub proof fn lemma_folds_keep_order(
    state: InputBoxView,
    steps: Seq<FoldStep>,
    event_signature: H256,
    application: Seq<u8>,
)
    requires
        spec_fold_all(state, steps, event_signature) is Ok,
    ensures
        list_of(spec_fold_all(state, steps, event_signature)->Ok_0.dapp_input_boxes, application)
            == list_of(state.dapp_input_boxes, application) + inputs_for(
            spec_discovered(state, steps, event_signature),
            application,
        ),
{
    lemma_folds_add_discovered(state, steps, event_signature);
    lemma_insert_all_keeps_order(
        state.dapp_input_boxes,
        spec_discovered(state, steps, event_signature),
        application,
    );
}

/// What a run of folds finds for an application is what the folds before
/// the last found for it, followed by what the last fold found for it: the
/// inputs of an earlier block come before those of a later one.
pub proof fn lemma_discovered_by_block(
    state: InputBoxView,
    steps: Seq<FoldStep>,
    event_signature: H256,
    application: Seq<u8>,
)
    requires
        steps.len() > 0,
    ensures
        inputs_for(spec_discovered(state, steps, event_signature), application) == inputs_for(
            spec_discovered(state, steps.drop_last(), event_signature),
            application,
        ) + inputs_for(
            if step_may_hold_inputs(state, steps.last(), event_signature) && steps.last().logs
                is Some {
                spec_inputs_of_block(steps.last().logs->Some_0, steps.last().block)
            } else {
                Seq::empty()
            },
            application,
        ),
{
    let before = spec_discovered(state, steps.drop_last(), event_signature);
    let step = steps.last();
    if step_may_hold_inputs(state, step, event_signature) && step.logs is Some {
        Seq::filter_distributes_over_add(
            before,
            spec_inputs_of_block(step.logs->Some_0, step.block),
            input_addressed_to(application),
        );
    } else {
        Seq::filter_distributes_over_add(
            before,
            Seq::<InputView>::empty(),
            input_addressed_to(application),
        );
        assert(before + Seq::<InputView>::empty() =~= before);
    }
}

/// Folds that all succeed keep the two addresses and add what they found.
pub proof fn lemma_folds_add_discovered(
    state: InputBoxView,
    steps: Seq<FoldStep>,
    event_signature: H256,
)
    requires
        spec_fold_all(state, steps, event_signature) is Ok,
    ensures
        spec_fold_all(state, steps, event_signature)->Ok_0 == (InputBoxView {
            dapp_address: state.dapp_address,
            input_box_address: state.input_box_address,
            dapp_input_boxes: spec_insert_all(
                state.dapp_input_boxes,
                spec_discovered(state, steps, event_signature),
            ),
        }),
    decreases steps.len(),
{
    if steps.len() > 0 {
        let step = steps.last();
        lemma_folds_add_discovered(state, steps.drop_last(), event_signature);
        let before = spec_discovered(state, steps.drop_last(), event_signature);
        if step_may_hold_inputs(state, step, event_signature) {
            let found = spec_inputs_of_block(step.logs->Some_0, step.block);
            lemma_insert_all_concat(state.dapp_input_boxes, before, found);
        } else {
            assert(before + Seq::<InputView>::empty() =~= before);
        }
    }
}

/// The events of folds whose blocks come before block `bound` lie before
/// it.
pub proof fn lemma_events_of_are_earlier(steps: Seq<FoldStep>, bound: u64, i: int)
    requires
        forall|j: int|
            0 <= j < steps.len() ==> (#[trigger] steps[j]).block.number < bound && steps[j].logs
                is Some && forall|k: int|
                0 <= k < steps[j].logs->Some_0.len() ==> (
                #[trigger] steps[j].logs->Some_0[k]).meta.block_number == steps[j].block.number,
        0 <= i < spec_events_of(steps).len(),
    ensures
        spec_events_of(steps)[i].meta.block_number < bound,
    decreases steps.len(),
{
    if steps.len() > 0 {
        let earlier = steps.drop_last();
        let before = spec_events_of(earlier);
        assert(steps.last() == steps[steps.len() - 1]);
        if i < before.len() {
            assert forall|j: int| 0 <= j < earlier.len() implies (
            #[trigger] earlier[j]).block.number < bound && earlier[j].logs is Some && forall|
                k: int,
            |
                0 <= k < earlier[j].logs->Some_0.len() ==> (
                #[trigger] earlier[j].logs->Some_0[k]).meta.block_number
                    == earlier[j].block.number by {
                assert(earlier[j] == steps[j]);
            }
            lemma_events_of_are_earlier(earlier, bound, i);
        } else {
            let found = steps.last().logs->Some_0;
            assert(spec_events_of(steps)[i] == found[i - before.len()]);
        }
    }
}

/// A sync up to one block, followed by folds of the blocks after it, gives
/// what a sync up to the last of them gives, where the chain has stayed the
/// same: the same state, or the same failure.
pub proof fn lemma_sync_then_fold_is_sync(
    initial: InputBoxInitialState,
    events: Seq<FetchedEvent>,
    steps: Seq<FoldStep>,
    event_signature: H256,
)
    requires
        spec_sync(initial, Some(events)) is Ok,
        stable_chain(spec_sync(initial, Some(events))->Ok_0, events, steps, event_signature),
    ensures
        spec_fold_all(spec_sync(initial, Some(events))->Ok_0, steps, event_signature) == spec_sync(
            initial,
            Some(events + spec_events_of(steps)),
        ),
    decreases steps.len(),
{
    let synced = spec_sync(initial, Some(events))->Ok_0;
    if steps.len() == 0 {
        assert(events + spec_events_of(steps) =~= events);
    } else {
        let step = steps.last();
        let earlier = steps.drop_last();
        assert(step == steps[steps.len() - 1]);
        assert forall|j: int| 0 <= j < earlier.len() implies (#[trigger] earlier[j])
            == steps[j] by {}
        assert(stable_chain(synced, events, earlier, event_signature));
        lemma_sync_then_fold_is_sync(initial, events, earlier, event_signature);
        let found = step.logs->Some_0;
        let so_far = events + spec_events_of(earlier);
        assert(events + spec_events_of(steps) =~= so_far + found);
        assert forall|i: int, j: int|
            0 <= i < so_far.len() && 0 <= j < found.len() implies spec_log_le(
            (#[trigger] so_far[i]).meta,
            (#[trigger] found[j]).meta,
        ) by {
            if i >= events.len() {
                lemma_events_of_are_earlier(earlier, step.block.number, i - events.len());
            }
        }
        lemma_sort_concat(so_far, found);
        let sorted_so_far = spec_sort_by_log(so_far);
        let sorted_found = spec_sort_by_log(found);
        lemma_sort_is_permutation(found);
        lemma_build_all_concat(sorted_so_far, sorted_found, None);
        assert forall|k: int| 0 <= k < sorted_found.len() implies (
        #[trigger] sorted_found[k]).queried_block == Some(step.block) by {
            lemma_sorted_event_is_listed(found, k);
        }
        lemma_build_all_same_block(sorted_found, step.block);
        match spec_fold_all(synced, earlier, event_signature) {
            Ok(before) => {
                lemma_folds_add_discovered(synced, earlier, event_signature);
                let built = spec_build_all(sorted_so_far, None)->Ok_0;
                if step_may_hold_inputs(synced, step, event_signature) {
                    if let Ok(new) = spec_build_all(sorted_found, None) {
                        lemma_insert_all_concat(Map::empty(), built, new);
                    }
                } else {
                    assert(sorted_found =~= Seq::empty());
                    assert(built + Seq::<InputView>::empty() =~= built);
                }
            },
            Err(_) => {},
        }
    }
}

} // verus!
