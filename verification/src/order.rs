//! The order of the log: by block, and within a block by position.
//!
//! Events are put into this order before their inputs are built, so that a
//! list never depends on the order in which a provider happened to report
//! them. Events at the same place of the log keep the order they came in.

use crate::types::{FetchedEvent, LogMeta};
use vstd::prelude::*;
use vstd::seq_lib::to_multiset_insert;

verus! {

/// Whether the log at `a` comes no later than the log at `b`: in an earlier
/// block, or in the same block at a position that is not higher.
pub open spec fn spec_log_le(a: LogMeta, b: LogMeta) -> bool {
    a.block_number < b.block_number || (a.block_number == b.block_number && a.log_index
        <= b.log_index)
}

/// Whether each event comes no later in the log than those listed after it.
pub open spec fn is_log_ordered(events: Seq<FetchedEvent>) -> bool {
    forall|i: int, j: int|
        0 <= i < j < events.len() ==> spec_log_le((#[trigger] events[i]).meta, (
        #[trigger] events[j]).meta)
}

/// Where `event` goes into `sorted`: behind the last event that comes no
/// later in the log than it does.
pub open spec fn spec_log_position(sorted: Seq<FetchedEvent>, event: FetchedEvent) -> int
    decreases sorted.len(),
{
    if sorted.len() == 0 {
        0
    } else if spec_log_le(sorted.last().meta, event.meta) {
        sorted.len() as int
    } else {
        spec_log_position(sorted.drop_last(), event)
    }
}

/// The events in the order of the log. Events at the same place of the log
/// keep their listed order.
pub open spec fn spec_sort_by_log(events: Seq<FetchedEvent>) -> Seq<FetchedEvent>
    decreases events.len(),
{
    if events.len() == 0 {
        Seq::empty()
    } else {
        let sorted = spec_sort_by_log(events.drop_last());
        sorted.insert(spec_log_position(sorted, events.last()), events.last())
    }
}

/// The events at the positions `order`, in that order.
pub open spec fn picked(events: Seq<FetchedEvent>, order: Seq<usize>) -> Seq<FetchedEvent> {
    Seq::new(order.len(), |i: int| events[order[i] as int])
}

/// The place of an event is behind every event that comes no later than
/// it and before every event that comes later.
pub proof fn lemma_log_position(sorted: Seq<FetchedEvent>, event: FetchedEvent)
    ensures
        0 <= spec_log_position(sorted, event) <= sorted.len(),
        forall|j: int|
            spec_log_position(sorted, event) <= j < sorted.len() ==> !spec_log_le(
                (#[trigger] sorted[j]).meta,
                event.meta,
            ),
        spec_log_position(sorted, event) > 0 ==> spec_log_le(
            sorted[spec_log_position(sorted, event) - 1].meta,
            event.meta,
        ),
    decreases sorted.len(),
{
    if sorted.len() > 0 && !spec_log_le(sorted.last().meta, event.meta) {
        let earlier = sorted.drop_last();
        lemma_log_position(earlier, event);
        assert forall|j: int|
            spec_log_position(sorted, event) <= j < sorted.len() implies !spec_log_le(
            (#[trigger] sorted[j]).meta,
            event.meta,
        ) by {
            if j < earlier.len() {
                assert(sorted[j] == earlier[j]);
            }
        }
        if spec_log_position(sorted, event) > 0 {
            assert(sorted[spec_log_position(sorted, event) - 1] == earlier[spec_log_position(
                sorted,
                event,
            ) - 1]);
        }
    }
}

/// There is one such place.
pub proof fn lemma_log_position_is(sorted: Seq<FetchedEvent>, event: FetchedEvent, pos: int)
    requires
        0 <= pos <= sorted.len(),
        forall|j: int|
            pos <= j < sorted.len() ==> !spec_log_le((#[trigger] sorted[j]).meta, event.meta),
        pos > 0 ==> spec_log_le(sorted[pos - 1].meta, event.meta),
    ensures
        spec_log_position(sorted, event) == pos,
    decreases sorted.len(),
{
    if sorted.len() > 0 {
        if spec_log_le(sorted.last().meta, event.meta) {
            assert(sorted.last() == sorted[sorted.len() - 1]);
        } else {
            lemma_log_position_is(sorted.drop_last(), event, pos);
        }
    }
}

/// Sorting loses and adds nothing: the sorted events are the listed ones,
/// each as often as it was listed.
pub proof fn lemma_sort_is_permutation(events: Seq<FetchedEvent>)
    ensures
        spec_sort_by_log(events).len() == events.len(),
        spec_sort_by_log(events).to_multiset() == events.to_multiset(),
    decreases events.len(),
{
    if events.len() > 0 {
        let sorted = spec_sort_by_log(events.drop_last());
        lemma_sort_is_permutation(events.drop_last());
        lemma_log_position(sorted, events.last());
        to_multiset_insert(sorted, spec_log_position(sorted, events.last()), events.last());
        assert(events.drop_last().push(events.last()) =~= events);
        vstd::seq_lib::to_multiset_build(events.drop_last(), events.last());
    } else {
        assert(spec_sort_by_log(events) =~= events);
    }
}

/// The sorted events are in the order of the log.
pub proof fn lemma_sort_is_ordered(events: Seq<FetchedEvent>)
    ensures
        is_log_ordered(spec_sort_by_log(events)),
    decreases events.len(),
{
    if events.len() > 0 {
        let sorted = spec_sort_by_log(events.drop_last());
        let event = events.last();
        let pos = spec_log_position(sorted, event);
        lemma_sort_is_ordered(events.drop_last());
        lemma_log_position(sorted, event);
        let result = sorted.insert(pos, event);
        assert forall|i: int, j: int| 0 <= i < j < result.len() implies spec_log_le(
            (#[trigger] result[i]).meta,
            (#[trigger] result[j]).meta,
        ) by {
            if j < pos {
                assert(result[i] == sorted[i] && result[j] == sorted[j]);
            } else if j == pos {
                assert(result[i] == sorted[i]);
                if i < pos - 1 {
                    assert(spec_log_le(sorted[i].meta, sorted[pos - 1].meta));
                }
            } else if i < pos {
                assert(result[i] == sorted[i] && result[j] == sorted[j - 1]);
                if j - 1 > i {
                    assert(spec_log_le(sorted[i].meta, sorted[j - 1].meta));
                }
            } else if i == pos {
                assert(result[j] == sorted[j - 1]);
                assert(!spec_log_le(sorted[j - 1].meta, event.meta));
            } else {
                assert(result[i] == sorted[i - 1] && result[j] == sorted[j - 1]);
            }
        }
    }
}

/// Events that are listed in the order of the log stay as they are.
pub proof fn lemma_sort_of_ordered(events: Seq<FetchedEvent>)
    requires
        is_log_ordered(events),
    ensures
        spec_sort_by_log(events) == events,
    decreases events.len(),
{
    if events.len() > 0 {
        let earlier = events.drop_last();
        assert(is_log_ordered(earlier)) by {
            assert forall|i: int, j: int| 0 <= i < j < earlier.len() implies spec_log_le(
                (#[trigger] earlier[i]).meta,
                (#[trigger] earlier[j]).meta,
            ) by {
                assert(earlier[i] == events[i] && earlier[j] == events[j]);
            }
        }
        lemma_sort_of_ordered(earlier);
        if earlier.len() > 0 {
            assert(earlier.last() == events[events.len() - 2]);
            assert(events.last() == events[events.len() - 1]);
        }
        assert(earlier.insert(earlier.len() as int, events.last()) =~= events);
    } else {
        assert(spec_sort_by_log(events) =~= events);
    }
}

/// Where every event of `first` comes no later in the log than every event
/// of `second`, sorting the two together is sorting each.
pub proof fn lemma_sort_concat(first: Seq<FetchedEvent>, second: Seq<FetchedEvent>)
    requires
        forall|i: int, j: int|
            0 <= i < first.len() && 0 <= j < second.len() ==> spec_log_le(
                (#[trigger] first[i]).meta,
                (#[trigger] second[j]).meta,
            ),
    ensures
        spec_sort_by_log(first + second) == spec_sort_by_log(first) + spec_sort_by_log(second),
    decreases second.len(),
{
    if second.len() == 0 {
        assert(first + second =~= first);
        assert(spec_sort_by_log(first) + spec_sort_by_log(second) =~= spec_sort_by_log(first));
    } else {
        let event = second.last();
        let earlier = second.drop_last();
        assert forall|i: int, j: int|
            0 <= i < first.len() && 0 <= j < earlier.len() implies spec_log_le(
            (#[trigger] first[i]).meta,
            (#[trigger] earlier[j]).meta,
        ) by {
            assert(earlier[j] == second[j]);
        }
        lemma_sort_concat(first, earlier);
        assert((first + second).drop_last() =~= first + earlier);
        assert((first + second).last() == event);
        let head = spec_sort_by_log(first);
        let tail = spec_sort_by_log(earlier);
        lemma_log_position(tail, event);
        let pos = spec_log_position(tail, event);
        assert forall|k: int| 0 <= k < head.len() implies spec_log_le(
            (#[trigger] head[k]).meta,
            event.meta,
        ) by {
            lemma_sort_is_permutation(first);
            head.to_multiset_ensures();
            first.to_multiset_ensures();
            assert(head.contains(head[k]));
            assert(head.to_multiset().count(head[k]) > 0);
            assert(first.to_multiset().count(head[k]) > 0);
            assert(first.contains(head[k]));
            let i = choose|i: int| 0 <= i < first.len() && first[i] == head[k];
            assert(second[second.len() - 1] == event);
            assert(spec_log_le(first[i].meta, second[second.len() - 1].meta));
        }
        assert forall|j: int| head.len() + pos <= j < (head + tail).len() implies !spec_log_le(
            (#[trigger] (head + tail)[j]).meta,
            event.meta,
        ) by {
            assert((head + tail)[j] == tail[j - head.len()]);
        }
        if pos > 0 {
            assert((head + tail)[head.len() + pos - 1] == tail[pos - 1]);
        } else if head.len() > 0 {
            assert((head + tail)[head.len() - 1] == head[head.len() - 1]);
        }
        lemma_log_position_is(head + tail, event, head.len() + pos);
        assert((head + tail).insert(head.len() + pos, event) =~= head + tail.insert(pos, event));
    }
}

/// Whether the log at `a` comes no later than the log at `b`.
pub fn log_le(a: &LogMeta, b: &LogMeta) -> (r: bool)
    ensures
        r == spec_log_le(*a, *b),
{
    a.block_number < b.block_number || (a.block_number == b.block_number && a.log_index
        <= b.log_index)
}

/// The positions of `events` in the order of the log: the first names the
/// event that comes first, and so on.
pub fn log_order(events: &Vec<FetchedEvent>) -> (order: Vec<usize>)
    ensures
        order@.len() == events@.len(),
        forall|k: int| 0 <= k < order@.len() ==> (#[trigger] order@[k]) < events@.len(),
        picked(events@, order@) == spec_sort_by_log(events@),
{
    let mut order: Vec<usize> = Vec::new();
    let mut n: usize = 0;
    assert(picked(events@, order@) =~= spec_sort_by_log(events@.take(0)));
    while n < events.len()
        invariant
            n <= events@.len(),
            order@.len() == n,
            forall|k: int| 0 <= k < order@.len() ==> (#[trigger] order@[k]) < n,
            picked(events@, order@) == spec_sort_by_log(events@.take(n as int)),
        decreases events@.len() - n,
    {
        let ghost sorted = picked(events@, order@);
        let mut pos: usize = order.len();
        while pos > 0 && !log_le(&events[order[pos - 1]].meta, &events[n].meta)
            invariant
                pos <= order@.len(),
                order@.len() == n,
                n < events@.len(),
                forall|k: int| 0 <= k < order@.len() ==> (#[trigger] order@[k]) < n,
                sorted == picked(events@, order@),
                forall|j: int|
                    pos <= j < sorted.len() ==> !spec_log_le(
                        (#[trigger] sorted[j]).meta,
                        events@[n as int].meta,
                    ),
            decreases pos,
        {
            pos -= 1;
        }
        proof {
            lemma_log_position_is(sorted, events@[n as int], pos as int);
            let upto = events@.take(n + 1);
            assert(upto.drop_last() =~= events@.take(n as int));
            assert(upto.last() == events@[n as int]);
        }
        order.insert(pos, n);
        assert(picked(events@, order@) =~= sorted.insert(pos as int, events@[n as int]));
        n += 1;
    }
    assert(events@.take(n as int) =~= events@);
    order
}

} // verus!
