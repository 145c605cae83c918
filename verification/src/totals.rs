//! The total that a sequence of events moves.

use crate::amount::{amount_limit, Amount};
use crate::sums::{lemma_sum_prefix, lemma_sum_push, lemma_weights_any_order, seq_sum};
use crate::types::TransferEvent;
use vstd::prelude::*;
use vstd::seq_lib::to_multiset_contains;

verus! {

/// The values of the events, in order.
pub open spec fn event_values(events: Seq<TransferEvent>) -> Seq<nat> {
    Seq::new(events.len(), |k: int| events[k].value@)
}

/// The sum of all event values.
pub open spec fn total_value(events: Seq<TransferEvent>) -> nat {
    seq_sum(event_values(events))
}

/// Whether the two sequences hold the same events, each as often, in
/// whatever order.
pub open spec fn same_events(first: Seq<TransferEvent>, second: Seq<TransferEvent>) -> bool {
    first.to_multiset() == second.to_multiset()
}

/// An event of one sequence stands somewhere in another that holds the same
/// events.
pub proof fn lemma_event_found(first: Seq<TransferEvent>, second: Seq<TransferEvent>, k: int) -> (at:
    int)
    requires
        same_events(first, second),
        0 <= k < first.len(),
    ensures
        0 <= at < second.len(),
        second[at] == first[k],
{
    assert(first.contains(first[k]));
    to_multiset_contains(first, first[k]);
    to_multiset_contains(second, first[k]);
    choose|i: int| 0 <= i < second.len() && second[i] == first[k]
}

/// The total of a prefix of the events is no more than the total of all.
pub proof fn lemma_total_prefix(events: Seq<TransferEvent>, count: int)
    requires
        0 <= count <= events.len(),
    ensures
        total_value(events.take(count)) <= total_value(events),
{
    assert(event_values(events.take(count)) =~= event_values(events).take(count));
    lemma_sum_prefix(event_values(events), count);
}

/// One more event adds its value to the total.
pub proof fn lemma_total_push(events: Seq<TransferEvent>, event: TransferEvent)
    ensures
        total_value(events.push(event)) == total_value(events) + event.value@,
{
    assert(event_values(events.push(event)) =~= event_values(events).push(event.value@));
    lemma_sum_push(event_values(events), event.value@);
}

/// The total is the same in whatever order the events come.
pub proof fn lemma_total_any_order(first: Seq<TransferEvent>, second: Seq<TransferEvent>)
    requires
        same_events(first, second),
    ensures
        total_value(first) == total_value(second),
{
    let value = |event: TransferEvent| event.value@;
    lemma_weights_any_order(first, second, value);
    assert(first.map_values(value) =~= event_values(first));
    assert(second.map_values(value) =~= event_values(second));
}

/// The sum of all event values, or `None` where it does not fit in 256 bits.
pub fn checked_total_volume(events: &[TransferEvent]) -> (total: Option<Amount>)
    ensures
        match total {
            Some(sum) => sum@ == total_value(events@),
            None => total_value(events@) >= amount_limit(),
        },
{
    let mut sum = Amount::zero();
    let mut done: usize = 0;
    proof {
        assert(event_values(events@.take(0)) =~= Seq::<nat>::empty());
    }
    while done < events.len()
        invariant
            done <= events.len(),
            sum@ == total_value(events@.take(done as int)),
        decreases events.len() - done,
    {
        proof {
            assert(events@.take(done + 1) =~= events@.take(done as int).push(events@[done as int]));
            lemma_total_push(events@.take(done as int), events@[done as int]);
            lemma_total_prefix(events@, done + 1);
        }
        match sum.checked_add(&events[done].value) {
            Some(next) => {
                sum = next;
            },
            None => {
                return None;
            },
        }
        done += 1;
    }
    proof {
        assert(events@.take(done as int) =~= events@);
    }
    Some(sum)
}

} // verus!
